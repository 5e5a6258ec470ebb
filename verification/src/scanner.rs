//! The scanning engine: the executable lexer, proved to compute exactly
//! the scan that [`crate::scan::spec_scan`] describes.

use vstd::prelude::*;
use vstd::string::StrSliceExecFns;

use crate::patterns::classify;
use crate::patterns::classify_span;
use crate::scan::is_ascii_whitespace_char;
use crate::scan::lemma_match_len_upto;
use crate::scan::lemma_max_munch_found;
use crate::scan::lemma_max_munch_none;
use crate::scan::line_of;
use crate::scan::max_munch;
use crate::scan::newline_count;
use crate::scan::offending_text;
use crate::scan::run_end;
use crate::scan::spec_scan;
use crate::scan::spec_scan_from;
use crate::tokens::Class;
use crate::tokens::LexError;
use crate::tokens::Token;
use crate::tokens::TokenModel;

verus! {

/// The characters of a string slice, as a vector.
fn str_chars(code: &str) -> (v: Vec<char>)
    ensures
        v@ == code@,
{
    let n = code.unicode_len();
    let mut v: Vec<char> = Vec::new();
    let mut i: usize = 0;
    while i < n
        invariant
            i <= n,
            n == code@.len(),
            v@ == code@.subrange(0, i as int),
        decreases n - i,
    {
        v.push(code.get_char(i));
        i += 1;
        proof {
            assert(v@ =~= code@.subrange(0, i as int));
        }
    }
    proof {
        assert(code@.subrange(0, n as int) =~= code@);
    }
    v
}

/// The length of the maximal munch at `pos`: the longest span starting
/// there that matches some pattern entry, or `0` when none does. The
/// candidate grows one character at a time and stops at the first failing
/// extension after a match; the shrink lemma shows nothing longer could
/// have matched.
fn munch_at(chars: &Vec<char>, pos: usize) -> (r: usize)
    requires
        pos < chars.len(),
    ensures
        r as int == max_munch(chars@, pos as int),
        pos + r <= chars.len(),
        r >= 1 ==> classify(chars@.subrange(pos as int, pos as int + r as int)) is Some,
{
    let ghost s = chars@;
    let n = chars.len();
    let mut end: usize = 0;
    let mut l: usize = 1;
    loop
        invariant
            pos < n,
            n == s.len(),
            s == chars@,
            1 <= l,
            pos + l <= n,
            end == 0 ==> forall|k: int|
                1 <= k < l ==> classify(#[trigger] s.subrange(pos as int, pos as int + k)) is None,
            end >= 1 ==> end + 1 == l && classify(
                s.subrange(pos as int, pos as int + end as int),
            ) is Some,
        decreases n - pos - l,
    {
        let matched = classify_span(chars, pos, pos + l).is_some();
        if matched {
            if l == n - pos {
                proof {
                    lemma_max_munch_found(s, pos as int, l as int);
                }
                return l;
            }
            end = l;
            l = l + 1;
        } else {
            if end >= 1 {
                proof {
                    lemma_max_munch_found(s, pos as int, end as int);
                }
                return end;
            }
            if l == n - pos {
                proof {
                    lemma_max_munch_none(s, pos as int);
                    lemma_match_len_upto(s, pos as int, s.len() - pos as int);
                }
                return 0;
            }
            l = l + 1;
        }
    }
}

/// The end of the run of non-whitespace characters that starts at `pos`.
fn run_end_at(chars: &Vec<char>, pos: usize) -> (r: usize)
    requires
        pos <= chars.len(),
    ensures
        r as int == run_end(chars@, pos as int),
        pos <= r <= chars.len(),
{
    let n = chars.len();
    let mut i: usize = pos;
    while i < n && !(chars[i] == ' ' || chars[i] == '\t' || chars[i] == '\n' || chars[i] == '\r'
        || chars[i] == '\x0c')
        invariant
            pos <= i <= n,
            n == chars@.len(),
            run_end(chars@, pos as int) == run_end(chars@, i as int),
        decreases n - i,
    {
        proof {
            assert(!is_ascii_whitespace_char(chars@[i as int]));
        }
        i += 1;
    }
    i
}

/// How many newline characters stand strictly before `upto`.
fn count_newlines(chars: &Vec<char>, upto: usize) -> (r: usize)
    requires
        upto <= chars.len(),
    ensures
        r as int == newline_count(chars@, upto as int),
        r <= upto,
{
    let mut count: usize = 0;
    let mut i: usize = 0;
    while i < upto
        invariant
            i <= upto <= chars@.len(),
            count as int == newline_count(chars@, i as int),
            count <= i,
        decreases upto - i,
    {
        if chars[i] == '\n' {
            count += 1;
        }
        i += 1;
    }
    count
}

/// Scan a source text into its token sequence.
///
/// On success the returned tokens are exactly the maximal-munch
/// tokenization of the text that [`spec_scan`] describes: every token
/// carries the class the pattern table gives its span and, as its lexeme,
/// the exact characters of that span, and whitespace is elided. When some
/// position of the text can start no token at all, the scan fails —
/// precisely then — and the error carries the offending run of
/// non-whitespace characters and its 1-based line number.
pub fn lexical_analysis(code: &str) -> (r: Result<Vec<Token>, LexError>)
    ensures
        match r {
            Ok(tokens) => {
                &&& spec_scan(code@) is Ok
                &&& tokens@.map_values(|t: Token| t@) == spec_scan(code@)->Ok_0
            },
            Err(e) => {
                &&& spec_scan(code@) is Err
                &&& e.text@ == offending_text(code@, spec_scan(code@)->Err_0)
                &&& e.line as int == line_of(code@, spec_scan(code@)->Err_0)
            },
        },
{
    let ghost s = code@;
    let chars = str_chars(code);
    let n = chars.len();
    let mut tokens: Vec<Token> = Vec::new();
    let mut pos: usize = 0;
    while pos < n
        invariant
            pos <= n,
            n == s.len(),
            s == code@,
            chars@ == s,
            match spec_scan_from(s, pos as int) {
                Ok(rest) => spec_scan(s) is Ok && spec_scan(s)->Ok_0 == tokens@.map_values(
                    |t: Token| t@,
                ) + rest,
                Err(p) => spec_scan(s) == Err::<Seq<TokenModel>, int>(p),
            },
        decreases n - pos,
    {
        let m = munch_at(&chars, pos);
        if m == 0 {
            proof {
                assert(spec_scan_from(s, pos as int) == Err::<Seq<TokenModel>, int>(pos as int));
            }
            let q = run_end_at(&chars, pos);
            let text = code.substring_char(pos, q).to_owned();
            let count = count_newlines(&chars, pos);
            return Err(LexError { text, line: count + 1 });
        }
        let ghost span = s.subrange(pos as int, pos as int + m as int);
        let kind_opt = classify_span(&chars, pos, pos + m);
        let kind = kind_opt.unwrap();
        let ghost tokens_before = tokens@;
        if kind != Class::Whitespace {
            let lexeme = code.substring_char(pos, pos + m).to_owned();
            tokens.push(Token { class: kind, lexeme });
        }
        proof {
            let p = pos as int;
            let rest_res = spec_scan_from(s, p + m as int);
            match rest_res {
                Ok(rest) => {
                    if classify(span) == Some(Class::Whitespace) {
                        assert(spec_scan_from(s, p) == Ok::<Seq<TokenModel>, int>(rest));
                        assert(tokens@ == tokens_before);
                    } else {
                        let tm = TokenModel { class: kind, lexeme: span };
                        assert(spec_scan_from(s, p) == Ok::<Seq<TokenModel>, int>(
                            seq![tm] + rest,
                        ));
                        assert(tokens@.map_values(|t: Token| t@) =~~= tokens_before.map_values(
                            |t: Token| t@,
                        ) + seq![tm]);
                        assert(tokens_before.map_values(|t: Token| t@) + (seq![tm] + rest)
                            =~~= (tokens_before.map_values(|t: Token| t@) + seq![tm]) + rest);
                    }
                },
                Err(_) => {
                    assert(spec_scan_from(s, p) == rest_res);
                },
            }
        }
        pos = pos + m;
    }
    proof {
        assert(spec_scan_from(s, pos as int) == Ok::<Seq<TokenModel>, int>(Seq::empty()));
        assert(tokens@.map_values(|t: Token| t@) + Seq::<TokenModel>::empty() =~~= tokens@.map_values(
            |t: Token| t@,
        ));
    }
    Ok(tokens)
}

} // verus!
