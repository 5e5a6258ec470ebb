//! The laws of the lexer: properties that hold of every scan, proved once
//! and for all against the scan model of [`crate::scan`].

use vstd::prelude::*;

use crate::patterns::classify;
use crate::patterns::is_ident;
use crate::patterns::is_pattern_whitespace;
use crate::patterns::is_number;
use crate::patterns::keyword_class;
use crate::patterns::kw_begin;
use crate::patterns::kw_call;
use crate::patterns::kw_const;
use crate::patterns::kw_do;
use crate::patterns::kw_end;
use crate::patterns::kw_if;
use crate::patterns::kw_odd;
use crate::patterns::kw_procedure;
use crate::patterns::kw_read;
use crate::patterns::kw_then;
use crate::patterns::kw_var;
use crate::patterns::kw_while;
use crate::patterns::kw_write;
use crate::patterns::lower;
use crate::patterns::matches_keyword;
use crate::scan::lemma_match_len_upto;
use crate::scan::max_munch;
use crate::scan::spec_scan;
use crate::scan::spec_scan_from;
use crate::tokens::Class;
use crate::tokens::TokenModel;

verus! {

/// The keyword rows of the pattern table: which lexeme belongs to which
/// keyword class.
pub open spec fn keyword_entry(kw: Seq<char>, c: Class) -> bool {
    ||| (kw == kw_begin() && c == Class::Begin)
    ||| (kw == kw_end() && c == Class::End)
    ||| (kw == kw_call() && c == Class::Call)
    ||| (kw == kw_do() && c == Class::Do)
    ||| (kw == kw_while() && c == Class::While)
    ||| (kw == kw_if() && c == Class::If)
    ||| (kw == kw_then() && c == Class::Then)
    ||| (kw == kw_odd() && c == Class::Odd)
    ||| (kw == kw_procedure() && c == Class::Procedure)
    ||| (kw == kw_const() && c == Class::Const)
    ||| (kw == kw_var() && c == Class::Var)
    ||| (kw == kw_read() && c == Class::Read)
    ||| (kw == kw_write() && c == Class::Write)
}

/// A whole input that matches one pattern entry scans to exactly that one
/// token, with the input itself as its lexeme.
proof fn lemma_single_token_scan(s: Seq<char>, c: Class)
    requires
        s.len() >= 1,
        classify(s) == Some(c),
        c != Class::Whitespace,
    ensures
        spec_scan(s) == Ok::<Seq<TokenModel>, int>(seq![TokenModel { class: c, lexeme: s }]),
{
    assert(s.subrange(0, s.len() as int) =~= s);
    assert(max_munch(s, 0) == s.len());
    assert(spec_scan_from(s, s.len() as int) == Ok::<Seq<TokenModel>, int>(Seq::empty()));
    assert(seq![TokenModel { class: c, lexeme: s }] + Seq::<TokenModel>::empty()
        =~= seq![TokenModel { class: c, lexeme: s }]);
}

/// Law: keywords scan as keywords, never as identifiers. An input that
/// case-folds to a reserved keyword — in whatever casing — yields exactly
/// one token, of that keyword's class, with the input's own characters as
/// its lexeme.
pub proof fn lemma_keyword_scan(s: Seq<char>, kw: Seq<char>, c: Class)
    requires
        keyword_entry(kw, c),
        matches_keyword(s, kw),
    ensures
        classify(s) == Some(c),
        c != Class::Identifies,
        spec_scan(s) == Ok::<Seq<TokenModel>, int>(seq![TokenModel { class: c, lexeme: s }]),
{
    assert(lower(s[0]) == kw[0]);
    if kw == kw_if() {
        assert(lower(s[0]) == 'i');
    } else if kw == kw_odd() {
        assert(lower(s[0]) == 'o');
    } else if kw == kw_var() {
        assert(lower(s[0]) == 'v');
    } else if kw == kw_then() {
        assert(lower(s[0]) == 't');
    } else if kw == kw_read() {
        assert(lower(s[0]) == 'r');
    } else if kw == kw_while() {
        assert(lower(s[0]) == 'w');
        assert(lower(s[1]) == 'h');
    } else if kw == kw_const() {
        assert(lower(s[0]) == 'c');
    } else if kw == kw_write() {
        assert(lower(s[0]) == 'w');
        assert(lower(s[1]) == 'r');
    }
    crate::patterns::lemma_keyword_is_ident(s);
    assert(keyword_class(s) == Some(c));
    lemma_single_token_scan(s, c);
}

/// Law: a whole input that is a well-formed identifier and no reserved
/// keyword scans to exactly one Identifier token whose lexeme is the input.
pub proof fn lemma_ident_scan(s: Seq<char>)
    requires
        is_ident(s),
        keyword_class(s) is None,
    ensures
        spec_scan(s) == Ok::<Seq<TokenModel>, int>(
            seq![TokenModel { class: Class::Identifies, lexeme: s }],
        ),
{
    lemma_single_token_scan(s, Class::Identifies);
}

/// Law: a whole input of one or more digits scans to exactly one Number
/// token whose lexeme is the input; in particular a number ending exactly
/// at the end of the input is still emitted.
pub proof fn lemma_number_scan(s: Seq<char>)
    requires
        is_number(s),
    ensures
        spec_scan(s) == Ok::<Seq<TokenModel>, int>(
            seq![TokenModel { class: Class::Number, lexeme: s }],
        ),
{
    assert(classify(s) == Some(Class::Number));
    lemma_single_token_scan(s, Class::Number);
}

/// Law: maximal munch. No matching span is ever cut short: whenever some
/// span starting at `pos` matches a pattern entry, the munch taken there is
/// at least as long, and itself matches.
pub proof fn lemma_munch_is_longest(s: Seq<char>, pos: int, l: int)
    requires
        0 <= pos,
        1 <= l,
        pos + l <= s.len(),
        classify(s.subrange(pos, pos + l)) is Some,
    ensures
        l <= max_munch(s, pos),
        classify(s.subrange(pos, pos + max_munch(s, pos))) is Some,
{
    lemma_match_len_upto(s, pos, s.len() - pos);
}

/// Law: whitespace elision. A successful scan emits no Whitespace token.
pub proof fn lemma_no_whitespace_tokens(s: Seq<char>, pos: int)
    requires
        spec_scan_from(s, pos) is Ok,
    ensures
        forall|i: int|
            0 <= i < spec_scan_from(s, pos)->Ok_0.len() ==> (#[trigger] spec_scan_from(
                s,
                pos,
            )->Ok_0[i]).class != Class::Whitespace,
    decreases s.len() - pos,
{
    if pos >= s.len() {
    } else {
        let n = max_munch(s, pos);
        lemma_match_len_upto(s, pos, s.len() - pos);
        lemma_no_whitespace_tokens(s, pos + n);
        let toks = spec_scan_from(s, pos)->Ok_0;
        let rest = spec_scan_from(s, pos + n)->Ok_0;
        let span = s.subrange(pos, pos + n);
        if classify(span) == Some(Class::Whitespace) {
        } else {
            assert forall|i: int| 0 <= i < toks.len() implies (#[trigger] toks[i]).class
                != Class::Whitespace by {
                if i >= 1 {
                    assert(toks[i] == rest[i - 1]);
                }
            }
        }
    }
}

/// No matching span of two or more characters contains a whitespace
/// character: multi-character tokens are keywords, identifiers, numbers or
/// two-character operators, and none of their alphabets has whitespace.
proof fn lemma_match_no_ws(t: Seq<char>, i: int)
    requires
        classify(t) is Some,
        t.len() >= 2,
        0 <= i < t.len(),
    ensures
        !is_pattern_whitespace(t[i]),
{
    if keyword_class(t) is Some {
        crate::patterns::lemma_keyword_is_ident(t);
    } else if is_ident(t) {
    } else if crate::patterns::operator_class(t) is Some {
    } else {
        assert(is_number(t));
    }
}

/// Inside the prefix `a` of `a + [sep] + b` the munch is what it is in `a`
/// alone: spans that stay inside `a` agree, and spans that would cross the
/// separator contain its whitespace character and so match nothing.
proof fn lemma_munch_prefix(a: Seq<char>, sep: char, b: Seq<char>, pos: int)
    requires
        is_pattern_whitespace(sep),
        0 <= pos < a.len(),
    ensures
        max_munch(a + seq![sep] + b, pos) == max_munch(a, pos),
{
    let f = a + seq![sep] + b;
    let la = a.len() as int;
    lemma_match_len_upto(a, pos, la - pos);
    lemma_match_len_upto(f, pos, f.len() - pos);
    let ma = max_munch(a, pos);
    let mf = max_munch(f, pos);
    assert forall|l: int| 1 <= l && pos + l <= la implies classify(
        #[trigger] f.subrange(pos, pos + l),
    ) == classify(a.subrange(pos, pos + l)) by {
        assert(f.subrange(pos, pos + l) =~= a.subrange(pos, pos + l));
    }
    assert forall|l: int| 1 <= l && pos + l > la && pos + l <= f.len() implies classify(
        #[trigger] f.subrange(pos, pos + l),
    ) is None by {
        let t = f.subrange(pos, pos + l);
        assert(t[la - pos] == sep);
        if classify(t) is Some {
            lemma_match_no_ws(t, la - pos);
            assert(false);
        }
    }
    if ma >= 1 {
        assert(classify(f.subrange(pos, pos + ma)) is Some);
        if mf > ma {
            assert(classify(f.subrange(pos, pos + mf)) is Some);
            if pos + mf <= la {
                assert(classify(a.subrange(pos, pos + mf)) is None);
            }
            assert(false);
        }
        if mf < ma {
            assert(classify(f.subrange(pos, pos + ma)) is None);
            assert(false);
        }
    } else {
        if mf >= 1 {
            assert(classify(f.subrange(pos, pos + mf)) is Some);
            if pos + mf <= la {
                assert(classify(a.subrange(pos, pos + mf)) is None);
            }
            assert(false);
        }
    }
}

/// At the separator of `a + [sep] + b` the munch is exactly the one
/// whitespace character.
proof fn lemma_munch_at_sep(a: Seq<char>, sep: char, b: Seq<char>)
    requires
        is_pattern_whitespace(sep),
    ensures
        max_munch(a + seq![sep] + b, a.len() as int) == 1,
        classify((a + seq![sep] + b).subrange(a.len() as int, a.len() as int + 1)) == Some(
            Class::Whitespace,
        ),
{
    let f = a + seq![sep] + b;
    let la = a.len() as int;
    assert(f.subrange(la, la + 1) =~= seq![sep]);
    assert(classify(seq![sep]) == Some(Class::Whitespace));
    if la + 1 == f.len() {
        crate::scan::lemma_max_munch_found(f, la, 1);
    } else {
        let t = f.subrange(la, la + 2);
        assert(t[0] == sep);
        if classify(t) is Some {
            lemma_match_no_ws(t, 0);
            assert(false);
        }
        crate::scan::lemma_max_munch_found(f, la, 1);
    }
}

/// Inside the suffix `b` of `a + [sep] + b` the munch is what it is in `b`
/// alone.
proof fn lemma_munch_suffix(a: Seq<char>, sep: char, b: Seq<char>, q: int)
    requires
        0 <= q < b.len(),
    ensures
        max_munch(a + seq![sep] + b, a.len() + 1 + q) == max_munch(b, q),
{
    let f = a + seq![sep] + b;
    let la = a.len() as int;
    let p = la + 1 + q;
    lemma_match_len_upto(b, q, b.len() - q);
    lemma_match_len_upto(f, p, f.len() - p);
    let mb = max_munch(b, q);
    let mf = max_munch(f, p);
    assert(f.len() - p == b.len() - q);
    assert forall|l: int| 1 <= l && q + l <= b.len() implies classify(
        #[trigger] f.subrange(p, p + l),
    ) == classify(b.subrange(q, q + l)) by {
        assert(f.subrange(p, p + l) =~= b.subrange(q, q + l));
    }
    if mb >= 1 {
        assert(classify(f.subrange(p, p + mb)) is Some);
        if mf > mb {
            assert(classify(f.subrange(p, p + mf)) is Some);
            assert(classify(b.subrange(q, q + mf)) is None);
            assert(false);
        }
        if mf < mb {
            assert(classify(f.subrange(p, p + mb)) is None);
            assert(false);
        }
    } else {
        if mf >= 1 {
            assert(classify(f.subrange(p, p + mf)) is Some);
            assert(classify(b.subrange(q, q + mf)) is None);
            assert(false);
        }
    }
}

/// Scanning `a + [sep] + b` from a position inside `b` is scanning `b`
/// there: munches, spans and so tokens coincide.
proof fn lemma_scan_concat_suffix(a: Seq<char>, sep: char, b: Seq<char>, q: int)
    requires
        0 <= q <= b.len(),
        spec_scan_from(b, q) is Ok,
    ensures
        spec_scan_from(a + seq![sep] + b, a.len() + 1 + q) == spec_scan_from(b, q),
    decreases b.len() - q,
{
    let f = a + seq![sep] + b;
    let la = a.len() as int;
    let p = la + 1 + q;
    if q >= b.len() {
        assert(p >= f.len());
    } else {
        let mb = max_munch(b, q);
        lemma_match_len_upto(b, q, b.len() - q);
        assert(mb >= 1);
        lemma_munch_suffix(a, sep, b, q);
        assert(f.subrange(p, p + mb) =~= b.subrange(q, q + mb));
        lemma_scan_concat_suffix(a, sep, b, q + mb);
    }
}

/// Scanning `a + [sep] + b` from a position inside `a` yields the rest of
/// `a`'s tokens followed by all of `b`'s.
proof fn lemma_scan_concat_prefix(a: Seq<char>, sep: char, b: Seq<char>, pos: int)
    requires
        is_pattern_whitespace(sep),
        0 <= pos <= a.len(),
        spec_scan_from(a, pos) is Ok,
        spec_scan(b) is Ok,
    ensures
        spec_scan_from(a + seq![sep] + b, pos) == Ok::<Seq<TokenModel>, int>(
            spec_scan_from(a, pos)->Ok_0 + spec_scan(b)->Ok_0,
        ),
    decreases a.len() - pos,
{
    let f = a + seq![sep] + b;
    let la = a.len() as int;
    let tb = spec_scan(b)->Ok_0;
    if pos == la {
        lemma_munch_at_sep(a, sep, b);
        lemma_scan_concat_suffix(a, sep, b, 0);
        assert(Seq::<TokenModel>::empty() + tb =~= tb);
    } else {
        let ma = max_munch(a, pos);
        lemma_match_len_upto(a, pos, la - pos);
        assert(ma >= 1);
        lemma_munch_prefix(a, sep, b, pos);
        assert(f.subrange(pos, pos + ma) =~= a.subrange(pos, pos + ma));
        lemma_scan_concat_prefix(a, sep, b, pos + ma);
        let span = a.subrange(pos, pos + ma);
        let ra2 = spec_scan_from(a, pos + ma)->Ok_0;
        if classify(span) == Some(Class::Whitespace) {
        } else {
            let tm = TokenModel { class: classify(span)->Some_0, lexeme: span };
            assert(seq![tm] + (ra2 + tb) =~= (seq![tm] + ra2) + tb);
        }
    }
}

/// Law: tokenizing a concatenation is concatenating the tokenizations.
/// Scanning `A ++ w ++ B`, where `w` is any whitespace character (a
/// boundary across which no merged token can form), yields exactly the
/// tokens of `A` followed by the tokens of `B`.
pub proof fn lemma_scan_concat(a: Seq<char>, sep: char, b: Seq<char>)
    requires
        crate::patterns::is_pattern_whitespace(sep),
        spec_scan(a) is Ok,
        spec_scan(b) is Ok,
    ensures
        spec_scan(a + seq![sep] + b) == Ok::<Seq<TokenModel>, int>(
            spec_scan(a)->Ok_0 + spec_scan(b)->Ok_0,
        ),
{
    lemma_scan_concat_prefix(a, sep, b, 0);
}

/// Law: round-trip of lexeme text. Every token of a successful scan
/// carries, character for character, a contiguous substring of the input.
pub proof fn lemma_lexemes_are_substrings(s: Seq<char>, pos: int)
    requires
        0 <= pos,
        spec_scan_from(s, pos) is Ok,
    ensures
        forall|i: int|
            0 <= i < spec_scan_from(s, pos)->Ok_0.len() ==> exists|p: int, q: int|
                0 <= p <= q <= s.len() && (#[trigger] spec_scan_from(s, pos)->Ok_0[i]).lexeme
                    == s.subrange(p, q),
    decreases s.len() - pos,
{
    if pos >= s.len() {
    } else {
        let n = max_munch(s, pos);
        lemma_match_len_upto(s, pos, s.len() - pos);
        lemma_lexemes_are_substrings(s, pos + n);
        let toks = spec_scan_from(s, pos)->Ok_0;
        let rest = spec_scan_from(s, pos + n)->Ok_0;
        let span = s.subrange(pos, pos + n);
        if classify(span) == Some(Class::Whitespace) {
        } else {
            assert forall|i: int| 0 <= i < toks.len() implies exists|p: int, q: int|
                0 <= p <= q <= s.len() && (#[trigger] toks[i]).lexeme == s.subrange(p, q) by {
                if i == 0 {
                    assert(0 <= pos <= pos + n <= s.len() && toks[0].lexeme == s.subrange(
                        pos,
                        pos + n,
                    ));
                } else {
                    assert(toks[i] == rest[i - 1]);
                }
            }
        }
    }
}

} // verus!
