//! The mathematical model of a scan: maximal-munch tokenization over the
//! pattern table, and the error model (offending run and 1-based line
//! number) for input on which no token can start.

use vstd::prelude::*;

use crate::patterns::classify;
use crate::tokens::Class;
use crate::tokens::TokenModel;

verus! {

/// The largest length `l` with `1 <= l <= upto` such that the span of that
/// length starting at `pos` matches some pattern entry, or `0` when no such
/// length exists.
pub open spec fn match_len_upto(s: Seq<char>, pos: int, upto: int) -> int
    decreases upto,
{
    if upto <= 0 {
        0
    } else if classify(s.subrange(pos, pos + upto)) is Some {
        upto
    } else {
        match_len_upto(s, pos, upto - 1)
    }
}

/// Maximal munch: the length of the longest span starting at `pos` that
/// matches some pattern entry, or `0` when not even one character does.
pub open spec fn max_munch(s: Seq<char>, pos: int) -> int {
    match_len_upto(s, pos, s.len() - pos)
}

/// What [`match_len_upto`] returns: zero or a matching length in range, and
/// nothing longer (up to `upto`) matches.
pub proof fn lemma_match_len_upto(s: Seq<char>, pos: int, upto: int)
    ensures
        0 <= match_len_upto(s, pos, upto),
        match_len_upto(s, pos, upto) <= upto || match_len_upto(s, pos, upto) == 0,
        match_len_upto(s, pos, upto) >= 1 ==> classify(
            s.subrange(pos, pos + match_len_upto(s, pos, upto)),
        ) is Some,
        forall|l: int|
            match_len_upto(s, pos, upto) < l <= upto ==> classify(
                #[trigger] s.subrange(pos, pos + l),
            ) is None,
    decreases upto,
{
    if upto <= 0 {
    } else if classify(s.subrange(pos, pos + upto)) is Some {
    } else {
        lemma_match_len_upto(s, pos, upto - 1);
    }
}

/// Once one extension of a span that matched has failed, every further
/// extension fails as well: spans can only shrink back into the grammar,
/// by [`lemma_classify_shrink`], and the one exception (`:=`) is too short
/// to arise here.
pub proof fn lemma_none_beyond(s: Seq<char>, pos: int, end: int, l: int)
    requires
        0 <= pos,
        1 <= end,
        pos + end + 1 <= s.len(),
        classify(s.subrange(pos, pos + end + 1)) is None,
        end + 1 <= l,
        pos + l <= s.len(),
    ensures
        classify(s.subrange(pos, pos + l)) is None,
    decreases l,
{
    if l == end + 1 {
    } else {
        lemma_none_beyond(s, pos, end, l - 1);
        if classify(s.subrange(pos, pos + l)) is Some {
            crate::patterns::lemma_classify_shrink(s.subrange(pos, pos + l));
            assert(s.subrange(pos, pos + l).subrange(0, l - 1) =~= s.subrange(pos, pos + l - 1));
            assert(false);
        }
    }
}

/// A span that matches, whose one-character extension does not (or which
/// reaches the end of the input), is the maximal munch at its position.
pub proof fn lemma_max_munch_found(s: Seq<char>, pos: int, end: int)
    requires
        0 <= pos,
        1 <= end,
        pos + end <= s.len(),
        classify(s.subrange(pos, pos + end)) is Some,
        pos + end == s.len() || classify(s.subrange(pos, pos + end + 1)) is None,
    ensures
        max_munch(s, pos) == end,
{
    lemma_match_len_upto(s, pos, s.len() - pos);
    let m = max_munch(s, pos);
    if m > end {
        lemma_none_beyond(s, pos, end, m);
        assert(false);
    }
    if m < end {
        assert(classify(s.subrange(pos, pos + end)) is None);
        assert(false);
    }
}

/// When no span starting at `pos` matches at any length, the munch is
/// empty: scanning fails at `pos`.
pub proof fn lemma_max_munch_none(s: Seq<char>, pos: int)
    requires
        forall|l: int|
            1 <= l && pos + l <= s.len() ==> classify(#[trigger] s.subrange(pos, pos + l)) is None,
    ensures
        max_munch(s, pos) <= 0,
{
    lemma_match_len_upto(s, pos, s.len() - pos);
}

/// The result of scanning from `pos` to the end of `s`: the models of the
/// emitted tokens, or the position at which no token can start.
///
/// At each position the longest matching span becomes the next candidate;
/// whitespace candidates are dropped, every other candidate is emitted with
/// the class the pattern table gives its span.
pub open spec fn spec_scan_from(s: Seq<char>, pos: int) -> Result<Seq<TokenModel>, int>
    decreases s.len() - pos,
        via spec_scan_from_decreases
{
    if pos >= s.len() {
        Ok(Seq::empty())
    } else {
        let n = max_munch(s, pos);
        if n <= 0 {
            Err(pos)
        } else {
            match spec_scan_from(s, pos + n) {
                Ok(rest) => {
                    let span = s.subrange(pos, pos + n);
                    if classify(span) == Some(Class::Whitespace) {
                        Ok(rest)
                    } else {
                        Ok(seq![TokenModel { class: classify(span)->Some_0, lexeme: span }] + rest)
                    }
                },
                Err(p) => Err(p),
            }
        }
    }
}

#[via_fn]
proof fn spec_scan_from_decreases(s: Seq<char>, pos: int) {
    lemma_match_len_upto(s, pos, s.len() - pos);
}

/// The result of scanning the whole of `s`.
pub open spec fn spec_scan(s: Seq<char>) -> Result<Seq<TokenModel>, int> {
    spec_scan_from(s, 0)
}

/// The whitespace characters that delimit the offending run of a
/// diagnostic.
pub open spec fn is_ascii_whitespace_char(c: char) -> bool {
    c == ' ' || c == '\t' || c == '\n' || c == '\r' || c == '\x0c'
}

/// The end of the offending run that starts at `pos`: the first position at
/// or after `pos` that holds an ASCII whitespace character, or the end of
/// the input.
pub open spec fn run_end(s: Seq<char>, pos: int) -> int
    decreases s.len() - pos,
{
    if pos >= s.len() {
        s.len() as int
    } else if is_ascii_whitespace_char(s[pos]) {
        pos
    } else {
        run_end(s, pos + 1)
    }
}

/// The offending text reported for a failure at `pos`: the run of
/// non-whitespace characters that starts there.
pub open spec fn offending_text(s: Seq<char>, pos: int) -> Seq<char> {
    s.subrange(pos, run_end(s, pos))
}

/// How many newline characters stand strictly before position `upto`.
pub open spec fn newline_count(s: Seq<char>, upto: int) -> int
    decreases upto,
{
    if upto <= 0 {
        0
    } else {
        newline_count(s, upto - 1) + if s[upto - 1] == '\n' {
            1int
        } else {
            0int
        }
    }
}

/// The 1-based line number of position `pos`: one more than the number of
/// newlines strictly before it.
pub open spec fn line_of(s: Seq<char>, pos: int) -> int {
    newline_count(s, pos) + 1
}

} // verus!
