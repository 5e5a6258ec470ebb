//! The pattern table: the lexical grammar of the language, as spec-level
//! recognizers over character sequences, and their executable counterparts.
//!
//! Priority between patterns is encoded by the order of the tests in
//! [`classify`]: whitespace, then each reserved keyword, then the identifier
//! grammar, then the operator and punctuation symbols, then integer
//! literals. A span that satisfies several recognizers gets the class of the
//! earliest test that accepts it; in particular a keyword, which is also a
//! well-formed identifier, is classified as that keyword.
//!
//! Classification is case-insensitive (each character is folded to lower
//! case before it is compared), but only for the matching decision: the
//! lexeme a token carries keeps the original characters.

use vstd::prelude::*;

use crate::tokens::Class;

verus! {

/// ASCII case folding of one character.
pub open spec fn lower(c: char) -> char {
    if 'A' <= c && c <= 'Z' {
        ((c as u32) + 32) as char
    } else {
        c
    }
}

/// The whitespace characters of the grammar (the ASCII whitespace escapes,
/// including vertical tab).
pub open spec fn is_pattern_whitespace(c: char) -> bool {
    c == ' ' || c == '\t' || c == '\n' || c == '\r' || c == '\x0b' || c == '\x0c'
}

pub open spec fn is_letter(c: char) -> bool {
    ('a' <= c && c <= 'z') || ('A' <= c && c <= 'Z')
}

pub open spec fn is_digit(c: char) -> bool {
    '0' <= c && c <= '9'
}

pub open spec fn is_ident_start(c: char) -> bool {
    is_letter(c) || c == '_'
}

pub open spec fn is_ident_char(c: char) -> bool {
    is_letter(c) || c == '_' || is_digit(c)
}

/// A span matches a keyword when it has the keyword's length and each of
/// its characters folds to the keyword's character at the same position.
pub open spec fn matches_keyword(s: Seq<char>, kw: Seq<char>) -> bool {
    s.len() == kw.len() && (forall|i: int| 0 <= i < s.len() ==> lower(#[trigger] s[i]) == kw[i])
}

pub open spec fn kw_begin() -> Seq<char> {
    seq!['b', 'e', 'g', 'i', 'n']
}

pub open spec fn kw_end() -> Seq<char> {
    seq!['e', 'n', 'd']
}

pub open spec fn kw_call() -> Seq<char> {
    seq!['c', 'a', 'l', 'l']
}

pub open spec fn kw_do() -> Seq<char> {
    seq!['d', 'o']
}

pub open spec fn kw_while() -> Seq<char> {
    seq!['w', 'h', 'i', 'l', 'e']
}

pub open spec fn kw_if() -> Seq<char> {
    seq!['i', 'f']
}

pub open spec fn kw_then() -> Seq<char> {
    seq!['t', 'h', 'e', 'n']
}

pub open spec fn kw_odd() -> Seq<char> {
    seq!['o', 'd', 'd']
}

pub open spec fn kw_procedure() -> Seq<char> {
    seq!['p', 'r', 'o', 'c', 'e', 'd', 'u', 'r', 'e']
}

pub open spec fn kw_const() -> Seq<char> {
    seq!['c', 'o', 'n', 's', 't']
}

pub open spec fn kw_var() -> Seq<char> {
    seq!['v', 'a', 'r']
}

pub open spec fn kw_read() -> Seq<char> {
    seq!['r', 'e', 'a', 'd']
}

pub open spec fn kw_write() -> Seq<char> {
    seq!['w', 'r', 'i', 't', 'e']
}

/// The keyword entries of the pattern table, in their priority order.
pub open spec fn keyword_class(s: Seq<char>) -> Option<Class> {
    if matches_keyword(s, kw_begin()) {
        Some(Class::Begin)
    } else if matches_keyword(s, kw_end()) {
        Some(Class::End)
    } else if matches_keyword(s, kw_call()) {
        Some(Class::Call)
    } else if matches_keyword(s, kw_do()) {
        Some(Class::Do)
    } else if matches_keyword(s, kw_while()) {
        Some(Class::While)
    } else if matches_keyword(s, kw_if()) {
        Some(Class::If)
    } else if matches_keyword(s, kw_then()) {
        Some(Class::Then)
    } else if matches_keyword(s, kw_odd()) {
        Some(Class::Odd)
    } else if matches_keyword(s, kw_procedure()) {
        Some(Class::Procedure)
    } else if matches_keyword(s, kw_const()) {
        Some(Class::Const)
    } else if matches_keyword(s, kw_var()) {
        Some(Class::Var)
    } else if matches_keyword(s, kw_read()) {
        Some(Class::Read)
    } else if matches_keyword(s, kw_write()) {
        Some(Class::Write)
    } else {
        None
    }
}

/// The identifier grammar: a letter or underscore followed by letters,
/// underscores and digits.
pub open spec fn is_ident(s: Seq<char>) -> bool {
    &&& s.len() >= 1
    &&& is_ident_start(s[0])
    &&& forall|i: int| 1 <= i < s.len() ==> is_ident_char(#[trigger] s[i])
}

/// The integer-literal grammar: one or more ASCII digits, no sign.
pub open spec fn is_number(s: Seq<char>) -> bool {
    s.len() >= 1 && (forall|i: int| 0 <= i < s.len() ==> is_digit(#[trigger] s[i]))
}

/// The operator and punctuation entries of the pattern table. Their
/// lexemes are pairwise distinct, so order among them carries no weight.
pub open spec fn operator_class(s: Seq<char>) -> Option<Class> {
    if s.len() == 1 {
        if s[0] == '+' {
            Some(Class::Plus)
        } else if s[0] == '-' {
            Some(Class::Minus)
        } else if s[0] == '*' {
            Some(Class::Times)
        } else if s[0] == '/' {
            Some(Class::Slash)
        } else if s[0] == '=' {
            Some(Class::Equal)
        } else if s[0] == '<' {
            Some(Class::Lss)
        } else if s[0] == '>' {
            Some(Class::Gtr)
        } else if s[0] == '(' {
            Some(Class::Lparen)
        } else if s[0] == ')' {
            Some(Class::Rparen)
        } else if s[0] == ',' {
            Some(Class::Comma)
        } else if s[0] == ';' {
            Some(Class::Semicolon)
        } else if s[0] == '.' {
            Some(Class::Period)
        } else {
            None
        }
    } else if s.len() == 2 {
        if s[0] == '<' && s[1] == '>' {
            Some(Class::Neq)
        } else if s[0] == '<' && s[1] == '=' {
            Some(Class::Leq)
        } else if s[0] == '>' && s[1] == '=' {
            Some(Class::Geq)
        } else if s[0] == ':' && s[1] == '=' {
            Some(Class::Becomes)
        } else {
            None
        }
    } else {
        None
    }
}

/// The whole pattern table: the class of a span, decided by the earliest
/// entry that accepts it, or `None` when no entry does.
pub open spec fn classify(s: Seq<char>) -> Option<Class> {
    if s.len() == 1 && is_pattern_whitespace(s[0]) {
        Some(Class::Whitespace)
    } else if keyword_class(s) is Some {
        keyword_class(s)
    } else if is_ident(s) {
        Some(Class::Identifies)
    } else if operator_class(s) is Some {
        operator_class(s)
    } else if is_number(s) {
        Some(Class::Number)
    } else {
        None
    }
}

/// A span that case-folds to a word of lower-case letters is a well-formed
/// identifier.
proof fn lemma_lower_word_is_ident(t: Seq<char>, kw: Seq<char>)
    requires
        matches_keyword(t, kw),
        kw.len() >= 1,
        forall|i: int| 0 <= i < kw.len() ==> 'a' <= #[trigger] kw[i] && kw[i] <= 'z',
    ensures
        is_ident(t),
{
    assert(lower(t[0]) == kw[0]);
    assert forall|j: int| 1 <= j < t.len() implies is_ident_char(#[trigger] t[j]) by {
        assert(lower(t[j]) == kw[j]);
        assert('a' <= kw[j] && kw[j] <= 'z');
    }
}

/// Every keyword lexeme is also a well-formed identifier (of at least two
/// characters); the pattern table resolves that overlap by priority.
pub proof fn lemma_keyword_is_ident(t: Seq<char>)
    requires
        keyword_class(t) is Some,
    ensures
        is_ident(t),
        t.len() >= 2,
{
    if matches_keyword(t, kw_begin()) {
        lemma_lower_word_is_ident(t, kw_begin());
    } else if matches_keyword(t, kw_end()) {
        lemma_lower_word_is_ident(t, kw_end());
    } else if matches_keyword(t, kw_call()) {
        lemma_lower_word_is_ident(t, kw_call());
    } else if matches_keyword(t, kw_do()) {
        lemma_lower_word_is_ident(t, kw_do());
    } else if matches_keyword(t, kw_while()) {
        lemma_lower_word_is_ident(t, kw_while());
    } else if matches_keyword(t, kw_if()) {
        lemma_lower_word_is_ident(t, kw_if());
    } else if matches_keyword(t, kw_then()) {
        lemma_lower_word_is_ident(t, kw_then());
    } else if matches_keyword(t, kw_odd()) {
        lemma_lower_word_is_ident(t, kw_odd());
    } else if matches_keyword(t, kw_procedure()) {
        lemma_lower_word_is_ident(t, kw_procedure());
    } else if matches_keyword(t, kw_const()) {
        lemma_lower_word_is_ident(t, kw_const());
    } else if matches_keyword(t, kw_var()) {
        lemma_lower_word_is_ident(t, kw_var());
    } else if matches_keyword(t, kw_read()) {
        lemma_lower_word_is_ident(t, kw_read());
    } else {
        lemma_lower_word_is_ident(t, kw_write());
    }
}

/// Dropping the last character of a matching span of two or more characters
/// leaves a matching span — except for `:=`, whose one-character prefix `:`
/// is no token. This is what lets the scanner stop growing a candidate at
/// the first failing extension without missing a longer match.
pub proof fn lemma_classify_shrink(t: Seq<char>)
    requires
        t.len() >= 2,
        classify(t) is Some,
        !(t.len() == 2 && t[0] == ':'),
    ensures
        classify(t.subrange(0, t.len() - 1)) is Some,
{
    let u = t.subrange(0, t.len() - 1);
    assert(u[0] == t[0]);
    if keyword_class(t) is Some {
        lemma_keyword_is_ident(t);
        assert forall|j: int| 1 <= j < u.len() implies is_ident_char(#[trigger] u[j]) by {
            assert(u[j] == t[j]);
        }
        assert(is_ident(u));
    } else if is_ident(t) {
        assert forall|j: int| 1 <= j < u.len() implies is_ident_char(#[trigger] u[j]) by {
            assert(u[j] == t[j]);
        }
        assert(is_ident(u));
    } else if operator_class(t) is Some {
        assert(t.len() == 2);
        assert(t[0] == '<' || t[0] == '>');
        assert(operator_class(u) is Some);
    } else {
        assert(is_number(t));
        assert forall|j: int| 0 <= j < u.len() implies is_digit(#[trigger] u[j]) by {
            assert(u[j] == t[j]);
        }
        assert(is_number(u));
    }
}

/// Case folding of one character, executable form.
fn lower_char(c: char) -> (r: char)
    ensures
        r == lower(c),
{
    if 'A' <= c && c <= 'Z' {
        ((c as u8) + 32) as char
    } else {
        c
    }
}

pub(crate) fn is_pattern_whitespace_exec(c: char) -> (r: bool)
    ensures
        r == is_pattern_whitespace(c),
{
    c == ' ' || c == '\t' || c == '\n' || c == '\r' || c == '\x0b' || c == '\x0c'
}

pub(crate) fn is_ident_start_exec(c: char) -> (r: bool)
    ensures
        r == is_ident_start(c),
{
    ('a' <= c && c <= 'z') || ('A' <= c && c <= 'Z') || c == '_'
}

pub(crate) fn is_ident_char_exec(c: char) -> (r: bool)
    ensures
        r == is_ident_char(c),
{
    ('a' <= c && c <= 'z') || ('A' <= c && c <= 'Z') || c == '_' || ('0' <= c && c <= '9')
}

pub(crate) fn is_digit_exec(c: char) -> (r: bool)
    ensures
        r == is_digit(c),
{
    '0' <= c && c <= '9'
}

/// Whether the span `[beg, end)` of `chars` case-folds to the two given
/// characters.
fn is_kw2(chars: &Vec<char>, beg: usize, end: usize, k0: char, k1: char) -> (r: bool)
    requires
        beg <= end <= chars.len(),
    ensures
        r == matches_keyword(chars@.subrange(beg as int, end as int), seq![k0, k1]),
{
    let ghost s = chars@.subrange(beg as int, end as int);
    if end - beg != 2 {
        return false;
    }
    let r = lower_char(chars[beg]) == k0 && lower_char(chars[beg + 1]) == k1;
    proof {
        assert(s[0] == chars@[beg as int]);
        assert(s[1] == chars@[beg as int + 1]);
    }
    r
}

/// Whether the span `[beg, end)` of `chars` case-folds to the three given
/// characters.
fn is_kw3(chars: &Vec<char>, beg: usize, end: usize, k0: char, k1: char, k2: char) -> (r: bool)
    requires
        beg <= end <= chars.len(),
    ensures
        r == matches_keyword(chars@.subrange(beg as int, end as int), seq![k0, k1, k2]),
{
    let ghost s = chars@.subrange(beg as int, end as int);
    if end - beg != 3 {
        return false;
    }
    let r = lower_char(chars[beg]) == k0 && lower_char(chars[beg + 1]) == k1 && lower_char(
        chars[beg + 2],
    ) == k2;
    proof {
        assert(s[0] == chars@[beg as int]);
        assert(s[1] == chars@[beg as int + 1]);
        assert(s[2] == chars@[beg as int + 2]);
    }
    r
}

/// Whether the span `[beg, end)` of `chars` case-folds to the four given
/// characters.
fn is_kw4(
    chars: &Vec<char>,
    beg: usize,
    end: usize,
    k0: char,
    k1: char,
    k2: char,
    k3: char,
) -> (r: bool)
    requires
        beg <= end <= chars.len(),
    ensures
        r == matches_keyword(chars@.subrange(beg as int, end as int), seq![k0, k1, k2, k3]),
{
    let ghost s = chars@.subrange(beg as int, end as int);
    if end - beg != 4 {
        return false;
    }
    let r = lower_char(chars[beg]) == k0 && lower_char(chars[beg + 1]) == k1 && lower_char(
        chars[beg + 2],
    ) == k2 && lower_char(chars[beg + 3]) == k3;
    proof {
        assert(s[0] == chars@[beg as int]);
        assert(s[1] == chars@[beg as int + 1]);
        assert(s[2] == chars@[beg as int + 2]);
        assert(s[3] == chars@[beg as int + 3]);
    }
    r
}

/// Whether the span `[beg, end)` of `chars` case-folds to the five given
/// characters.
fn is_kw5(
    chars: &Vec<char>,
    beg: usize,
    end: usize,
    k0: char,
    k1: char,
    k2: char,
    k3: char,
    k4: char,
) -> (r: bool)
    requires
        beg <= end <= chars.len(),
    ensures
        r == matches_keyword(chars@.subrange(beg as int, end as int), seq![k0, k1, k2, k3, k4]),
{
    let ghost s = chars@.subrange(beg as int, end as int);
    if end - beg != 5 {
        return false;
    }
    let r = lower_char(chars[beg]) == k0 && lower_char(chars[beg + 1]) == k1 && lower_char(
        chars[beg + 2],
    ) == k2 && lower_char(chars[beg + 3]) == k3 && lower_char(chars[beg + 4]) == k4;
    proof {
        assert(s[0] == chars@[beg as int]);
        assert(s[1] == chars@[beg as int + 1]);
        assert(s[2] == chars@[beg as int + 2]);
        assert(s[3] == chars@[beg as int + 3]);
        assert(s[4] == chars@[beg as int + 4]);
    }
    r
}

/// Whether the span `[beg, end)` of `chars` case-folds to `procedure`, the
/// one nine-character keyword.
fn is_kw_procedure(chars: &Vec<char>, beg: usize, end: usize) -> (r: bool)
    requires
        beg <= end <= chars.len(),
    ensures
        r == matches_keyword(chars@.subrange(beg as int, end as int), kw_procedure()),
{
    let ghost s = chars@.subrange(beg as int, end as int);
    if end - beg != 9 {
        return false;
    }
    let r = lower_char(chars[beg]) == 'p' && lower_char(chars[beg + 1]) == 'r' && lower_char(
        chars[beg + 2],
    ) == 'o' && lower_char(chars[beg + 3]) == 'c' && lower_char(chars[beg + 4]) == 'e'
        && lower_char(chars[beg + 5]) == 'd' && lower_char(chars[beg + 6]) == 'u' && lower_char(
        chars[beg + 7],
    ) == 'r' && lower_char(chars[beg + 8]) == 'e';
    proof {
        assert(s[0] == chars@[beg as int]);
        assert(s[1] == chars@[beg as int + 1]);
        assert(s[2] == chars@[beg as int + 2]);
        assert(s[3] == chars@[beg as int + 3]);
        assert(s[4] == chars@[beg as int + 4]);
        assert(s[5] == chars@[beg as int + 5]);
        assert(s[6] == chars@[beg as int + 6]);
        assert(s[7] == chars@[beg as int + 7]);
        assert(s[8] == chars@[beg as int + 8]);
    }
    r
}

/// The keyword entries, executable form: the keyword class of the span
/// `[beg, end)` of `chars`, or `None` when it is no keyword.
pub(crate) fn keyword_class_span(chars: &Vec<char>, beg: usize, end: usize) -> (r: Option<Class>)
    requires
        beg <= end <= chars.len(),
    ensures
        r == keyword_class(chars@.subrange(beg as int, end as int)),
{
    let len = end - beg;
    if len == 2 {
        if is_kw2(chars, beg, end, 'd', 'o') {
            Some(Class::Do)
        } else if is_kw2(chars, beg, end, 'i', 'f') {
            Some(Class::If)
        } else {
            None
        }
    } else if len == 3 {
        if is_kw3(chars, beg, end, 'e', 'n', 'd') {
            Some(Class::End)
        } else if is_kw3(chars, beg, end, 'o', 'd', 'd') {
            Some(Class::Odd)
        } else if is_kw3(chars, beg, end, 'v', 'a', 'r') {
            Some(Class::Var)
        } else {
            None
        }
    } else if len == 4 {
        if is_kw4(chars, beg, end, 'c', 'a', 'l', 'l') {
            Some(Class::Call)
        } else if is_kw4(chars, beg, end, 't', 'h', 'e', 'n') {
            Some(Class::Then)
        } else if is_kw4(chars, beg, end, 'r', 'e', 'a', 'd') {
            Some(Class::Read)
        } else {
            None
        }
    } else if len == 5 {
        if is_kw5(chars, beg, end, 'b', 'e', 'g', 'i', 'n') {
            Some(Class::Begin)
        } else if is_kw5(chars, beg, end, 'w', 'h', 'i', 'l', 'e') {
            Some(Class::While)
        } else if is_kw5(chars, beg, end, 'c', 'o', 'n', 's', 't') {
            Some(Class::Const)
        } else if is_kw5(chars, beg, end, 'w', 'r', 'i', 't', 'e') {
            Some(Class::Write)
        } else {
            None
        }
    } else if len == 9 {
        if is_kw_procedure(chars, beg, end) {
            Some(Class::Procedure)
        } else {
            None
        }
    } else {
        None
    }
}

/// The identifier grammar, executable form.
pub(crate) fn is_ident_span(chars: &Vec<char>, beg: usize, end: usize) -> (r: bool)
    requires
        beg <= end <= chars.len(),
    ensures
        r == is_ident(chars@.subrange(beg as int, end as int)),
{
    let ghost s = chars@.subrange(beg as int, end as int);
    if end == beg {
        return false;
    }
    proof {
        assert(s[0] == chars@[beg as int]);
    }
    if !is_ident_start_exec(chars[beg]) {
        return false;
    }
    let mut i: usize = beg + 1;
    while i < end
        invariant
            beg + 1 <= i <= end,
            end <= chars.len(),
            s == chars@.subrange(beg as int, end as int),
            forall|j: int| 1 <= j < i - beg ==> is_ident_char(#[trigger] s[j]),
        decreases end - i,
    {
        proof {
            assert(s[i - beg] == chars@[i as int]);
        }
        if !is_ident_char_exec(chars[i]) {
            return false;
        }
        i += 1;
    }
    true
}

/// The integer-literal grammar, executable form.
pub(crate) fn is_number_span(chars: &Vec<char>, beg: usize, end: usize) -> (r: bool)
    requires
        beg <= end <= chars.len(),
    ensures
        r == is_number(chars@.subrange(beg as int, end as int)),
{
    let ghost s = chars@.subrange(beg as int, end as int);
    if end == beg {
        return false;
    }
    let mut i: usize = beg;
    while i < end
        invariant
            beg <= i <= end,
            end <= chars.len(),
            s == chars@.subrange(beg as int, end as int),
            forall|j: int| 0 <= j < i - beg ==> is_digit(#[trigger] s[j]),
        decreases end - i,
    {
        proof {
            assert(s[i - beg] == chars@[i as int]);
        }
        if !is_digit_exec(chars[i]) {
            return false;
        }
        i += 1;
    }
    true
}

/// The operator and punctuation entries, executable form.
pub(crate) fn operator_class_span(chars: &Vec<char>, beg: usize, end: usize) -> (r: Option<Class>)
    requires
        beg <= end <= chars.len(),
    ensures
        r == operator_class(chars@.subrange(beg as int, end as int)),
{
    let ghost s = chars@.subrange(beg as int, end as int);
    let len = end - beg;
    if len == 1 {
        proof {
            assert(s[0] == chars@[beg as int]);
        }
        let c = chars[beg];
        if c == '+' {
            Some(Class::Plus)
        } else if c == '-' {
            Some(Class::Minus)
        } else if c == '*' {
            Some(Class::Times)
        } else if c == '/' {
            Some(Class::Slash)
        } else if c == '=' {
            Some(Class::Equal)
        } else if c == '<' {
            Some(Class::Lss)
        } else if c == '>' {
            Some(Class::Gtr)
        } else if c == '(' {
            Some(Class::Lparen)
        } else if c == ')' {
            Some(Class::Rparen)
        } else if c == ',' {
            Some(Class::Comma)
        } else if c == ';' {
            Some(Class::Semicolon)
        } else if c == '.' {
            Some(Class::Period)
        } else {
            None
        }
    } else if len == 2 {
        proof {
            assert(s[0] == chars@[beg as int]);
            assert(s[1] == chars@[beg as int + 1]);
        }
        let c0 = chars[beg];
        let c1 = chars[beg + 1];
        if c0 == '<' && c1 == '>' {
            Some(Class::Neq)
        } else if c0 == '<' && c1 == '=' {
            Some(Class::Leq)
        } else if c0 == '>' && c1 == '=' {
            Some(Class::Geq)
        } else if c0 == ':' && c1 == '=' {
            Some(Class::Becomes)
        } else {
            None
        }
    } else {
        None
    }
}

/// The whole pattern table, executable form: the class of the span
/// `[beg, end)` of `chars` under the priority order, or `None` when no
/// entry accepts it.
pub(crate) fn classify_span(chars: &Vec<char>, beg: usize, end: usize) -> (r: Option<Class>)
    requires
        beg <= end <= chars.len(),
    ensures
        r == classify(chars@.subrange(beg as int, end as int)),
{
    let ghost s = chars@.subrange(beg as int, end as int);
    if end - beg == 1 {
        proof {
            assert(s[0] == chars@[beg as int]);
        }
        if is_pattern_whitespace_exec(chars[beg]) {
            return Some(Class::Whitespace);
        }
    }
    match keyword_class_span(chars, beg, end) {
        Some(k) => {
            return Some(k);
        },
        None => {},
    }
    if is_ident_span(chars, beg, end) {
        return Some(Class::Identifies);
    }
    match operator_class_span(chars, beg, end) {
        Some(k) => {
            return Some(k);
        },
        None => {},
    }
    if is_number_span(chars, beg, end) {
        return Some(Class::Number);
    }
    None
}

} // verus!
