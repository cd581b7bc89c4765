//! The lexer: a sentence's characters to J words (tokens) with their spans.
//!
//! Numbers (`3`, `_3` for negative three, `3.14`, `3j4`, `_` for infinity),
//! quoted strings, names, primitive verbs (`+ - * % | # $ < > <: >: = ~: i.`),
//! the adverb `/`, the conjunctions `.` and `t.`, parentheses, `=:` and
//! `n!:m` (foreign).  `NB.` starts a comment that runs to the end of the
//! line.  Float and complex literals are kept as the text of their numerals.
use vstd::prelude::*;
use crate::error::{Span, JError, JErrorKind, JErrorView, JResult, err_view, newline_from,
    newline_from_bounds, find_newline};
use crate::text::{chars_of, string_from_chars, string_of, str_eq};

verus! {

broadcast use vstd::string::group_string_axioms;

// ───────────────────────── characters ─────────────────────────

pub open spec fn is_digit(c: char) -> bool {
    '0' <= c && c <= '9'
}

pub open spec fn is_ascii_letter(c: char) -> bool {
    ('a' <= c && c <= 'z') || ('A' <= c && c <= 'Z')
}

/// What `char::is_alphanumeric` returns (Unicode Alphabetic or Numeric).
pub uninterp spec fn unicode_alphanumeric(c: char) -> bool;

/// What `char::is_alphabetic` returns (Unicode Alphabetic).
pub uninterp spec fn unicode_alphabetic(c: char) -> bool;

/// Calls `char::is_alphanumeric`.  The contract names its result and
/// states what std documents for ASCII: exactly the letters and digits.
#[verifier::external_body]
fn char_is_alphanumeric(c: char) -> (r: bool)
    ensures
        r == unicode_alphanumeric(c),
        c <= '\u{7f}' ==> (r <==> (is_ascii_letter(c) || is_digit(c))),
{
    c.is_alphanumeric()
}

/// Calls `char::is_alphabetic`.  The contract names its result and states
/// what std documents for ASCII: exactly the letters.
#[verifier::external_body]
fn char_is_alphabetic(c: char) -> (r: bool)
    ensures
        r == unicode_alphabetic(c),
        c <= '\u{7f}' ==> (r <==> is_ascii_letter(c)),
{
    c.is_alphabetic()
}

/// A letter or digit, as `char::is_alphanumeric` says: on ASCII the
/// letters and digits, elsewhere the Unicode classes.
pub open spec fn alphanumeric(c: char) -> bool {
    if c <= '\u{7f}' { is_ascii_letter(c) || is_digit(c) } else { unicode_alphanumeric(c) }
}

/// A letter, as `char::is_alphabetic` says: on ASCII the letters, elsewhere
/// the Unicode class.
pub open spec fn alphabetic(c: char) -> bool {
    if c <= '\u{7f}' { is_ascii_letter(c) } else { unicode_alphabetic(c) }
}

/// A character that may continue a name.
pub open spec fn is_word_char(c: char) -> bool {
    alphanumeric(c) || c == '_'
}

/// The number of bytes of a character in UTF-8 (`char::len_utf8`).
pub open spec fn char_width(c: char) -> nat {
    let v = c as u32;
    if v <= 0x7F {
        1
    } else if v <= 0x7FF {
        2
    } else if v <= 0xFFFF {
        3
    } else {
        4
    }
}

fn width_of(c: char) -> (r: usize)
    ensures
        r == char_width(c),
{
    let v = c as u32;
    if v <= 0x7F {
        1
    } else if v <= 0x7FF {
        2
    } else if v <= 0xFFFF {
        3
    } else {
        4
    }
}

/// The number of bytes of a text in UTF-8.
pub open spec fn byte_len(s: Seq<char>) -> nat
    decreases s.len(),
{
    if s.len() == 0 {
        0
    } else {
        char_width(s[0]) + byte_len(s.drop_first())
    }
}

/// The UTF-8 encoding of a text is `byte_len` bytes long.
pub proof fn lemma_byte_len_utf8(s: Seq<char>)
    ensures
        vstd::utf8::encode_utf8(s).len() == byte_len(s),
    decreases s.len(),
{
    if s.len() > 0 {
        vstd::utf8::char_is_scalar(s[0]);
        lemma_byte_len_utf8(s.drop_first());
    }
}

// ───────────────────────── positions ─────────────────────────

/// The byte offset of character `i`.
pub open spec fn pos_at(cs: Seq<char>, i: int) -> nat
    decreases i,
{
    if i <= 0 { 0 } else { pos_at(cs, i - 1) + char_width(cs[i - 1]) }
}

/// The line (from 1) of character `i`.
pub open spec fn line_at(cs: Seq<char>, i: int) -> nat
    decreases i,
{
    if i <= 0 {
        1
    } else if cs[i - 1] == '\n' {
        line_at(cs, i - 1) + 1
    } else {
        line_at(cs, i - 1)
    }
}

/// The column (from 1, counted in bytes) of character `i`.
pub open spec fn col_at(cs: Seq<char>, i: int) -> nat
    decreases i,
{
    if i <= 0 {
        1
    } else if cs[i - 1] == '\n' {
        1
    } else {
        col_at(cs, i - 1) + char_width(cs[i - 1])
    }
}

/// The span of characters `s .. e`.
pub open spec fn span_of(cs: Seq<char>, s: int, e: int) -> Span {
    Span {
        start: pos_at(cs, s) as usize,
        end: pos_at(cs, e) as usize,
        line: line_at(cs, s) as usize,
        col: col_at(cs, s) as usize,
    }
}

proof fn lemma_positions(cs: Seq<char>, i: int)
    requires
        0 <= i <= cs.len(),
    ensures
        pos_at(cs, i) + byte_len(cs.subrange(i, cs.len() as int)) == byte_len(cs),
        line_at(cs, i) <= i + 1,
        col_at(cs, i) <= pos_at(cs, i) + 1,
        i <= pos_at(cs, i),
        line_at(cs, i) >= 1,
        col_at(cs, i) >= 1,
    decreases i,
{
    if i == 0 {
        assert(cs.subrange(0, cs.len() as int) =~= cs);
    } else {
        lemma_positions(cs, i - 1);
        assert(cs.subrange(i - 1, cs.len() as int).drop_first() =~= cs.subrange(i, cs.len() as int));
    }
}

proof fn lemma_pos_mono(cs: Seq<char>, i: int, j: int)
    requires
        0 <= i <= j,
    ensures
        pos_at(cs, i) <= pos_at(cs, j),
    decreases j - i,
{
    if i < j {
        lemma_pos_mono(cs, i, j - 1);
    }
}

/// The position, line and column after advancing from character `from` to
/// character `to`.
fn advance(cs: &Vec<char>, from: usize, to: usize, pos: usize, line: usize, col: usize) -> (r: (usize, usize, usize))
    requires
        from <= to <= cs@.len(),
        byte_len(cs@) < usize::MAX,
        pos == pos_at(cs@, from as int),
        line == line_at(cs@, from as int),
        col == col_at(cs@, from as int),
    ensures
        r.0 == pos_at(cs@, to as int),
        r.1 == line_at(cs@, to as int),
        r.2 == col_at(cs@, to as int),
{
    let mut k = from;
    let mut p = pos;
    let mut l = line;
    let mut c = col;
    while k < to
        invariant
            from <= k <= to <= cs@.len(),
            byte_len(cs@) < usize::MAX,
            p == pos_at(cs@, k as int),
            l == line_at(cs@, k as int),
            c == col_at(cs@, k as int),
        decreases to - k,
    {
        proof {
            lemma_positions(cs@, k as int + 1);
            lemma_positions(cs@, cs@.len() as int);
            lemma_pos_mono(cs@, k as int + 1, cs@.len() as int);
        }
        let ch = cs[k];
        let w = width_of(ch);
        p = p + w;
        if ch == '\n' {
            l = l + 1;
            c = 1;
        } else {
            c = c + w;
        }
        k += 1;
    }
    (p, l, c)
}

// ───────────────────────── tokens ─────────────────────────

/// The kind of a J word.
#[derive(Debug, PartialEq)]
pub enum TokenKind {
    /// An integer: `3`, `_3`.
    Number(i64),
    /// A float numeral, as text that `f64::from_str` reads: `3.14`, `inf`.
    Float(String),
    /// A complex numeral `3j4`: the texts of its real and imaginary parts
    /// (an empty imaginary text stands for zero).
    Complex(String, String),
    /// A string: `'hello'`.
    Str(String),
    Name(String),
    Verb(String),
    Adverb(String),
    Conjunction(String),
    LParen,
    RParen,
    /// `=:`
    Assign,
    /// `n!:m`, e.g. `236!:32`.
    Foreign(u32, u32),
}

/// A word and its place in the source.
#[derive(Debug, PartialEq)]
pub struct Token {
    pub kind: TokenKind,
    pub span: Span,
}

/// What a word's kind holds, its texts as characters.
pub enum KindView {
    Number(i64),
    Float(Seq<char>),
    Complex(Seq<char>, Seq<char>),
    Str(Seq<char>),
    Name(Seq<char>),
    Verb(Seq<char>),
    Adverb(Seq<char>),
    Conjunction(Seq<char>),
    LParen,
    RParen,
    Assign,
    Foreign(u32, u32),
}

pub struct TokenView {
    pub kind: KindView,
    pub span: Span,
}

impl View for TokenKind {
    type V = KindView;

    open spec fn view(&self) -> KindView {
        match self {
            TokenKind::Number(n) => KindView::Number(*n),
            TokenKind::Float(s) => KindView::Float(s@),
            TokenKind::Complex(r, i) => KindView::Complex(r@, i@),
            TokenKind::Str(s) => KindView::Str(s@),
            TokenKind::Name(s) => KindView::Name(s@),
            TokenKind::Verb(s) => KindView::Verb(s@),
            TokenKind::Adverb(s) => KindView::Adverb(s@),
            TokenKind::Conjunction(s) => KindView::Conjunction(s@),
            TokenKind::LParen => KindView::LParen,
            TokenKind::RParen => KindView::RParen,
            TokenKind::Assign => KindView::Assign,
            TokenKind::Foreign(n, m) => KindView::Foreign(*n, *m),
        }
    }
}

impl View for Token {
    type V = TokenView;

    open spec fn view(&self) -> TokenView {
        TokenView { kind: self.kind@, span: self.span }
    }
}

/// The views of a list of tokens.
pub open spec fn token_views(ts: Seq<Token>) -> Seq<TokenView> {
    ts.map_values(|t: Token| t@)
}

impl Token {
    pub fn new(kind: TokenKind, span: Span) -> (t: Token)
        ensures
            t@ == (TokenView { kind: kind@, span }),
    {
        Token { kind, span }
    }

    /// A copy of this token.
    pub fn duplicate(&self) -> (t: Token)
        ensures
            t@ == self@,
    {
        let kind = match &self.kind {
            TokenKind::Number(n) => TokenKind::Number(*n),
            TokenKind::Float(s) => TokenKind::Float(s.clone()),
            TokenKind::Complex(r, i) => TokenKind::Complex(r.clone(), i.clone()),
            TokenKind::Str(s) => TokenKind::Str(s.clone()),
            TokenKind::Name(s) => TokenKind::Name(s.clone()),
            TokenKind::Verb(s) => TokenKind::Verb(s.clone()),
            TokenKind::Adverb(s) => TokenKind::Adverb(s.clone()),
            TokenKind::Conjunction(s) => TokenKind::Conjunction(s.clone()),
            TokenKind::LParen => TokenKind::LParen,
            TokenKind::RParen => TokenKind::RParen,
            TokenKind::Assign => TokenKind::Assign,
            TokenKind::Foreign(n, m) => TokenKind::Foreign(*n, *m),
        };
        Token { kind, span: self.span }
    }
}


// ───────────────────────── the scanner, as a specification ─────────────────────────

/// The index of the first character at or after `k` that is not a digit.
pub open spec fn digits_end(cs: Seq<char>, k: int) -> int
    decreases cs.len() - k,
{
    if 0 <= k < cs.len() && is_digit(cs[k]) { digits_end(cs, k + 1) } else { k }
}

/// The index of the first character at or after `k` that is neither a digit
/// nor `.`.
pub open spec fn digdot_end(cs: Seq<char>, k: int) -> int
    decreases cs.len() - k,
{
    if 0 <= k < cs.len() && (is_digit(cs[k]) || cs[k] == '.') { digdot_end(cs, k + 1) } else { k }
}

/// The index of the first character at or after `k` that cannot continue a
/// name.
pub open spec fn word_end(cs: Seq<char>, k: int) -> int
    decreases cs.len() - k,
{
    if 0 <= k < cs.len() && is_word_char(cs[k]) { word_end(cs, k + 1) } else { k }
}

/// The value of a run of decimal digits.
pub open spec fn digits_value(s: Seq<char>) -> nat
    decreases s.len(),
{
    if s.len() == 0 {
        0
    } else {
        digits_value(s.drop_last()) * 10 + ((s.last() as int - '0' as int) as nat)
    }
}

/// How many times `c` occurs in `s`.
pub open spec fn count_of(s: Seq<char>, c: char) -> nat
    decreases s.len(),
{
    if s.len() == 0 {
        0
    } else {
        count_of(s.drop_last(), c) + (if s.last() == c { 1nat } else { 0nat })
    }
}

/// Whether `s` holds a digit.
pub open spec fn has_digit(s: Seq<char>) -> bool {
    exists|k: int| 0 <= k < s.len() && is_digit(#[trigger] s[k])
}

/// Whether a run of digits and dots, after an optional `-`, reads as a
/// decimal number: it has a digit and at most one dot (`1.5`, `.5`, `5.`,
/// `-2`; not `.`, `-`, `1.2.3`).
pub open spec fn decimal_ok(t: Seq<char>) -> bool {
    let body = if t.len() > 0 && t[0] == '-' { t.drop_first() } else { t };
    has_digit(body) && count_of(body, '.') <= 1
}

/// The sign of a numeral, as text.
pub open spec fn sign_text(neg: bool) -> Seq<char> {
    if neg { seq!['-'] } else { Seq::empty() }
}

/// What one step of the scanner does at character `i`: skip to an index, read
/// a word that ends at an index, or fail with a message over the characters
/// up to an index.
pub enum Scan {
    Skip(int),
    Word(KindView, int),
    Fail(Seq<char>, int),
}

/// A numeral whose digits start at `d0` (the word starts at `i`; `neg` when
/// it was written with `_`): an integer, a float `3.14` or a complex `3j4`.
pub open spec fn scan_numeral(cs: Seq<char>, d0: int, neg: bool) -> Scan {
    let n = cs.len() as int;
    let j = digits_end(cs, d0);
    let is_float = j < n && cs[j] == '.';
    let k = if is_float { digits_end(cs, j + 1) } else { j };
    let rtext = sign_text(neg) + cs.subrange(d0, k);
    if k < n && cs[k] == 'j' {
        let ineg = k + 1 < n && cs[k + 1] == '_';
        let m = if ineg { k + 2 } else { k + 1 };
        let e = digdot_end(cs, m);
        let imag = sign_text(ineg) + cs.subrange(m, e);
        if imag.len() == 0 || decimal_ok(imag) {
            Scan::Word(KindView::Complex(rtext, imag), e)
        } else if neg {
            Scan::Word(KindView::Complex(rtext, Seq::empty()), e)
        } else {
            Scan::Fail("invalid imaginary part"@, e)
        }
    } else if is_float {
        Scan::Word(KindView::Float(rtext), k)
    } else {
        let v = digits_value(cs.subrange(d0, j));
        if !neg && v <= i64::MAX {
            Scan::Word(KindView::Number(v as i64), j)
        } else if neg && v <= i64::MAX + 1 {
            Scan::Word(KindView::Number((0 - v) as i64), j)
        } else {
            Scan::Fail("invalid integer: "@ + rtext, j)
        }
    }
}

/// The body of a quoted string whose text starts at `k` (a doubled quote
/// stands for one quote), and the index just past its closing quote; `None`
/// when the text ends first.
pub open spec fn string_body(cs: Seq<char>, k: int) -> Option<(Seq<char>, int)>
    decreases cs.len() - k,
{
    if k < 0 || k >= cs.len() {
        None
    } else if cs[k] == '\'' {
        if k + 1 < cs.len() && cs[k + 1] == '\'' {
            match string_body(cs, k + 2) {
                Some((b, e)) => Some((seq!['\''] + b, e)),
                None => None,
            }
        } else {
            Some((Seq::empty(), k + 1))
        }
    } else {
        match string_body(cs, k + 1) {
            Some((b, e)) => Some((seq![cs[k]] + b, e)),
            None => None,
        }
    }
}

/// A word that starts with `_`: a negative numeral, a name, or infinity.
pub open spec fn scan_underscore(cs: Seq<char>, i: int) -> Scan {
    let n = cs.len() as int;
    if i + 1 < n && is_digit(cs[i + 1]) {
        scan_numeral(cs, i + 1, true)
    } else if i + 1 < n && (alphabetic(cs[i + 1]) || cs[i + 1] == '_') {
        let e = word_end(cs, i + 1);
        Scan::Word(KindView::Name(cs.subrange(i, e)), e)
    } else {
        Scan::Word(KindView::Float(seq!['i', 'n', 'f']), i + 1)
    }
}

/// A word that starts with a letter: a name, a primitive such as `i.`, the
/// conjunction `t.`, or the comment `NB.` (skipped to the end of the line).
pub open spec fn scan_letters(cs: Seq<char>, i: int) -> Scan {
    let n = cs.len() as int;
    let e = word_end(cs, i + 1);
    let word = cs.subrange(i, e);
    if e < n && cs[e] == '.' {
        if word == seq!['N', 'B'] {
            Scan::Skip(newline_from(cs, e + 1))
        } else if word == seq!['t'] {
            Scan::Word(KindView::Conjunction(seq!['t', '.']), e + 1)
        } else {
            Scan::Word(KindView::Verb(word.push('.')), e + 1)
        }
    } else {
        Scan::Word(KindView::Name(word), e)
    }
}


/// A primitive spelled with one character, with no inflection.
pub open spec fn single_verb(c: char) -> bool {
    c == '+' || c == '%' || c == '#' || c == '-' || c == '*' || c == '|' || c == '$' || c == ':'
}

/// One step of the scanner at character `i` (which exists).
pub open spec fn scan(cs: Seq<char>, i: int) -> Scan {
    let n = cs.len() as int;
    let c = cs[i];
    let colon = i + 1 < n && cs[i + 1] == ':';
    if c == ' ' || c == '\t' || c == '\r' || c == '\n' {
        Scan::Skip(i + 1)
    } else if is_digit(c) {
        scan_numeral(cs, i, false)
    } else if c == '_' {
        scan_underscore(cs, i)
    } else if c == '\'' {
        match string_body(cs, i + 1) {
            Some((b, e)) => Scan::Word(KindView::Str(b), e),
            None => Scan::Fail("unterminated string"@, n),
        }
    } else if c == '(' {
        Scan::Word(KindView::LParen, i + 1)
    } else if c == ')' {
        Scan::Word(KindView::RParen, i + 1)
    } else if c == '=' {
        if colon { Scan::Word(KindView::Assign, i + 2) } else { Scan::Word(KindView::Verb(seq!['=']), i + 1) }
    } else if c == '!' {
        if colon {
            Scan::Word(KindView::Verb(seq!['!', ':']), i + 2)
        } else {
            Scan::Fail("expected ':' after '!'"@, i + 1)
        }
    } else if c == '.' {
        Scan::Word(KindView::Conjunction(seq!['.']), i + 1)
    } else if c == '/' {
        Scan::Word(KindView::Adverb(seq!['/']), i + 1)
    } else if single_verb(c) {
        Scan::Word(KindView::Verb(seq![c]), i + 1)
    } else if c == '<' || c == '>' || c == '~' {
        if colon {
            Scan::Word(KindView::Verb(seq![c, ':']), i + 2)
        } else {
            Scan::Word(KindView::Verb(seq![c]), i + 1)
        }
    } else if is_ascii_letter(c) {
        scan_letters(cs, i)
    } else {
        Scan::Fail("unexpected character: '"@ + seq![c, '\''], i + 1)
    }
}

/// `acc` put in front of the tokens of a result.
pub open spec fn prepend_tokens(acc: Seq<TokenView>, r: Result<Seq<TokenView>, JErrorView>) -> Result<Seq<TokenView>, JErrorView> {
    match r {
        Ok(ts) => Ok(acc + ts),
        Err(e) => Err(e),
    }
}

/// The words of the characters from `i` on, or the first error met.
pub open spec fn lex_from(cs: Seq<char>, i: int) -> Result<Seq<TokenView>, JErrorView>
    decreases cs.len() - i,
{
    if i < 0 || i >= cs.len() {
        Ok(Seq::empty())
    } else {
        match scan(cs, i) {
            Scan::Skip(e) => if i < e <= cs.len() { lex_from(cs, e) } else { Ok(Seq::empty()) },
            Scan::Word(k, e) => if i < e <= cs.len() {
                prepend_tokens(seq![TokenView { kind: k, span: span_of(cs, i, e) }], lex_from(cs, e))
            } else {
                Ok(Seq::empty())
            },
            Scan::Fail(m, e) => Err(err_view(JErrorKind::Syntax, Some(span_of(cs, i, e)), m)),
        }
    }
}

/// The integer of a number word (0 for other words).
pub open spec fn number_of(k: KindView) -> i64 {
    match k {
        KindView::Number(n) => n,
        _ => 0,
    }
}

/// Whether `n !: m` (three words: a number, the verb `!:`, a number) starts
/// at word `i`.
pub open spec fn foreign_at(ts: Seq<TokenView>, i: int) -> bool {
    &&& 0 <= i && i + 2 < ts.len()
    &&& ts[i].kind is Number
    &&& ts[i + 1].kind == KindView::Verb(seq!['!', ':'])
    &&& ts[i + 2].kind is Number
}

/// The words from `i` on, each `n !: m` made into one foreign word whose
/// numbers are cut to `u32` and whose span covers all three.
pub open spec fn merge_foreign_from(ts: Seq<TokenView>, i: int) -> Seq<TokenView>
    decreases ts.len() - i,
{
    if i < 0 || i >= ts.len() {
        Seq::empty()
    } else if foreign_at(ts, i) {
        seq![TokenView {
            kind: KindView::Foreign(number_of(ts[i].kind) as u32, number_of(ts[i + 2].kind) as u32),
            span: ts[i].span.spec_merge(ts[i + 2].span),
        }] + merge_foreign_from(ts, i + 3)
    } else {
        seq![ts[i]] + merge_foreign_from(ts, i + 1)
    }
}

/// The words of a sentence, or the first error met.
pub open spec fn lex(cs: Seq<char>) -> Result<Seq<TokenView>, JErrorView> {
    match lex_from(cs, 0) {
        Ok(ts) => Ok(merge_foreign_from(ts, 0)),
        Err(e) => Err(e),
    }
}

/// What a tokenizer's result holds.
pub open spec fn tokens_view(r: JResult<Vec<Token>>) -> Result<Seq<TokenView>, JErrorView> {
    match r {
        Ok(ts) => Ok(token_views(ts@)),
        Err(e) => Err(e@),
    }
}


// ───────────────────────── the scanner ─────────────────────────

/// What one step of the scanner found, with the index it ends at.
enum Scanned {
    Skip(usize),
    Word(TokenKind, usize),
    Fail(String, usize),
}

impl View for Scanned {
    type V = Scan;

    closed spec fn view(&self) -> Scan {
        match self {
            Scanned::Skip(e) => Scan::Skip(*e as int),
            Scanned::Word(k, e) => Scan::Word(k@, *e as int),
            Scanned::Fail(m, e) => Scan::Fail(m@, *e as int),
        }
    }
}

/// The text of one character.
fn text1(c: char) -> (r: String)
    ensures
        r@ == seq![c],
{
    let mut v: Vec<char> = Vec::new();
    v.push(c);
    proof {
        assert(v@ =~= seq![c]);
    }
    string_from_chars(&v)
}

/// The text of two characters.
fn text2(a: char, b: char) -> (r: String)
    ensures
        r@ == seq![a, b],
{
    let mut v: Vec<char> = Vec::new();
    v.push(a);
    v.push(b);
    proof {
        assert(v@ =~= seq![a, b]);
    }
    string_from_chars(&v)
}

/// Appends characters `a .. b` of `cs` to `v`.
fn push_range(v: &mut Vec<char>, cs: &Vec<char>, a: usize, b: usize)
    requires
        a <= b <= cs@.len(),
    ensures
        final(v)@ == old(v)@ + cs@.subrange(a as int, b as int),
{
    let mut k = a;
    while k < b
        invariant
            a <= k <= b <= cs@.len(),
            v@ == old(v)@ + cs@.subrange(a as int, k as int),
        decreases b - k,
    {
        v.push(cs[k]);
        proof {
            assert(cs@.subrange(a as int, k + 1) =~= cs@.subrange(a as int, k as int).push(cs@[k as int]));
        }
        k += 1;
    }
}

/// The sign (`-` when `neg`) followed by characters `a .. b` of `cs`.
fn signed_text(cs: &Vec<char>, a: usize, b: usize, neg: bool) -> (r: Vec<char>)
    requires
        a <= b <= cs@.len(),
    ensures
        r@ == sign_text(neg) + cs@.subrange(a as int, b as int),
{
    let mut v: Vec<char> = Vec::new();
    if neg {
        v.push('-');
    }
    proof {
        assert(v@ =~= sign_text(neg));
    }
    push_range(&mut v, cs, a, b);
    v
}

fn digits_end_at(cs: &Vec<char>, k: usize) -> (r: usize)
    requires
        k <= cs@.len(),
    ensures
        r == digits_end(cs@, k as int),
        k <= r <= cs@.len(),
{
    let n = cs.len();
    let mut j = k;
    while j < n && '0' <= cs[j] && cs[j] <= '9'
        invariant
            k <= j <= n,
            n == cs@.len(),
            digits_end(cs@, k as int) == digits_end(cs@, j as int),
        decreases n - j,
    {
        j += 1;
    }
    j
}

fn digdot_end_at(cs: &Vec<char>, k: usize) -> (r: usize)
    requires
        k <= cs@.len(),
    ensures
        r == digdot_end(cs@, k as int),
        k <= r <= cs@.len(),
{
    let n = cs.len();
    let mut j = k;
    while j < n && (('0' <= cs[j] && cs[j] <= '9') || cs[j] == '.')
        invariant
            k <= j <= n,
            n == cs@.len(),
            digdot_end(cs@, k as int) == digdot_end(cs@, j as int),
        decreases n - j,
    {
        j += 1;
    }
    j
}

fn is_word_char_exec(c: char) -> (r: bool)
    ensures
        r == is_word_char(c),
{
    char_is_alphanumeric(c) || c == '_'
}

fn word_end_at(cs: &Vec<char>, k: usize) -> (r: usize)
    requires
        k <= cs@.len(),
    ensures
        r == word_end(cs@, k as int),
        k <= r <= cs@.len(),
{
    let n = cs.len();
    let mut j = k;
    while j < n && is_word_char_exec(cs[j])
        invariant
            k <= j <= n,
            n == cs@.len(),
            word_end(cs@, k as int) == word_end(cs@, j as int),
        decreases n - j,
    {
        j += 1;
    }
    j
}

/// The run of digits from `d0`: where it ends and its value, `None` when the
/// value does not fit in `u64`.
fn scan_digits(cs: &Vec<char>, d0: usize) -> (r: (usize, Option<u64>))
    requires
        d0 <= cs@.len(),
    ensures
        r.0 == digits_end(cs@, d0 as int),
        d0 <= r.0 <= cs@.len(),
        match r.1 {
            Some(v) => v == digits_value(cs@.subrange(d0 as int, r.0 as int)),
            None => digits_value(cs@.subrange(d0 as int, r.0 as int)) > u64::MAX,
        },
{
    let n = cs.len();
    let mut j = d0;
    let mut acc: u64 = 0;
    let mut fits = true;
    proof {
        assert(cs@.subrange(d0 as int, d0 as int) =~= Seq::<char>::empty());
    }
    while j < n && '0' <= cs[j] && cs[j] <= '9'
        invariant
            d0 <= j <= n,
            n == cs@.len(),
            digits_end(cs@, d0 as int) == digits_end(cs@, j as int),
            fits ==> acc == digits_value(cs@.subrange(d0 as int, j as int)),
            !fits ==> digits_value(cs@.subrange(d0 as int, j as int)) > u64::MAX,
        decreases n - j,
    {
        let ch = cs[j];
        let d: u64 = ((ch as u32) - ('0' as u32)) as u64;
        proof {
            let s = cs@.subrange(d0 as int, j + 1);
            assert(s.drop_last() =~= cs@.subrange(d0 as int, j as int));
            assert(s.last() == ch);
        }
        if fits {
            match acc.checked_mul(10) {
                Some(t) => match t.checked_add(d) {
                    Some(u) => {
                        acc = u;
                    },
                    None => {
                        fits = false;
                    },
                },
                None => {
                    fits = false;
                },
            }
        }
        j += 1;
    }
    if fits { (j, Some(acc)) } else { (j, None) }
}

/// Whether a run of digits and dots after an optional `-` reads as a decimal.
fn decimal_text_ok(t: &Vec<char>) -> (r: bool)
    ensures
        r == decimal_ok(t@),
{
    let n = t.len();
    let b: usize = if n > 0 && t[0] == '-' { 1 } else { 0 };
    let ghost body = if t@.len() > 0 && t@[0] == '-' { t@.drop_first() } else { t@ };
    proof {
        assert(body =~= t@.subrange(b as int, n as int));
        assert(body.take(0) =~= Seq::<char>::empty());
    }
    let mut k = b;
    let mut dots: usize = 0;
    let mut digit = false;
    while k < n
        invariant
            b <= k <= n,
            n == t@.len(),
            body == t@.subrange(b as int, n as int),
            dots == count_of(body.take(k - b), '.'),
            dots <= k - b,
            digit == (exists|m: int| 0 <= m < k - b && is_digit(#[trigger] body[m])),
        decreases n - k,
    {
        let c = t[k];
        proof {
            assert(body.take(k - b + 1).drop_last() =~= body.take(k - b));
            assert(body.take(k - b + 1).last() == c);
            assert(body[k - b] == c);
        }
        if c == '.' {
            dots += 1;
        }
        if '0' <= c && c <= '9' {
            digit = true;
        }
        k += 1;
    }
    proof {
        assert(body.take(n - b) =~= body);
    }
    digit && dots <= 1
}


/// `acc` put in front of the body of a string scan.
pub open spec fn prepend_body(acc: Seq<char>, o: Option<(Seq<char>, int)>) -> Option<(Seq<char>, int)> {
    match o {
        Some((b, e)) => Some((acc + b, e)),
        None => None,
    }
}

/// Reads the body of a quoted string whose text starts at `k0`.
fn read_string(cs: &Vec<char>, k0: usize) -> (r: Option<(Vec<char>, usize)>)
    requires
        k0 <= cs@.len(),
    ensures
        match r {
            Some((b, e)) => string_body(cs@, k0 as int) == Some((b@, e as int)) && k0 < e <= cs@.len(),
            None => string_body(cs@, k0 as int) is None,
        },
{
    let n = cs.len();
    let mut acc: Vec<char> = Vec::new();
    let mut k = k0;
    proof {
        assert(acc@ + Seq::<char>::empty() =~= acc@);
        assert forall|o: Option<(Seq<char>, int)>| prepend_body(Seq::<char>::empty(), o) == o by {
            match o {
                Some((b, e)) => {
                    assert(Seq::<char>::empty() + b =~= b);
                },
                None => {},
            }
        }
    }
    loop
        invariant
            k0 <= k <= n,
            n == cs@.len(),
            string_body(cs@, k0 as int) == prepend_body(acc@, string_body(cs@, k as int)),
        decreases n - k,
    {
        if k >= n {
            return None;
        }
        if cs[k] == '\'' {
            if k + 1 < n && cs[k + 1] == '\'' {
                proof {
                    let ghost old_acc = acc@;
                    match string_body(cs@, k + 2) {
                        Some((b, e)) => {
                            assert(old_acc + (seq!['\''] + b) =~= old_acc.push('\'') + b);
                        },
                        None => {},
                    }
                }
                acc.push('\'');
                k += 2;
            } else {
                proof {
                    assert(acc@ + Seq::<char>::empty() =~= acc@);
                }
                return Some((acc, k + 1));
            }
        } else {
            proof {
                let ghost old_acc = acc@;
                match string_body(cs@, k + 1) {
                    Some((b, e)) => {
                        assert(old_acc + (seq![cs@[k as int]] + b) =~= old_acc.push(cs@[k as int]) + b);
                    },
                    None => {},
                }
            }
            acc.push(cs[k]);
            k += 1;
        }
    }
}


/// The end of what the scanner read, wherever it stopped.
pub open spec fn scan_end(r: Scan) -> int {
    match r {
        Scan::Skip(e) => e,
        Scan::Word(_, e) => e,
        Scan::Fail(_, e) => e,
    }
}

/// An empty string.
fn empty_text() -> (r: String)
    ensures
        r@ == Seq::<char>::empty(),
{
    let v: Vec<char> = Vec::new();
    string_from_chars(&v)
}

/// Reads a numeral whose digits start at `d0`.
fn numeral(cs: &Vec<char>, d0: usize, neg: bool) -> (r: Scanned)
    requires
        d0 < cs@.len(),
        is_digit(cs@[d0 as int]),
    ensures
        r@ == scan_numeral(cs@, d0 as int, neg),
        d0 < scan_end(r@) <= cs@.len(),
{
    let n = cs.len();
    let (j, val) = scan_digits(cs, d0);
    let j1 = digits_end_at(cs, d0 + 1);
    assert(j == j1);
    let is_float = j < n && cs[j] == '.';
    let k = if is_float { digits_end_at(cs, j + 1) } else { j };
    if k < n && cs[k] == 'j' {
        let ineg = k + 1 < n && cs[k + 1] == '_';
        let m = if ineg { k + 2 } else { k + 1 };
        let e = digdot_end_at(cs, m);
        let rt = signed_text(cs, d0, k, neg);
        let it = signed_text(cs, m, e, ineg);
        if it.len() == 0 || decimal_text_ok(&it) {
            Scanned::Word(TokenKind::Complex(string_from_chars(&rt), string_from_chars(&it)), e)
        } else if neg {
            Scanned::Word(TokenKind::Complex(string_from_chars(&rt), empty_text()), e)
        } else {
            Scanned::Fail(string_of("invalid imaginary part"), e)
        }
    } else if is_float {
        let rt = signed_text(cs, d0, k, neg);
        Scanned::Word(TokenKind::Float(string_from_chars(&rt)), k)
    } else {
        let fits = match val {
            Some(v) => if neg { v <= 9223372036854775808u64 } else { v <= 9223372036854775807u64 },
            None => false,
        };
        if fits {
            let v = val.unwrap();
            let x: i64 = if !neg {
                v as i64
            } else if v == 9223372036854775808u64 {
                i64::MIN
            } else {
                0i64 - (v as i64)
            };
            Scanned::Word(TokenKind::Number(x), j)
        } else {
            let mut msg = chars_of("invalid integer: ");
            let ghost head = msg@;
            if neg {
                msg.push('-');
            }
            proof {
                assert(msg@ =~= head + sign_text(neg));
            }
            push_range(&mut msg, cs, d0, j);
            proof {
                assert(msg@ =~= head + (sign_text(neg) + cs@.subrange(d0 as int, j as int)));
            }
            Scanned::Fail(string_from_chars(&msg), j)
        }
    }
}


fn range_text(cs: &Vec<char>, a: usize, b: usize) -> (r: String)
    requires
        a <= b <= cs@.len(),
    ensures
        r@ == cs@.subrange(a as int, b as int),
{
    let v = signed_text(cs, a, b, false);
    proof {
        assert(v@ =~= cs@.subrange(a as int, b as int));
    }
    string_from_chars(&v)
}

/// Reads a word that starts with `_` at `i`.
fn underscore(cs: &Vec<char>, i: usize) -> (r: Scanned)
    requires
        i < cs@.len(),
    ensures
        r@ == scan_underscore(cs@, i as int),
        i < scan_end(r@) <= cs@.len(),
{
    let n = cs.len();
    if i + 1 < n && '0' <= cs[i + 1] && cs[i + 1] <= '9' {
        numeral(cs, i + 1, true)
    } else if i + 1 < n && (char_is_alphabetic(cs[i + 1]) || cs[i + 1] == '_') {
        let e = word_end_at(cs, i + 1);
        Scanned::Word(TokenKind::Name(range_text(cs, i, e)), e)
    } else {
        let mut v: Vec<char> = Vec::new();
        v.push('i');
        v.push('n');
        v.push('f');
        proof {
            assert(v@ =~= seq!['i', 'n', 'f']);
        }
        Scanned::Word(TokenKind::Float(string_from_chars(&v)), i + 1)
    }
}

/// Reads a word that starts with a letter at `i`.
fn letters(cs: &Vec<char>, i: usize) -> (r: Scanned)
    requires
        i < cs@.len(),
    ensures
        r@ == scan_letters(cs@, i as int),
        i < scan_end(r@) <= cs@.len(),
{
    let n = cs.len();
    let e = word_end_at(cs, i + 1);
    let ghost word = cs@.subrange(i as int, e as int);
    if e < n && cs[e] == '.' {
        if e == i + 2 && cs[i] == 'N' && cs[i + 1] == 'B' {
            proof {
                assert(word =~= seq!['N', 'B']);
                newline_from_bounds(cs@, e + 1);
            }
            Scanned::Skip(find_newline(cs, e + 1))
        } else if e == i + 1 && cs[i] == 't' {
            proof {
                assert(word =~= seq!['t']);
            }
            Scanned::Word(TokenKind::Conjunction(text2('t', '.')), e + 1)
        } else {
            proof {
                if word == seq!['N', 'B'] {
                    assert(word.len() == 2 && word[0] == 'N' && word[1] == 'B');
                }
                if word == seq!['t'] {
                    assert(word.len() == 1 && word[0] == 't');
                }
            }
            let mut v = signed_text(cs, i, e, false);
            v.push('.');
            proof {
                assert(v@ =~= word.push('.'));
            }
            Scanned::Word(TokenKind::Verb(string_from_chars(&v)), e + 1)
        }
    } else {
        Scanned::Word(TokenKind::Name(range_text(cs, i, e)), e)
    }
}


/// One step of the scanner at character `i`.
fn scan_token(cs: &Vec<char>, i: usize) -> (r: Scanned)
    requires
        i < cs@.len(),
    ensures
        r@ == scan(cs@, i as int),
        i < scan_end(r@) <= cs@.len(),
{
    let n = cs.len();
    let c = cs[i];
    let colon = i + 1 < n && cs[i + 1] == ':';
    if c == ' ' || c == '\t' || c == '\r' || c == '\n' {
        Scanned::Skip(i + 1)
    } else if '0' <= c && c <= '9' {
        numeral(cs, i, false)
    } else if c == '_' {
        underscore(cs, i)
    } else if c == '\'' {
        match read_string(cs, i + 1) {
            Some((b, e)) => Scanned::Word(TokenKind::Str(string_from_chars(&b)), e),
            None => Scanned::Fail(string_of("unterminated string"), n),
        }
    } else if c == '(' {
        Scanned::Word(TokenKind::LParen, i + 1)
    } else if c == ')' {
        Scanned::Word(TokenKind::RParen, i + 1)
    } else if c == '=' {
        if colon {
            Scanned::Word(TokenKind::Assign, i + 2)
        } else {
            Scanned::Word(TokenKind::Verb(text1('=')), i + 1)
        }
    } else if c == '!' {
        if colon {
            Scanned::Word(TokenKind::Verb(text2('!', ':')), i + 2)
        } else {
            Scanned::Fail(string_of("expected ':' after '!'"), i + 1)
        }
    } else if c == '.' {
        Scanned::Word(TokenKind::Conjunction(text1('.')), i + 1)
    } else if c == '/' {
        Scanned::Word(TokenKind::Adverb(text1('/')), i + 1)
    } else if c == '+' || c == '%' || c == '#' || c == '-' || c == '*' || c == '|' || c == '$' || c == ':' {
        Scanned::Word(TokenKind::Verb(text1(c)), i + 1)
    } else if c == '<' || c == '>' || c == '~' {
        if colon {
            Scanned::Word(TokenKind::Verb(text2(c, ':')), i + 2)
        } else {
            Scanned::Word(TokenKind::Verb(text1(c)), i + 1)
        }
    } else if ('a' <= c && c <= 'z') || ('A' <= c && c <= 'Z') {
        letters(cs, i)
    } else {
        let mut msg = chars_of("unexpected character: '");
        let ghost head = msg@;
        msg.push(c);
        msg.push('\'');
        proof {
            assert(msg@ =~= head + seq![c, '\'']);
        }
        Scanned::Fail(string_from_chars(&msg), i + 1)
    }
}


/// The two numbers of `n !: m` when it starts at word `i`.
fn foreign_pair(tokens: &Vec<Token>, i: usize) -> (r: Option<(i64, i64)>)
    ensures
        r is Some <==> foreign_at(token_views(tokens@), i as int),
        match r {
            Some((n, m)) => n == number_of(tokens@[i as int].kind@) && m == number_of(
                tokens@[i + 2].kind@,
            ),
            None => true,
        },
{
    let ghost ts = token_views(tokens@);
    assert(ts.len() == tokens@.len());
    if i < tokens.len() && tokens.len() - i > 2 {
        proof {
            assert(ts[i as int] == tokens@[i as int]@);
            assert(ts[i + 1] == tokens@[i + 1]@);
            assert(ts[i + 2] == tokens@[i + 2]@);
            reveal_strlit("!:");
        }
        match &tokens[i].kind {
            TokenKind::Number(n) => match &tokens[i + 1].kind {
                TokenKind::Verb(op) => match &tokens[i + 2].kind {
                    TokenKind::Number(m) => {
                        let same = str_eq(op.as_str(), "!:");
                        proof {
                            assert(ts[i + 1].kind == KindView::Verb(op@));
                            reveal_strlit("!:");
                            assert("!:"@ =~= seq!['!', ':']);
                        }
                        if same {
                            Some((*n, *m))
                        } else {
                            None
                        }
                    },
                    _ => None,
                },
                _ => None,
            },
            _ => None,
        }
    } else {
        None
    }
}

/// Makes each `n !: m` (a number, the verb `!:`, a number) one foreign word.
fn merge_foreign(tokens: Vec<Token>) -> (r: Vec<Token>)
    ensures
        token_views(r@) == merge_foreign_from(token_views(tokens@), 0),
{
    let ghost ts = token_views(tokens@);
    let mut result: Vec<Token> = Vec::new();
    let mut i: usize = 0;
    proof {
        assert(token_views(result@) + merge_foreign_from(ts, 0) =~= merge_foreign_from(ts, 0));
    }
    while i < tokens.len()
        invariant
            i <= tokens@.len(),
            ts == token_views(tokens@),
            ts.len() == tokens@.len(),
            merge_foreign_from(ts, 0) == token_views(result@) + merge_foreign_from(ts, i as int),
        decreases tokens.len() - i,
    {
        let ghost before = token_views(result@);
        match foreign_pair(&tokens, i) {
            Some((n, m)) => {
                let span = tokens[i].span.merge(&tokens[i + 2].span);
                let t = Token::new(TokenKind::Foreign(n as u32, m as u32), span);
                result.push(t);
                proof {
                    assert(ts[i as int] == tokens@[i as int]@);
                    assert(ts[i + 2] == tokens@[i + 2]@);
                    assert(token_views(result@) =~= before.push(t@));
                    assert(before + merge_foreign_from(ts, i as int) =~= before.push(t@)
                        + merge_foreign_from(ts, i + 3));
                }
                i += 3;
            },
            None => {
                let t = tokens[i].duplicate();
                result.push(t);
                proof {
                    assert(ts[i as int] == tokens@[i as int]@);
                    assert(token_views(result@) =~= before.push(t@));
                    assert(before + merge_foreign_from(ts, i as int) =~= before.push(t@)
                        + merge_foreign_from(ts, i + 1));
                }
                i += 1;
            },
        }
    }
    proof {
        assert(token_views(result@) + merge_foreign_from(ts, i as int) =~= token_views(result@));
    }
    result
}

/// Splits a sentence into J words.
///
/// Spaces, tabs and line breaks separate words; `NB.` starts a comment that
/// runs to the end of the line; each `n !: m` becomes one foreign word.  The
/// first malformed word (an unterminated string, a `!` without `:`, an
/// integer that does not fit in `i64`, a bad imaginary part, a character that
/// starts no word) is reported as a syntax error at its place.  Every span
/// gives byte offsets and the line and column (from 1) of the word's start.
/// The source number is not part of a span.
pub fn tokenize(input: &str, source_id: usize) -> (r: JResult<Vec<Token>>)
    requires
        vstd::utf8::encode_utf8(input@).len() < usize::MAX,
    ensures
        tokens_view(r) == lex(input@),
{
    proof {
        lemma_byte_len_utf8(input@);
    }
    let cs = chars_of(input);
    let n = cs.len();
    let mut toks: Vec<Token> = Vec::new();
    let mut i: usize = 0;
    let mut pos: usize = 0;
    let mut line: usize = 1;
    let mut col: usize = 1;
    proof {
        assert forall|x: Result<Seq<TokenView>, JErrorView>| prepend_tokens(Seq::empty(), x) == x by {
            match x {
                Ok(v) => {
                    assert(Seq::<TokenView>::empty() + v =~= v);
                },
                Err(_) => {},
            }
        }
        assert(token_views(toks@) =~= Seq::<TokenView>::empty());
    }
    while i < n
        invariant
            i <= n,
            n == cs@.len(),
            cs@ == input@,
            byte_len(cs@) < usize::MAX,
            pos == pos_at(cs@, i as int),
            line == line_at(cs@, i as int),
            col == col_at(cs@, i as int),
            lex_from(cs@, 0) == prepend_tokens(token_views(toks@), lex_from(cs@, i as int)),
        decreases n - i,
    {
        let step = scan_token(&cs, i);
        match step {
            Scanned::Skip(e) => {
                let (p, l, c) = advance(&cs, i, e, pos, line, col);
                i = e;
                pos = p;
                line = l;
                col = c;
            },
            Scanned::Word(kind, e) => {
                let (p, l, c) = advance(&cs, i, e, pos, line, col);
                let span = Span::new(pos, p, line, col);
                let ghost before = token_views(toks@);
                let t = Token::new(kind, span);
                toks.push(t);
                proof {
                    assert(span == span_of(cs@, i as int, e as int));
                    assert(token_views(toks@) =~= before.push(t@));
                    match lex_from(cs@, e as int) {
                        Ok(v) => {
                            assert(before + (seq![t@] + v) =~= before.push(t@) + v);
                        },
                        Err(_) => {},
                    }
                }
                i = e;
                pos = p;
                line = l;
                col = c;
            },
            Scanned::Fail(msg, e) => {
                let (p, _l, _c) = advance(&cs, i, e, pos, line, col);
                let span = Span::new(pos, p, line, col);
                proof {
                    assert(span == span_of(cs@, i as int, e as int));
                }
                return Err(JError::from_chars(JErrorKind::Syntax, Some(span), msg));
            },
        }
    }
    proof {
        assert(token_views(toks@) + Seq::<TokenView>::empty() =~= token_views(toks@));
    }
    Ok(merge_foreign(toks))
}


// ───────────────────────── laws ─────────────────────────

/// A span that lies within a text of `n` bytes: its start is no later than
/// its end, its end no later than `n`, and its line and column count from 1.
pub open spec fn span_within(sp: Span, n: nat) -> bool {
    &&& sp.start <= sp.end
    &&& sp.end <= n
    &&& sp.line >= 1
    &&& sp.col >= 1
}

/// Every word's span lies within a text of `n` bytes.
pub open spec fn spans_within(ts: Seq<TokenView>, n: nat) -> bool {
    forall|k: int| 0 <= k < ts.len() ==> span_within(#[trigger] ts[k].span, n)
}

proof fn lemma_span_of_within(cs: Seq<char>, i: int, e: int)
    requires
        0 <= i <= e <= cs.len(),
        byte_len(cs) < usize::MAX,
    ensures
        span_within(span_of(cs, i, e), byte_len(cs)),
{
    lemma_positions(cs, i);
    lemma_positions(cs, e);
    lemma_positions(cs, cs.len() as int);
    lemma_pos_mono(cs, i, e);
    lemma_pos_mono(cs, e, cs.len() as int);
    assert(cs.subrange(cs.len() as int, cs.len() as int) =~= Seq::<char>::empty());
}

proof fn lemma_lex_from_within(cs: Seq<char>, i: int)
    requires
        0 <= i,
        byte_len(cs) < usize::MAX,
    ensures
        lex_from(cs, i) matches Ok(ts) ==> spans_within(ts, byte_len(cs)),
        lex_from(cs, i) matches Err(e) ==> e.span matches Some(sp) && span_within(sp, byte_len(cs)),
    decreases cs.len() - i,
{
    if i < cs.len() {
        match scan(cs, i) {
            Scan::Skip(e) => {
                if i < e <= cs.len() {
                    lemma_lex_from_within(cs, e);
                }
            },
            Scan::Word(k, e) => {
                if i < e <= cs.len() {
                    lemma_lex_from_within(cs, e);
                    lemma_span_of_within(cs, i, e);
                    match lex_from(cs, e) {
                        Ok(rest) => {
                            let t = TokenView { kind: k, span: span_of(cs, i, e) };
                            let all = seq![t] + rest;
                            assert forall|j: int| 0 <= j < all.len() implies span_within(#[trigger] all[j].span, byte_len(cs)) by {
                                if j > 0 {
                                    assert(all[j] == rest[j - 1]);
                                }
                            }
                        },
                        Err(_) => {},
                    }
                }
            },
            Scan::Fail(m, e) => {
                lemma_scan_end(cs, i);
                lemma_span_of_within(cs, i, e);
            },
        }
    }
}

proof fn lemma_digits_end(cs: Seq<char>, k: int)
    requires
        0 <= k <= cs.len(),
    ensures
        k <= digits_end(cs, k) <= cs.len(),
    decreases cs.len() - k,
{
    if k < cs.len() && is_digit(cs[k]) {
        lemma_digits_end(cs, k + 1);
    }
}

proof fn lemma_digdot_end(cs: Seq<char>, k: int)
    requires
        0 <= k <= cs.len(),
    ensures
        k <= digdot_end(cs, k) <= cs.len(),
    decreases cs.len() - k,
{
    if k < cs.len() && (is_digit(cs[k]) || cs[k] == '.') {
        lemma_digdot_end(cs, k + 1);
    }
}

proof fn lemma_numeral_end(cs: Seq<char>, d0: int, neg: bool)
    requires
        0 <= d0 < cs.len(),
    ensures
        d0 <= scan_end(scan_numeral(cs, d0, neg)) <= cs.len(),
{
    let n = cs.len() as int;
    lemma_digits_end(cs, d0);
    let j = digits_end(cs, d0);
    if j < n && cs[j] == '.' {
        lemma_digits_end(cs, j + 1);
    }
    let k = if j < n && cs[j] == '.' { digits_end(cs, j + 1) } else { j };
    if k < n && cs[k] == 'j' {
        let m = if k + 1 < n && cs[k + 1] == '_' { k + 2 } else { k + 1 };
        lemma_digdot_end(cs, m);
    }
}

/// Where the scanner stops when it fails lies no earlier than its start and
/// within the text.
proof fn lemma_scan_end(cs: Seq<char>, i: int)
    requires
        0 <= i < cs.len(),
    ensures
        scan(cs, i) matches Scan::Fail(_, e) ==> i <= e <= cs.len(),
{
    let c = cs[i];
    if is_digit(c) {
        lemma_numeral_end(cs, i, false);
    } else if c == '_' && i + 1 < cs.len() && is_digit(cs[i + 1]) {
        lemma_numeral_end(cs, i + 1, true);
    }
}

proof fn lemma_merge_within(ts: Seq<TokenView>, i: int, n: nat)
    requires
        0 <= i,
        spans_within(ts, n),
    ensures
        spans_within(merge_foreign_from(ts, i), n),
    decreases ts.len() - i,
{
    if i < ts.len() {
        if foreign_at(ts, i) {
            lemma_merge_within(ts, i + 3, n);
            let rest = merge_foreign_from(ts, i + 3);
            let t = TokenView {
                kind: KindView::Foreign(number_of(ts[i].kind) as u32, number_of(ts[i + 2].kind) as u32),
                span: ts[i].span.spec_merge(ts[i + 2].span),
            };
            assert(span_within(ts[i].span, n));
            assert(span_within(ts[i + 2].span, n));
            let all = seq![t] + rest;
            assert forall|j: int| 0 <= j < all.len() implies span_within(#[trigger] all[j].span, n) by {
                if j > 0 {
                    assert(all[j] == rest[j - 1]);
                }
            }
        } else {
            lemma_merge_within(ts, i + 1, n);
            let rest = merge_foreign_from(ts, i + 1);
            assert(span_within(ts[i].span, n));
            let all = seq![ts[i]] + rest;
            assert forall|j: int| 0 <= j < all.len() implies span_within(#[trigger] all[j].span, n) by {
                if j > 0 {
                    assert(all[j] == rest[j - 1]);
                }
            }
        }
    }
}

/// Every span that the tokenizer gives, of a word or of an error, lies
/// within the source: start no later than end, end no later than the
/// source's length in bytes, line and column from 1.
pub proof fn spans_lie_within_source(cs: Seq<char>)
    requires
        vstd::utf8::encode_utf8(cs).len() < usize::MAX,
    ensures
        lex(cs) matches Ok(ts) ==> spans_within(ts, vstd::utf8::encode_utf8(cs).len()),
        lex(cs) matches Err(e) ==> e.span matches Some(sp) && span_within(sp, vstd::utf8::encode_utf8(cs).len()),
{
    lemma_byte_len_utf8(cs);
    lemma_lex_from_within(cs, 0);
    match lex_from(cs, 0) {
        Ok(ts) => {
            lemma_merge_within(ts, 0, byte_len(cs));
        },
        Err(_) => {},
    }
}

} // verus!
