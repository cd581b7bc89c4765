//! Source positions and the interpreter's errors.
use vstd::prelude::*;
use crate::text::{concat2, concat3, nat_text, string_from_chars, string_of, usize_to_string};

verus! {

broadcast use vstd::string::group_string_axioms;

/// A position in the source: where a token starts and ends (byte offsets,
/// the end exclusive) and the line and column (both from 1) of its start.
#[derive(Debug, Clone, Copy, PartialEq, Eq, Structural)]
pub struct Span {
    pub start: usize,
    pub end: usize,
    pub line: usize,
    pub col: usize,
}

/// The smaller of two sizes.
pub open spec fn min_usize(a: usize, b: usize) -> usize {
    if a <= b { a } else { b }
}

/// The larger of two sizes.
pub open spec fn max_usize(a: usize, b: usize) -> usize {
    if a >= b { a } else { b }
}

impl Span {
    pub fn new(start: usize, end: usize, line: usize, col: usize) -> (s: Span)
        ensures
            s == (Span { start, end, line, col }),
    {
        Span { start, end, line, col }
    }

    /// The merged span: the earlier start, the later end, the smaller line
    /// and column (e.g. the whole range of a fork `f g h`).
    pub open spec fn spec_merge(self, other: Span) -> Span {
        Span {
            start: min_usize(self.start, other.start),
            end: max_usize(self.end, other.end),
            line: min_usize(self.line, other.line),
            col: min_usize(self.col, other.col),
        }
    }

    pub fn merge(&self, other: &Span) -> (s: Span)
        ensures
            s == self.spec_merge(*other),
    {
        Span {
            start: if self.start <= other.start { self.start } else { other.start },
            end: if self.end >= other.end { self.end } else { other.end },
            line: if self.line <= other.line { self.line } else { other.line },
            col: if self.col <= other.col { self.col } else { other.col },
        }
    }
}

/// A merged span covers both of its parts: it starts no later and ends no
/// earlier than either.
pub proof fn merge_covers(a: Span, b: Span)
    ensures
        a.spec_merge(b).start <= a.start,
        a.spec_merge(b).start <= b.start,
        a.spec_merge(b).end >= a.end,
        a.spec_merge(b).end >= b.end,
{
}

/// Merging spans does not depend on their order, and a span merged with
/// itself is unchanged.
pub proof fn merge_commutes_and_is_idempotent(a: Span, b: Span)
    ensures
        a.spec_merge(b) == b.spec_merge(a),
        a.spec_merge(a) == a,
{
}

/// The kinds of J errors.
#[derive(Debug, Clone, Copy, PartialEq, Eq, Structural)]
pub enum JErrorKind {
    /// A value of the wrong type or out of range (`+ 'a'`).
    Domain,
    /// A rank mismatch.
    Rank,
    /// Lengths that do not agree (`1 2 3 + 1 2`).
    Length,
    /// An index out of range.
    Index,
    /// An undefined name.
    Value,
    /// A sentence that does not parse.
    Syntax,
}

/// The text that names an error kind.
pub open spec fn kind_text(k: JErrorKind) -> Seq<char> {
    match k {
        JErrorKind::Domain => "domain error"@,
        JErrorKind::Rank => "rank error"@,
        JErrorKind::Length => "length error"@,
        JErrorKind::Index => "index error"@,
        JErrorKind::Value => "value error"@,
        JErrorKind::Syntax => "syntax error"@,
    }
}

impl JErrorKind {
    pub fn as_str(&self) -> (s: &'static str)
        ensures
            s@ == kind_text(*self),
    {
        match self {
            JErrorKind::Domain => "domain error",
            JErrorKind::Rank => "rank error",
            JErrorKind::Length => "length error",
            JErrorKind::Index => "index error",
            JErrorKind::Value => "value error",
            JErrorKind::Syntax => "syntax error",
        }
    }
}

/// Different error kinds are named by different texts.
pub proof fn kind_texts_distinct(a: JErrorKind, b: JErrorKind)
    requires
        a != b,
    ensures
        kind_text(a) != kind_text(b),
{
    reveal_strlit("domain error");
    reveal_strlit("rank error");
    reveal_strlit("length error");
    reveal_strlit("index error");
    reveal_strlit("value error");
    reveal_strlit("syntax error");
    match a {
        JErrorKind::Domain => { assert(kind_text(a)[0] == 'd'); }
        JErrorKind::Rank => { assert(kind_text(a)[0] == 'r'); }
        JErrorKind::Length => { assert(kind_text(a)[0] == 'l'); }
        JErrorKind::Index => { assert(kind_text(a)[0] == 'i'); }
        JErrorKind::Value => { assert(kind_text(a)[0] == 'v'); }
        JErrorKind::Syntax => { assert(kind_text(a)[0] == 's'); }
    }
    match b {
        JErrorKind::Domain => { assert(kind_text(b)[0] == 'd'); }
        JErrorKind::Rank => { assert(kind_text(b)[0] == 'r'); }
        JErrorKind::Length => { assert(kind_text(b)[0] == 'l'); }
        JErrorKind::Index => { assert(kind_text(b)[0] == 'i'); }
        JErrorKind::Value => { assert(kind_text(b)[0] == 'v'); }
        JErrorKind::Syntax => { assert(kind_text(b)[0] == 's'); }
    }
}

/// A J error: its kind, where it happened (if known) and a message.
#[derive(Debug)]
pub struct JError {
    pub kind: JErrorKind,
    pub span: Option<Span>,
    pub message: String,
}

/// What an error holds, with its message as characters.
pub struct JErrorView {
    pub kind: JErrorKind,
    pub span: Option<Span>,
    pub message: Seq<char>,
}

impl View for JError {
    type V = JErrorView;

    open spec fn view(&self) -> JErrorView {
        JErrorView { kind: self.kind, span: self.span, message: self.message@ }
    }
}

/// The error of a kind, place and message.
pub open spec fn err_view(kind: JErrorKind, span: Option<Span>, message: Seq<char>) -> JErrorView {
    JErrorView { kind, span, message }
}

/// The result type of the interpreter's operations.
pub type JResult<T> = Result<T, JError>;

// ───────────────────────── rendering ─────────────────────────

/// The index of the first `'\n'` at or after `i` (the length if none).
pub open spec fn newline_from(cs: Seq<char>, i: int) -> int
    decreases cs.len() - i,
{
    if i >= cs.len() {
        cs.len() as int
    } else if cs[i] == '\n' {
        i
    } else {
        newline_from(cs, i + 1)
    }
}

/// Where line `k` (from 0) of a text starts, as `str::lines` splits it at
/// `\n`; at or past the length when the text has no such line.
pub open spec fn line_start(cs: Seq<char>, k: nat) -> int
    decreases k,
{
    if k == 0 {
        0
    } else {
        let s = line_start(cs, (k - 1) as nat);
        if s >= cs.len() { s } else { newline_from(cs, s) + 1 }
    }
}

pub proof fn newline_from_bounds(cs: Seq<char>, i: int)
    requires
        0 <= i <= cs.len(),
    ensures
        i <= newline_from(cs, i) <= cs.len(),
        newline_from(cs, i) < cs.len() ==> cs[newline_from(cs, i)] == '\n',
        forall|j: int| i <= j < newline_from(cs, i) ==> cs[j] != '\n',
    decreases cs.len() - i,
{
    if i < cs.len() && cs[i] != '\n' {
        newline_from_bounds(cs, i + 1);
    }
}

proof fn line_start_bounds(cs: Seq<char>, k: nat)
    ensures
        0 <= line_start(cs, k) <= cs.len() + 1,
    decreases k,
{
    if k > 0 {
        line_start_bounds(cs, (k - 1) as nat);
        let s = line_start(cs, (k - 1) as nat);
        if s < cs.len() {
            newline_from_bounds(cs, s);
        }
    }
}

/// Past the end of the text there are no more lines.
proof fn line_start_stays(cs: Seq<char>, a: nat, b: nat)
    requires
        a <= b,
        line_start(cs, a) >= cs.len(),
    ensures
        line_start(cs, b) == line_start(cs, a),
    decreases b - a,
{
    if a < b {
        line_start_stays(cs, a, (b - 1) as nat);
    }
}

/// Line `k` (from 0) of a text as `str::lines` gives it: without its line
/// break, a `\r` just before the `\n` dropped too; empty past the last line
/// (there is no line after a final `\n`).
pub open spec fn nth_line(cs: Seq<char>, k: int) -> Seq<char> {
    let s = line_start(cs, k as nat);
    if k < 0 || s >= cs.len() {
        seq![]
    } else {
        let e = newline_from(cs, s);
        let piece = cs.subrange(s, e);
        if e < cs.len() && piece.len() > 0 && piece.last() == '\r' {
            piece.drop_last()
        } else {
            piece
        }
    }
}

/// Characters `c` repeated `n` times.
pub open spec fn repeat_char(c: char, n: nat) -> Seq<char> {
    Seq::new(n, |i: int| c)
}

/// The text that shows an error, as the REPL prints it: with a span, the
/// source line prefixed by `line N: ` and a row of `~` under the token, then
/// `kind: message`; each line ends with a line break.
pub open spec fn render_text(e: JErrorView, source: Seq<char>) -> Seq<char> {
    let tail = kind_text(e.kind) + ": "@ + e.message + seq!['\n'];
    match e.span {
        None => tail,
        Some(sp) => {
            let prefix = "line "@ + nat_text(sp.line as nat) + ": "@;
            let width = if sp.end - sp.start >= 1 { (sp.end - sp.start) as nat } else { 1nat };
            prefix + nth_line(source, sp.line - 1) + seq!['\n']
                + repeat_char(' ', (prefix.len() + sp.col - 1) as nat)
                + repeat_char('~', width) + seq!['\n'] + tail
        }
    }
}

/// Whether the place of an error can be shown: a line from 1 and an end no
/// earlier than the start (a column of 0 puts the marker one place to the
/// left of column 1).
pub open spec fn renderable(e: JErrorView) -> bool {
    match e.span {
        None => true,
        Some(sp) => {
            &&& sp.line >= 1
            &&& sp.end >= sp.start
            &&& 7 + nat_text(sp.line as nat).len() + sp.col - 1 <= usize::MAX
        },
    }
}

fn repeat_chars(c: char, n: usize) -> (r: Vec<char>)
    ensures
        r@ == repeat_char(c, n as nat),
{
    let mut r: Vec<char> = Vec::new();
    let mut i: usize = 0;
    while i < n
        invariant
            i <= n,
            r@ == repeat_char(c, i as nat),
        decreases n - i,
    {
        r.push(c);
        i += 1;
        proof {
            assert(r@ =~= repeat_char(c, i as nat));
        }
    }
    r
}

/// The index of the first line break at or after `i`.
pub fn find_newline(cs: &Vec<char>, i: usize) -> (j: usize)
    requires
        i <= cs@.len(),
    ensures
        j == newline_from(cs@, i as int),
{
    proof {
        newline_from_bounds(cs@, i as int);
    }
    let n = cs.len();
    let mut j = i;
    while j < n && cs[j] != '\n'
        invariant
            i <= j <= n,
            n == cs@.len(),
            newline_from(cs@, i as int) == newline_from(cs@, j as int),
        decreases n - j,
    {
        j += 1;
    }
    j
}

/// Line `k` (from 0) of the given characters.
fn line_at(cs: &Vec<char>, k: usize) -> (r: Vec<char>)
    ensures
        r@ == nth_line(cs@, k as int),
{
    let n = cs.len();
    let mut s: usize = 0;
    let mut idx: usize = 0;
    while idx < k && s < n
        invariant
            idx <= k,
            s <= n,
            n == cs@.len(),
            s < n ==> s == line_start(cs@, idx as nat),
            s == n ==> line_start(cs@, idx as nat) >= n,
        decreases k - idx,
    {
        let e = find_newline(cs, s);
        proof {
            newline_from_bounds(cs@, s as int);
        }
        if e >= n {
            s = n;
        } else {
            s = e + 1;
        }
        idx += 1;
    }
    if s >= n {
        proof {
            line_start_stays(cs@, idx as nat, k as nat);
        }
        return Vec::new();
    }
    let e = find_newline(cs, s);
    proof {
        newline_from_bounds(cs@, s as int);
    }
    let mut stop = e;
    if e < n && e > s && cs[e - 1] == '\r' {
        stop = e - 1;
        proof {
            assert(cs@.subrange(s as int, e as int).drop_last()
                =~= cs@.subrange(s as int, e as int - 1));
        }
    }
    let mut r: Vec<char> = Vec::new();
    let mut t = s;
    while t < stop
        invariant
            s <= t <= stop <= e <= n,
            n == cs@.len(),
            r@ =~= cs@.subrange(s as int, t as int),
        decreases stop - t,
    {
        r.push(cs[t]);
        t += 1;
    }
    r
}

impl JError {
    pub fn new(kind: JErrorKind, span: Option<Span>, message: &str) -> (e: JError)
        ensures
            e@ == err_view(kind, span, message@),
    {
        JError { kind, span, message: string_of(message) }
    }

    /// An error with no place (e.g. one found inside a verb).
    pub fn no_loc(kind: JErrorKind, message: &str) -> (e: JError)
        ensures
            e@ == err_view(kind, None, message@),
    {
        JError { kind, span: None, message: string_of(message) }
    }

    /// An error with a message built from characters.
    pub fn from_chars(kind: JErrorKind, span: Option<Span>, message: String) -> (e: JError)
        ensures
            e@ == err_view(kind, span, message@),
    {
        JError { kind, span, message }
    }

    /// Whether the place of this error can be shown (see `renderable`).
    pub fn can_render(&self) -> (r: bool)
        ensures
            r == renderable(self@),
    {
        match &self.span {
            None => true,
            Some(sp) => {
                if sp.line >= 1 && sp.end >= sp.start {
                    let digits = crate::text::chars_of(usize_to_string(sp.line).as_str()).len();
                    match 6usize.checked_add(digits) {
                        Some(x) => x.checked_add(sp.col).is_some(),
                        None => false,
                    }
                } else {
                    false
                }
            },
        }
    }

    /// The text that shows this error against its source line, Python style:
    ///
    /// ```text
    /// line 3: mean =: +/ % 0
    ///                      ~
    /// domain error: divide by zero
    /// ```
    pub fn render(&self, source: &str) -> (r: String)
        requires
            renderable(self@),
        ensures
            r@ == render_text(self@, source@),
    {
        let kind = self.kind.as_str();
        let tail0 = concat3(kind, ": ", self.message.as_str());
        let tail = concat2(tail0.as_str(), "\n");
        proof {
            reveal_strlit("\n");
            reveal_strlit(": ");
        }
        match &self.span {
            None => {
                assert(tail@ =~= render_text(self@, source@));
                tail
            },
            Some(span) => {
                let src = crate::text::chars_of(source);
                let line_text = string_from_chars(&line_at(&src, span.line - 1));
                let num = usize_to_string(span.line);
                let prefix = concat3("line ", num.as_str(), ": ");
                let plen = crate::text::chars_of(prefix.as_str()).len();
                proof {
                    reveal_strlit("line ");
                    reveal_strlit(": ");
                    assert(prefix@.len() == 7 + nat_text(span.line as nat).len());
                    assert(self.span == Some(*span));
                    assert(plen + span.col - 1 <= usize::MAX);
                }
                let width = if span.end - span.start >= 1 { span.end - span.start } else { 1 };
                let indent = string_from_chars(&repeat_chars(' ', plen - 1 + span.col));
                let marker = string_from_chars(&repeat_chars('~', width));
                let first = concat3(prefix.as_str(), line_text.as_str(), "\n");
                let second = concat3(indent.as_str(), marker.as_str(), "\n");
                let both = concat2(first.as_str(), second.as_str());
                let r = concat2(both.as_str(), tail.as_str());
                proof {
                    reveal_strlit("\n");
                    assert(r@ =~= render_text(self@, source@));
                }
                r
            }
        }
    }
}

} // verus!
