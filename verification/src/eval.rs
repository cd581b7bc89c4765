//! The evaluator: J sentences, read right to left.
//!
//! `name =: sentence` binds a global name.  A sentence whose last word is a
//! verb (or a parenthesised verb phrase) denotes that verb.  Otherwise the
//! noun at its right end is evaluated (a number list, a name, a
//! parenthesised sentence) and the words before it are applied to it: as one
//! verb when they form one (a primitive, a name bound to a verb, `u/`,
//! `u t.`, a parenthesised phrase, a fork `f g h`), else verb by verb from
//! the right, each as a dyad when a noun stands at its left (`2 3 $ i. 6`)
//! and as a monad otherwise (`+/ i. 10`).  `n !: m` runs a foreign.
//!
//! Every function here is specified by a spec function of the same structure
//! (`spec_rtl`, `spec_apply`, `spec_parse_verb`, ...) over the words' views
//! and the symbol tables.  Words are taken from a slice between two indices.
use vstd::prelude::*;
use crate::array::{ArrayView, DataView, JArray, JType, JVal, wf, scalar_view, vector_view, verb_view, share};
use crate::error::{JError, JErrorKind, JErrorView, JResult, Span, err_view};
use crate::interp::{Interpreter, spec_lookup, values_wf};
use crate::text::{concat3, string_of, str_eq, nat_text,
    usize_to_string};
use crate::token::{KindView, Token, TokenKind, TokenView, number_of, token_views};
use crate::verbs::{Bar, Dollar, Fork, Ge, Gt, Iota, Le, Lt, Minus, Ne, Percent, Plus,
    Slash, Star, Tco, Verb, VerbBox, rank1ex, rank2ex, res_view, spec_rank1ex, spec_rank2ex,
    verb_monad_rank, verb_dyad_rank};

verus! {

broadcast use vstd::string::group_string_axioms;

// ───────────────────────── primitives ─────────────────────────

/// The primitive verb spelled `name`, if any.
pub open spec fn primitive_of(name: Seq<char>) -> Option<Verb> {
    if name == "+"@ {
        Some(Verb::Plus(Plus))
    } else if name == "-"@ {
        Some(Verb::Minus(Minus))
    } else if name == "*"@ {
        Some(Verb::Star(Star))
    } else if name == "%"@ {
        Some(Verb::Percent(Percent))
    } else if name == "|"@ {
        Some(Verb::Bar(Bar))
    } else if name == "#"@ {
        Some(Verb::Hash(crate::verbs::Hash))
    } else if name == "$"@ {
        Some(Verb::Dollar(Dollar))
    } else if name == "<"@ {
        Some(Verb::Lt(Lt))
    } else if name == ">"@ {
        Some(Verb::Gt(Gt))
    } else if name == "<:"@ {
        Some(Verb::Le(Le))
    } else if name == ">:"@ {
        Some(Verb::Ge(Ge))
    } else if name == "="@ {
        Some(Verb::Eq(crate::verbs::Eq))
    } else if name == "~:"@ {
        Some(Verb::Ne(Ne))
    } else if name == "i."@ {
        Some(Verb::Iota(Iota))
    } else {
        None
    }
}

/// The primitive spelled `name`, or a value error at `span`.
pub open spec fn spec_make_primitive(name: Seq<char>, span: Span) -> Result<Verb, JErrorView> {
    match primitive_of(name) {
        Some(v) => Ok(v),
        None => Err(err_view(JErrorKind::Value, Some(span), "unknown verb: '"@ + name + "'"@)),
    }
}

/// What a verb result holds.
pub open spec fn verb_res(r: JResult<VerbBox>) -> Result<Verb, JErrorView> {
    match r {
        Ok(b) => Ok(*b),
        Err(e) => Err(e@),
    }
}

// ───────────────────────── parentheses ─────────────────────────

/// The index of the `)` that closes the parentheses open before `k`
/// (`depth` of them), searching up to `hi`.
pub open spec fn matching_from(ts: Seq<TokenView>, k: int, hi: int, depth: nat) -> Option<int>
    decreases hi - k,
{
    if k < 0 || k >= hi || k >= ts.len() {
        None
    } else {
        match ts[k].kind {
            KindView::LParen => matching_from(ts, k + 1, hi, depth + 1),
            KindView::RParen => if depth <= 1 {
                Some(k)
            } else {
                matching_from(ts, k + 1, hi, (depth - 1) as nat)
            },
            _ => matching_from(ts, k + 1, hi, depth),
        }
    }
}

/// The index of the `)` matching the `(` at `start`, searching up to `hi`.
pub open spec fn matching_paren(ts: Seq<TokenView>, start: int, hi: int) -> Option<int> {
    matching_from(ts, start, hi, 0)
}

// ───────────────────────── nouns ─────────────────────────

/// A word that is part of a noun.
pub open spec fn nounish(k: KindView) -> bool {
    k is Number || k is Float || k is Complex || k is Str || k is Name
}

/// A word a noun can end with.
pub open spec fn ends_noun(k: KindView) -> bool {
    nounish(k) || k is RParen
}

/// Searching left from `j` (down to `lo`), the index of the `(` that closes
/// `depth` open `)`.
pub open spec fn open_back(ts: Seq<TokenView>, lo: int, j: int, depth: nat) -> Option<int>
    decreases j - lo,
{
    if j <= lo || j > ts.len() {
        None
    } else {
        match ts[j - 1].kind {
            KindView::RParen => open_back(ts, lo, j - 1, depth + 1),
            KindView::LParen => if depth <= 1 {
                Some(j - 1)
            } else {
                open_back(ts, lo, j - 1, (depth - 1) as nat)
            },
            _ => open_back(ts, lo, j - 1, depth),
        }
    }
}

/// Where the noun at the right end of words `lo .. i` starts: noun words and
/// whole parenthesised groups are taken, from the right.
pub open spec fn noun_start_from(ts: Seq<TokenView>, lo: int, i: int) -> int
    decreases i - lo,
{
    if i <= lo || i > ts.len() {
        i
    } else if nounish(ts[i - 1].kind) {
        noun_start_from(ts, lo, i - 1)
    } else if ts[i - 1].kind is RParen {
        match open_back(ts, lo, i - 1, 1) {
            Some(j) => if lo <= j < i { noun_start_from(ts, lo, j) } else { i },
            None => i,
        }
    } else {
        i
    }
}

/// A word of a number list.
pub open spec fn numeral_kind(k: KindView) -> bool {
    k is Number || k is Float || k is Complex
}

/// The first word from `k` (before `hi`) that is not a numeral.
pub open spec fn first_non_numeral(ts: Seq<TokenView>, k: int, hi: int) -> Option<int>
    decreases hi - k,
{
    if k < 0 || k >= hi || k >= ts.len() {
        None
    } else if numeral_kind(ts[k].kind) {
        first_non_numeral(ts, k + 1, hi)
    } else {
        Some(k)
    }
}

/// Whether words `lo .. hi` hold a float or complex numeral.
pub open spec fn has_float(ts: Seq<TokenView>, lo: int, hi: int) -> bool {
    exists|k: int| lo <= k < hi && (#[trigger] ts[k].kind is Float || ts[k].kind is Complex)
}

/// The integers of number words `lo .. hi`.
pub open spec fn numbers_of(ts: Seq<TokenView>, lo: int, hi: int) -> Seq<i64> {
    ts.subrange(lo, hi).map_values(|t: TokenView| number_of(t.kind))
}

/// The error for a float or complex value: this library computes on
/// integers only.
pub open spec fn float_error() -> JErrorView {
    err_view(JErrorKind::Domain, None, "floating-point values are not supported"@)
}

/// The error for a name with no value.
pub open spec fn undefined_name(name: Seq<char>, span: Span) -> JErrorView {
    err_view(JErrorKind::Value, Some(span), "undefined name: '"@ + name + "'"@)
}

/// The value of a name used as a noun.
pub open spec fn lookup_noun(
    locals: Map<Seq<char>, JVal>,
    globals: Map<Seq<char>, JVal>,
    name: Seq<char>,
    span: Span,
) -> Result<ArrayView, JErrorView> {
    match spec_lookup(locals, globals, name) {
        Some(v) => Ok(v@),
        None => Err(undefined_name(name, span)),
    }
}

/// A noun made of words `lo .. hi` that is not a parenthesised sentence: one
/// word, or a list of integers.  In a longer list the first word that is not
/// a numeral decides: a name gives its value, anything else is an error.
pub open spec fn spec_noun_list(
    locals: Map<Seq<char>, JVal>,
    globals: Map<Seq<char>, JVal>,
    ts: Seq<TokenView>,
    lo: int,
    hi: int,
) -> Result<ArrayView, JErrorView> {
    if hi <= lo {
        Err(err_view(JErrorKind::Syntax, None, "empty noun"@))
    } else if hi - lo == 1 {
        let t = ts[lo];
        match t.kind {
            KindView::Number(n) => Ok(scalar_view(n)),
            KindView::Float(_) => Err(float_error()),
            KindView::Complex(_, _) => Err(float_error()),
            KindView::Str(_) => Ok(scalar_view(0)),
            KindView::Name(name) => lookup_noun(locals, globals, name, t.span),
            KindView::Verb(v) => match spec_make_primitive(v, t.span) {
                Ok(vb) => Ok(verb_view(vb)),
                Err(e) => Err(e),
            },
            KindView::LParen => Err(err_view(JErrorKind::Syntax, Some(t.span), "unmatched parenthesis"@)),
            _ => Err(err_view(JErrorKind::Syntax, Some(t.span), "unexpected token"@)),
        }
    } else {
        match first_non_numeral(ts, lo, hi) {
            Some(k) => match ts[k].kind {
                KindView::Name(name) => lookup_noun(locals, globals, name, ts[k].span),
                _ => Err(err_view(JErrorKind::Syntax, Some(ts[k].span), "unexpected token in noun list"@)),
            },
            None => if has_float(ts, lo, hi) {
                Err(float_error())
            } else {
                Ok(vector_view(numbers_of(ts, lo, hi)))
            },
        }
    }
}

// ───────────────────────── foreigns ─────────────────────────

/// `n !: m`: `236 !: m` sets the GPU precision to 16, 32 or 64 bits and
/// answers `m`; no other foreign is implemented.
pub open spec fn spec_foreign(n: u32, m: u32) -> Result<ArrayView, JErrorView> {
    if n == 236 {
        if m == 16 || m == 32 || m == 64 {
            Ok(scalar_view(m as i64))
        } else {
            Err(err_view(JErrorKind::Domain, None, "236!:"@ + nat_text(m as nat) + " not supported (use 16, 32, or 64)"@))
        }
    } else {
        Err(err_view(JErrorKind::Domain, None, "foreign "@ + nat_text(n as nat) + "!:"@ + nat_text(m as nat) + " not implemented"@))
    }
}

// ───────────────────────── verb phrases ─────────────────────────

/// `unit` put in front of the units of a split.
pub open spec fn prepend_unit(u: (int, int), r: Result<Seq<(int, int)>, JErrorView>) -> Result<Seq<(int, int)>, JErrorView> {
    match r {
        Ok(us) => Ok(seq![u] + us),
        Err(e) => Err(e),
    }
}

/// Words `i .. hi` of a verb phrase cut into units: a verb (with the adverb
/// or conjunction after it), a name, or a parenthesised group (with the
/// conjunction after it).
pub open spec fn spec_split(ts: Seq<TokenView>, i: int, hi: int) -> Result<Seq<(int, int)>, JErrorView>
    decreases hi - i,
{
    if i < 0 || i >= hi || i >= ts.len() {
        Ok(Seq::empty())
    } else {
        match ts[i].kind {
            KindView::Verb(_) => if i + 1 < hi && (ts[i + 1].kind is Adverb || ts[i + 1].kind is Conjunction) {
                prepend_unit((i, i + 2), spec_split(ts, i + 2, hi))
            } else {
                prepend_unit((i, i + 1), spec_split(ts, i + 1, hi))
            },
            KindView::Name(_) => prepend_unit((i, i + 1), spec_split(ts, i + 1, hi)),
            KindView::LParen => match matching_paren(ts, i, hi) {
                Some(c) => if i < c < hi {
                    if c + 1 < hi && ts[c + 1].kind is Conjunction {
                        prepend_unit((i, c + 2), spec_split(ts, c + 2, hi))
                    } else {
                        prepend_unit((i, c + 1), spec_split(ts, c + 1, hi))
                    }
                } else {
                    Err(err_view(JErrorKind::Syntax, Some(ts[i].span), "unmatched '('"@))
                },
                None => Err(err_view(JErrorKind::Syntax, Some(ts[i].span), "unmatched '('"@)),
            },
            KindView::Adverb(_) => Err(err_view(JErrorKind::Syntax, Some(ts[i].span), "unexpected adverb"@)),
            KindView::Conjunction(_) => Err(err_view(JErrorKind::Syntax, Some(ts[i].span), "unexpected conjunction"@)),
            _ => Err(err_view(JErrorKind::Syntax, Some(ts[i].span), "unexpected token in verb expression"@)),
        }
    }
}

/// A unit strictly inside words `lo .. hi`.
pub open spec fn inner_unit(u: (int, int), lo: int, hi: int) -> bool {
    lo <= u.0 < u.1 <= hi && u.1 - u.0 < hi - lo
}

/// The text of a verb word.
pub open spec fn word_text(k: KindView) -> Seq<char> {
    match k {
        KindView::Verb(s) => s,
        KindView::Name(s) => s,
        KindView::Adverb(s) => s,
        KindView::Conjunction(s) => s,
        _ => Seq::empty(),
    }
}

/// The verb denoted by a verb phrase, words `lo .. hi`.
pub open spec fn spec_parse_verb(
    locals: Map<Seq<char>, JVal>,
    globals: Map<Seq<char>, JVal>,
    ts: Seq<TokenView>,
    lo: int,
    hi: int,
) -> Result<Verb, JErrorView>
    decreases hi - lo,
{
    if hi <= lo || lo < 0 || hi > ts.len() {
        Err(err_view(JErrorKind::Syntax, None, "expected verb expression"@))
    } else if hi - lo == 1 {
        let t = ts[lo];
        match t.kind {
            KindView::Verb(v) => spec_make_primitive(v, t.span),
            KindView::Name(name) => match spec_lookup(locals, globals, name) {
                None => Err(undefined_name(name, t.span)),
                Some(val) => match val@.data {
                    DataView::Verb(vb) => Ok(vb),
                    _ => Err(err_view(JErrorKind::Domain, Some(t.span), "'"@ + name + "' is not a verb"@)),
                },
            },
            _ => Err(err_view(JErrorKind::Syntax, Some(t.span), "expected verb"@)),
        }
    } else if ts[lo].kind is LParen && matching_paren(ts, lo, hi) == Some(hi - 1) {
        spec_parse_verb(locals, globals, ts, lo + 1, hi - 1)
    } else if hi - lo == 2 && ts[lo].kind is Verb && ts[lo + 1].kind is Adverb {
        match spec_make_primitive(word_text(ts[lo].kind), ts[lo].span) {
            Err(e) => Err(e),
            Ok(u) => {
                let adv = word_text(ts[lo + 1].kind);
                if adv == "/"@ {
                    Ok(Verb::Slash(Slash { u: Box::new(u) }))
                } else {
                    Err(err_view(JErrorKind::Syntax, Some(ts[lo + 1].span), "unknown adverb: '"@ + adv + "'"@))
                }
            },
        }
    } else if hi - lo == 2 && ts[lo].kind is Verb && ts[lo + 1].kind is Conjunction {
        match spec_make_primitive(word_text(ts[lo].kind), ts[lo].span) {
            Err(e) => Err(e),
            Ok(u) => {
                let conj = word_text(ts[lo + 1].kind);
                if conj == "t."@ {
                    Ok(Verb::Tco(Tco { u: Box::new(u) }))
                } else {
                    Err(err_view(JErrorKind::Syntax, Some(ts[lo + 1].span), "unknown conjunction: '"@ + conj + "'"@))
                }
            },
        }
    } else {
        match spec_split(ts, lo, hi) {
            Err(e) => Err(e),
            Ok(us) => if us.len() == 3 && inner_unit(us[0], lo, hi) && inner_unit(us[1], lo, hi)
                && inner_unit(us[2], lo, hi) {
                match spec_parse_verb(locals, globals, ts, us[0].0, us[0].1) {
                    Err(e) => Err(e),
                    Ok(f) => match spec_parse_verb(locals, globals, ts, us[1].0, us[1].1) {
                        Err(e) => Err(e),
                        Ok(g) => match spec_parse_verb(locals, globals, ts, us[2].0, us[2].1) {
                            Err(e) => Err(e),
                            Ok(h) => Ok(Verb::Fork(Fork { f: Box::new(f), g: Box::new(g), h: Box::new(h) })),
                        },
                    },
                }
            } else if us.len() == 1 && inner_unit(us[0], lo, hi) {
                spec_parse_verb(locals, globals, ts, us[0].0, us[0].1)
            } else {
                Err(err_view(JErrorKind::Syntax, Some(ts[lo].span.spec_merge(ts[hi - 1].span)), "cannot parse verb expression"@))
            },
        }
    }
}

// ───────────────────────── sentences ─────────────────────────

/// A noun, words `lo .. hi`: a parenthesised sentence or a noun list.
pub open spec fn spec_noun_expr(
    locals: Map<Seq<char>, JVal>,
    globals: Map<Seq<char>, JVal>,
    ts: Seq<TokenView>,
    lo: int,
    hi: int,
) -> Result<ArrayView, JErrorView>
    decreases hi - lo, 1int,
{
    if hi <= lo || lo < 0 || hi > ts.len() {
        Err(err_view(JErrorKind::Syntax, None, "empty noun"@))
    } else if ts[lo].kind is LParen && matching_paren(ts, lo, hi) == Some(hi - 1) && lo < hi - 1 {
        spec_rtl(locals, globals, ts, lo + 1, hi - 1)
    } else {
        spec_noun_list(locals, globals, ts, lo, hi)
    }
}

/// Whether a name is bound to a verb.
pub open spec fn name_is_verb(
    locals: Map<Seq<char>, JVal>,
    globals: Map<Seq<char>, JVal>,
    name: Seq<char>,
) -> bool {
    match spec_lookup(locals, globals, name) {
        Some(v) => v@.data is Verb,
        None => false,
    }
}

/// Whether a word ends a noun standing left of a verb: a numeral, a string,
/// a `)`, or a name that is not bound to a verb.
pub open spec fn left_noun_end(
    locals: Map<Seq<char>, JVal>,
    globals: Map<Seq<char>, JVal>,
    k: KindView,
) -> bool {
    match k {
        KindView::Name(name) => !name_is_verb(locals, globals, name),
        _ => ends_noun(k),
    }
}

/// Where the verb unit that ends at `end` starts: a verb with the adverb or
/// conjunction after it, a parenthesised group with the conjunction after
/// it, or one word.
pub open spec fn unit_start(ts: Seq<TokenView>, lo: int, end: int) -> int {
    let k = end - 1;
    if k > lo && ts[k].kind is Adverb && ts[k - 1].kind is Verb {
        k - 1
    } else if k > lo && ts[k].kind is Conjunction && ts[k - 1].kind is Verb {
        k - 1
    } else if k > lo && ts[k].kind is Conjunction && ts[k - 1].kind is RParen {
        match open_back(ts, lo, k - 1, 1) {
            Some(j) => j,
            None => k,
        }
    } else {
        k
    }
}

/// The verbs of words `lo .. end` applied, right to left, to the value `w`
/// at their right: each verb unit is applied to the value so far, as a dyad
/// when a noun stands at its left (that noun is its left argument) and as a
/// monad otherwise.
pub open spec fn spec_apply(
    locals: Map<Seq<char>, JVal>,
    globals: Map<Seq<char>, JVal>,
    ts: Seq<TokenView>,
    lo: int,
    end: int,
    w: ArrayView,
) -> Result<ArrayView, JErrorView>
    decreases end - lo, 3int,
{
    if end <= lo || lo < 0 || end > ts.len() {
        Err(err_view(JErrorKind::Syntax, None, "expected verb expression"@))
    } else {
        let vs = unit_start(ts, lo, end);
        if lo <= vs < end {
            match spec_parse_verb(locals, globals, ts, vs, end) {
                Err(e) => Err(e),
                Ok(v) => if vs == lo {
                    spec_rank1ex(v, w, verb_monad_rank(v))
                } else if left_noun_end(locals, globals, ts[vs - 1].kind) {
                    let ls = noun_start_from(ts, lo, vs);
                    if lo <= ls < vs {
                        match spec_noun_expr(locals, globals, ts, ls, vs) {
                            Err(e) => Err(e),
                            Ok(a) => match spec_rank2ex(v, a, w, verb_dyad_rank(v).0, verb_dyad_rank(v).1) {
                                Err(e) => Err(e),
                                Ok(r) => if ls == lo { Ok(r) } else { spec_apply(locals, globals, ts, lo, ls, r) },
                            },
                        }
                    } else {
                        Err(err_view(JErrorKind::Syntax, None, "empty noun"@))
                    }
                } else {
                    match spec_rank1ex(v, w, verb_monad_rank(v)) {
                        Err(e) => Err(e),
                        Ok(r) => spec_apply(locals, globals, ts, lo, vs, r),
                    }
                },
            }
        } else {
            Err(err_view(JErrorKind::Syntax, None, "expected verb expression"@))
        }
    }
}

/// A sentence without assignment, words `lo .. hi`, read right to left:
/// a sentence that ends with a verb denotes that verb phrase; otherwise the
/// noun at the right end is evaluated and the words before it are applied
/// to it, as one verb when they form one (a primitive, `u/`, `u t.`, a
/// fork), else verb by verb (see `spec_apply`).
pub open spec fn spec_rtl(
    locals: Map<Seq<char>, JVal>,
    globals: Map<Seq<char>, JVal>,
    ts: Seq<TokenView>,
    lo: int,
    hi: int,
) -> Result<ArrayView, JErrorView>
    decreases hi - lo, 2int,
{
    if hi <= lo || lo < 0 || hi > ts.len() {
        Err(err_view(JErrorKind::Syntax, None, "empty expression"@))
    } else if ts[lo].kind is Foreign {
        let arg = if hi - lo > 1 { spec_rtl(locals, globals, ts, lo + 1, hi) } else { Ok(scalar_view(0)) };
        match arg {
            Err(e) => Err(e),
            Ok(_) => match ts[lo].kind {
                KindView::Foreign(n, m) => spec_foreign(n, m),
                _ => Err(float_error()),
            },
        }
    } else if !ends_noun(ts[hi - 1].kind) {
        match spec_parse_verb(locals, globals, ts, lo, hi) {
            Ok(v) => Ok(verb_view(v)),
            Err(e) => Err(e),
        }
    } else {
        let ns = noun_start_from(ts, lo, hi);
        if lo <= ns < hi {
            match spec_noun_expr(locals, globals, ts, ns, hi) {
                Err(e) => Err(e),
                Ok(w) => if ns == lo {
                    Ok(w)
                } else if w.typ == JType::Verb {
                    match spec_parse_verb(locals, globals, ts, lo, ns) {
                        Ok(v) => Ok(verb_view(v)),
                        Err(e) => Err(e),
                    }
                } else {
                    match spec_parse_verb(locals, globals, ts, lo, ns) {
                        Ok(v) => spec_rank1ex(v, w, verb_monad_rank(v)),
                        Err(_) => spec_apply(locals, globals, ts, lo, ns, w),
                    }
                },
            }
        } else {
            Err(err_view(JErrorKind::Syntax, None, "empty noun"@))
        }
    }
}

// ───────────────────────── assignment ─────────────────────────

/// Where the sentence after the leading `name =:` pairs starts.
pub open spec fn chain_start(ts: Seq<TokenView>, lo: int, hi: int) -> int
    decreases hi - lo,
{
    if 0 <= lo && hi - lo >= 3 && hi <= ts.len() && ts[lo].kind is Name && ts[lo + 1].kind is Assign {
        chain_start(ts, lo + 2, hi)
    } else {
        lo
    }
}

/// The names of the leading `name =:` pairs, left to right.
pub open spec fn chain_names(ts: Seq<TokenView>, lo: int, hi: int) -> Seq<Seq<char>>
    decreases hi - lo,
{
    if 0 <= lo && hi - lo >= 3 && hi <= ts.len() && ts[lo].kind is Name && ts[lo + 1].kind is Assign {
        seq![word_text(ts[lo].kind)] + chain_names(ts, lo + 2, hi)
    } else {
        Seq::empty()
    }
}

/// `g` with each of `names` bound to `v` (the last name first).
pub open spec fn bind_all(g: Map<Seq<char>, JVal>, names: Seq<Seq<char>>, v: JVal) -> Map<Seq<char>, JVal>
    decreases names.len(),
{
    if names.len() == 0 {
        g
    } else {
        bind_all(g, names.drop_first(), v).insert(names[0], v)
    }
}


// ───────────────────────── laws ─────────────────────────

/// Binding names to a value binds each of them to it and leaves every other
/// name as it was.
pub proof fn bind_all_binds(g: Map<Seq<char>, JVal>, names: Seq<Seq<char>>, v: JVal, k: Seq<char>)
    ensures
        names.contains(k) ==> bind_all(g, names, v).contains_key(k) && bind_all(g, names, v)[k] == v,
        !names.contains(k) ==> bind_all(g, names, v).contains_key(k) == g.contains_key(k)
            && bind_all(g, names, v)[k] == g[k],
    decreases names.len(),
{
    if names.len() > 0 {
        bind_all_binds(g, names.drop_first(), v, k);
        if names.contains(k) && names[0] != k {
            let j = choose|j: int| 0 <= j < names.len() && names[j] == k;
            assert(names.drop_first()[j - 1] == k);
        }
        if !names.contains(k) {
            assert forall|j: int| 0 <= j < names.drop_first().len() implies names.drop_first()[j] != k by {
                assert(names.drop_first()[j] == names[j + 1]);
            }
        }
    }
}

/// What a sentence binds can be read back: after `name =: ... =: sentence`
/// has value `v`, the sentence `name` (for any of its names that no local
/// name hides) has that value.
#[verifier::rlimit(30)]
pub proof fn assigned_name_reads_back(
    locals: Map<Seq<char>, JVal>,
    globals: Map<Seq<char>, JVal>,
    names: Seq<Seq<char>>,
    v: JVal,
    name: Seq<char>,
    span: Span,
)
    requires
        names.contains(name),
        !locals.contains_key(name),
    ensures
        spec_rtl(locals, bind_all(globals, names, v), seq![TokenView { kind: KindView::Name(name), span }], 0, 1) == Ok::<ArrayView, JErrorView>(v@),
{
    bind_all_binds(globals, names, v, name);
    let g = bind_all(globals, names, v);
    let ts = seq![TokenView { kind: KindView::Name(name), span }];
    assert(spec_lookup(locals, g, name) == Some(v));
    assert(lookup_noun(locals, g, name, span) == Ok::<ArrayView, JErrorView>(v@));
    assert(spec_noun_list(locals, g, ts, 0, 1) == Ok::<ArrayView, JErrorView>(v@));
    assert(spec_noun_expr(locals, g, ts, 0, 1) == Ok::<ArrayView, JErrorView>(v@));
    assert(noun_start_from(ts, 0, 0) == 0);
    assert(noun_start_from(ts, 0, 1) == 0);
}

// ───────────────────────── executable: helpers ─────────────────────────

/// An index option, as an integer option.
pub open spec fn opt_int(o: Option<usize>) -> Option<int> {
    match o {
        Some(k) => Some(k as int),
        None => None,
    }
}

/// The primitive verb spelled `name`; an unknown spelling is a value error
/// at `span`.
pub fn make_primitive(name: &str, span: &Span) -> (r: JResult<VerbBox>)
    ensures
        verb_res(r) == spec_make_primitive(name@, *span),
{
    let v = if str_eq(name, "+") {
        Verb::Plus(Plus)
    } else if str_eq(name, "-") {
        Verb::Minus(Minus)
    } else if str_eq(name, "*") {
        Verb::Star(Star)
    } else if str_eq(name, "%") {
        Verb::Percent(Percent)
    } else if str_eq(name, "|") {
        Verb::Bar(Bar)
    } else if str_eq(name, "#") {
        Verb::Hash(crate::verbs::Hash)
    } else if str_eq(name, "$") {
        Verb::Dollar(Dollar)
    } else if str_eq(name, "<") {
        Verb::Lt(Lt)
    } else if str_eq(name, ">") {
        Verb::Gt(Gt)
    } else if str_eq(name, "<:") {
        Verb::Le(Le)
    } else if str_eq(name, ">:") {
        Verb::Ge(Ge)
    } else if str_eq(name, "=") {
        Verb::Eq(crate::verbs::Eq)
    } else if str_eq(name, "~:") {
        Verb::Ne(Ne)
    } else if str_eq(name, "i.") {
        Verb::Iota(Iota)
    } else {
        let msg = concat3("unknown verb: '", name, "'");
        return Err(JError::from_chars(JErrorKind::Value, Some(*span), msg));
    };
    Ok(Box::new(v))
}

/// The index of the `)` matching the `(` at `start`, searching up to `hi`.
fn find_matching_paren(tokens: &[Token], start: usize, hi: usize) -> (r: Option<usize>)
    requires
        start < hi <= tokens@.len(),
        tokens@[start as int].kind is LParen,
    ensures
        opt_int(r) == matching_paren(token_views(tokens@), start as int, hi as int),
        r matches Some(c) ==> start < c < hi,
{
    let ghost ts = token_views(tokens@);
    let mut depth: usize = 0;
    let mut k = start;
    while k < hi
        invariant
            start <= k <= hi <= tokens@.len(),
            ts == token_views(tokens@),
            tokens@[start as int].kind is LParen,
            matching_paren(ts, start as int, hi as int) == matching_from(ts, k as int, hi as int, depth as nat),
            k == start ==> depth == 0,
            k > start ==> depth >= 1,
            depth <= k - start,
        decreases hi - k,
    {
        proof {
            assert(ts[k as int] == tokens@[k as int]@);
        }
        match &tokens[k].kind {
            TokenKind::LParen => {
                depth += 1;
            },
            TokenKind::RParen => {
                if depth <= 1 {
                    return Some(k);
                }
                depth -= 1;
            },
            _ => {},
        }
        k += 1;
    }
    None
}

/// The `(` that closes one open `)`, searching left from `j0` down to `lo`.
fn open_paren_back(tokens: &[Token], lo: usize, j0: usize) -> (r: Option<usize>)
    requires
        lo <= j0 <= tokens@.len(),
        j0 < usize::MAX,
    ensures
        opt_int(r) == open_back(token_views(tokens@), lo as int, j0 as int, 1),
        r matches Some(j) ==> lo <= j < j0,
{
    let ghost ts = token_views(tokens@);
    let mut depth: usize = 1;
    let mut j = j0;
    while j > lo
        invariant
            lo <= j <= j0 <= tokens@.len(),
            ts == token_views(tokens@),
            open_back(ts, lo as int, j0 as int, 1) == open_back(ts, lo as int, j as int, depth as nat),
            1 <= depth <= j0 - j + 1,
            j0 < usize::MAX,
        decreases j - lo,
    {
        j -= 1;
        proof {
            assert(ts[j as int] == tokens@[j as int]@);
        }
        match &tokens[j].kind {
            TokenKind::RParen => {
                depth += 1;
            },
            TokenKind::LParen => {
                if depth <= 1 {
                    return Some(j);
                }
                depth -= 1;
            },
            _ => {},
        }
    }
    None
}

/// Where the noun at the right end of words `lo .. hi` starts.
fn find_noun_start(tokens: &[Token], lo: usize, hi: usize) -> (r: usize)
    requires
        lo <= hi <= tokens@.len(),
    ensures
        r == noun_start_from(token_views(tokens@), lo as int, hi as int),
        lo <= r <= hi,
{
    let ghost ts = token_views(tokens@);
    let mut i = hi;
    while i > lo
        invariant
            lo <= i <= hi <= tokens@.len(),
            ts == token_views(tokens@),
            noun_start_from(ts, lo as int, hi as int) == noun_start_from(ts, lo as int, i as int),
        decreases i - lo,
    {
        proof {
            assert(ts[i - 1] == tokens@[i - 1]@);
        }
        match &tokens[i - 1].kind {
            TokenKind::Number(_) | TokenKind::Float(_) | TokenKind::Complex(_, _) | TokenKind::Str(_)
            | TokenKind::Name(_) => {
                i -= 1;
            },
            TokenKind::RParen => {
                match open_paren_back(tokens, lo, i - 1) {
                    Some(j) => {
                        i = j;
                    },
                    None => {
                        return i;
                    },
                }
            },
            _ => {
                return i;
            },
        }
    }
    i
}

/// `n !: m`.
fn eval_foreign(n: u32, m: u32) -> (r: JResult<JVal>)
    ensures
        res_view(r) == spec_foreign(n, m),
        r matches Ok(v) ==> wf(v@),
{
    if n == 236 {
        if m == 16 || m == 32 || m == 64 {
            Ok(JArray::scalar_int(m as i64))
        } else {
            let msg = concat3("236!:", usize_to_string(m as usize).as_str(), " not supported (use 16, 32, or 64)");
            Err(JError::from_chars(JErrorKind::Domain, None, msg))
        }
    } else {
        let head = concat3("foreign ", usize_to_string(n as usize).as_str(), "!:");
        let msg = concat3(head.as_str(), usize_to_string(m as usize).as_str(), " not implemented");
        Err(JError::from_chars(JErrorKind::Domain, None, msg))
    }
}


/// Index pairs, as integer pairs.
pub open spec fn units_view(v: Seq<(usize, usize)>) -> Seq<(int, int)> {
    v.map_values(|u: (usize, usize)| (u.0 as int, u.1 as int))
}

/// What a split's result holds.
pub open spec fn units_res(r: JResult<Vec<(usize, usize)>>) -> Result<Seq<(int, int)>, JErrorView> {
    match r {
        Ok(us) => Ok(units_view(us@)),
        Err(e) => Err(e@),
    }
}

/// `acc` put in front of the units of a split.
pub open spec fn prepend_units(acc: Seq<(int, int)>, r: Result<Seq<(int, int)>, JErrorView>) -> Result<Seq<(int, int)>, JErrorView> {
    match r {
        Ok(us) => Ok(acc + us),
        Err(e) => Err(e),
    }
}

/// Units that lie in order, without overlap, inside `lo .. hi`, none empty.
pub open spec fn units_ordered(us: Seq<(usize, usize)>, lo: int, hi: int) -> bool {
    &&& forall|k: int| 0 <= k < us.len() ==> lo <= (#[trigger] us[k]).0 < us[k].1 <= hi
    &&& forall|k: int, l: int| 0 <= k < l < us.len() ==> (#[trigger] us[k]).1 <= (#[trigger] us[l]).0
}

/// Cuts words `lo .. hi` of a verb phrase into units.
fn split_into_verb_units(tokens: &[Token], lo: usize, hi: usize) -> (r: JResult<Vec<(usize, usize)>>)
    requires
        lo <= hi <= tokens@.len(),
    ensures
        units_res(r) == spec_split(token_views(tokens@), lo as int, hi as int),
        r matches Ok(us) ==> units_ordered(us@, lo as int, hi as int),
{
    let ghost ts = token_views(tokens@);
    let mut out: Vec<(usize, usize)> = Vec::new();
    let mut i = lo;
    proof {
        assert forall|x: Result<Seq<(int, int)>, JErrorView>| prepend_units(Seq::empty(), x) == x by {
            match x {
                Ok(v) => {
                    assert(Seq::<(int, int)>::empty() + v =~= v);
                },
                Err(_) => {},
            }
        }
        assert(units_view(out@) =~= Seq::<(int, int)>::empty());
    }
    while i < hi
        invariant
            lo <= i <= hi <= tokens@.len(),
            ts == token_views(tokens@),
            spec_split(ts, lo as int, hi as int) == prepend_units(units_view(out@), spec_split(ts, i as int, hi as int)),
            units_ordered(out@, lo as int, i as int),
        decreases hi - i,
    {
        proof {
            assert(ts[i as int] == tokens@[i as int]@);
        }
        let e: usize = match &tokens[i].kind {
            TokenKind::Verb(_) => {
                if i + 1 < hi {
                    proof {
                        assert(ts[i + 1] == tokens@[i + 1]@);
                    }
                }
                if i + 1 < hi && (matches!(tokens[i + 1].kind, TokenKind::Adverb(_))
                    || matches!(tokens[i + 1].kind, TokenKind::Conjunction(_))) {
                    i + 2
                } else {
                    i + 1
                }
            },
            TokenKind::Name(_) => i + 1,
            TokenKind::LParen => {
                match find_matching_paren(tokens, i, hi) {
                    Some(c) => {
                        if c + 1 < hi {
                            proof {
                                assert(ts[c + 1] == tokens@[c + 1]@);
                            }
                        }
                        if c + 1 < hi && matches!(tokens[c + 1].kind, TokenKind::Conjunction(_)) {
                            c + 2
                        } else {
                            c + 1
                        }
                    },
                    None => {
                        return Err(JError::new(JErrorKind::Syntax, Some(tokens[i].span), "unmatched '('"));
                    },
                }
            },
            TokenKind::Adverb(_) => {
                return Err(JError::new(JErrorKind::Syntax, Some(tokens[i].span), "unexpected adverb"));
            },
            TokenKind::Conjunction(_) => {
                return Err(JError::new(JErrorKind::Syntax, Some(tokens[i].span), "unexpected conjunction"));
            },
            _ => {
                return Err(JError::new(JErrorKind::Syntax, Some(tokens[i].span), "unexpected token in verb expression"));
            },
        };
        let ghost before = out@;
        out.push((i, e));
        proof {
            assert(units_view(out@) =~= units_view(before).push((i as int, e as int)));
            match spec_split(ts, e as int, hi as int) {
                Ok(v) => {
                    assert(units_view(before) + (seq![(i as int, e as int)] + v) =~= units_view(before).push((i as int, e as int)) + v);
                },
                Err(_) => {},
            }
            assert forall|k: int, l: int| 0 <= k < l < out@.len() implies (#[trigger] out@[k]).1 <= (#[trigger] out@[l]).0 by {
                if l < before.len() {
                    assert(out@[k] == before[k]);
                    assert(out@[l] == before[l]);
                } else {
                    assert(out@[k] == before[k]);
                }
            }
            assert forall|k: int| 0 <= k < out@.len() implies lo <= (#[trigger] out@[k]).0 < out@[k].1 <= e by {
                if k < before.len() {
                    assert(out@[k] == before[k]);
                }
            }
        }
        i = e;
    }
    proof {
        assert(units_view(out@) + Seq::<(int, int)>::empty() =~= units_view(out@));
    }
    Ok(out)
}


/// The error for a name with no value.
fn undefined_name_err(name: &str, span: Span) -> (e: JError)
    ensures
        e@ == undefined_name(name@, span),
{
    JError::from_chars(JErrorKind::Value, Some(span), concat3("undefined name: '", name, "'"))
}

/// The verb denoted by the verb phrase in words `lo .. hi`.
fn parse_verb_expr(interp: &Interpreter, tokens: &[Token], lo: usize, hi: usize) -> (r: JResult<VerbBox>)
    requires
        lo <= hi <= tokens@.len(),
    ensures
        verb_res(r) == spec_parse_verb(interp.thread.locsyms@, interp.shared.global@, token_views(tokens@), lo as int, hi as int),
    decreases hi - lo,
{
    let ghost ts = token_views(tokens@);
    if hi <= lo {
        return Err(JError::no_loc(JErrorKind::Syntax, "expected verb expression"));
    }
    proof {
        assert(ts[lo as int] == tokens@[lo as int]@);
    }
    if hi - lo == 1 {
        let t = &tokens[lo];
        return match &t.kind {
            TokenKind::Verb(v) => make_primitive(v.as_str(), &t.span),
            TokenKind::Name(name) => match interp.lookup(name.as_str()) {
                None => Err(undefined_name_err(name.as_str(), t.span)),
                Some(val) => match val.as_verb() {
                    Some(vb) => Ok(Box::new(vb.duplicate())),
                    None => Err(JError::from_chars(JErrorKind::Domain, Some(t.span), concat3("'", name.as_str(), "' is not a verb"))),
                },
            },
            _ => Err(JError::new(JErrorKind::Syntax, Some(t.span), "expected verb")),
        };
    }
    if matches!(tokens[lo].kind, TokenKind::LParen) {
        match find_matching_paren(tokens, lo, hi) {
            Some(close) => {
                if close == hi - 1 {
                    return parse_verb_expr(interp, tokens, lo + 1, close);
                }
            },
            None => {},
        }
    }
    if hi - lo == 2 {
        proof {
            assert(ts[lo + 1] == tokens@[lo + 1]@);
        }
        match (&tokens[lo].kind, &tokens[lo + 1].kind) {
            (TokenKind::Verb(v), TokenKind::Adverb(adv)) => {
                let u = match make_primitive(v.as_str(), &tokens[lo].span) {
                    Ok(u) => u,
                    Err(e) => {
                        return Err(e);
                    },
                };
                return if str_eq(adv.as_str(), "/") {
                    Ok(Box::new(Verb::Slash(Slash { u })))
                } else {
                    Err(JError::from_chars(JErrorKind::Syntax, Some(tokens[lo + 1].span), concat3("unknown adverb: '", adv.as_str(), "'")))
                };
            },
            (TokenKind::Verb(v), TokenKind::Conjunction(conj)) => {
                let u = match make_primitive(v.as_str(), &tokens[lo].span) {
                    Ok(u) => u,
                    Err(e) => {
                        return Err(e);
                    },
                };
                return if str_eq(conj.as_str(), "t.") {
                    Ok(Box::new(Verb::Tco(Tco { u })))
                } else {
                    Err(JError::from_chars(JErrorKind::Syntax, Some(tokens[lo + 1].span), concat3("unknown conjunction: '", conj.as_str(), "'")))
                };
            },
            _ => {},
        }
    }
    let units = match split_into_verb_units(tokens, lo, hi) {
        Ok(us) => us,
        Err(e) => {
            return Err(e);
        },
    };
    if units.len() == 3 {
        let (a0, b0) = units[0];
        let (a1, b1) = units[1];
        let (a2, b2) = units[2];
        proof {
            assert(units@[0].1 <= units@[1].0);
            assert(units@[1].1 <= units@[2].0);
            assert(units_view(units@)[0] == (a0 as int, b0 as int));
            assert(units_view(units@)[1] == (a1 as int, b1 as int));
            assert(units_view(units@)[2] == (a2 as int, b2 as int));
        }
        let f = match parse_verb_expr(interp, tokens, a0, b0) {
            Ok(f) => f,
            Err(e) => {
                return Err(e);
            },
        };
        let g = match parse_verb_expr(interp, tokens, a1, b1) {
            Ok(g) => g,
            Err(e) => {
                return Err(e);
            },
        };
        let h = match parse_verb_expr(interp, tokens, a2, b2) {
            Ok(h) => h,
            Err(e) => {
                return Err(e);
            },
        };
        return Ok(Box::new(Verb::Fork(Fork { f, g, h })));
    }
    if units.len() == 1 {
        let (a0, b0) = units[0];
        proof {
            assert(units_view(units@)[0] == (a0 as int, b0 as int));
        }
        if b0 - a0 < hi - lo {
            return parse_verb_expr(interp, tokens, a0, b0);
        }
    }
    proof {
        assert(ts[hi - 1] == tokens@[hi - 1]@);
    }
    let span = tokens[lo].span.merge(&tokens[hi - 1].span);
    Err(JError::new(JErrorKind::Syntax, Some(span), "cannot parse verb expression"))
}


/// The value of a name used as a noun, or a value error at `span`.
fn lookup_noun_exec(interp: &Interpreter, name: &str, span: Span) -> (r: JResult<JVal>)
    requires
        interp.wf(),
    ensures
        res_view(r) == lookup_noun(interp.thread.locsyms@, interp.shared.global@, name@, span),
        r matches Ok(v) ==> wf(v@),
{
    match interp.lookup(name) {
        Some(v) => Ok(v),
        None => Err(undefined_name_err(name, span)),
    }
}

/// A noun list, words `lo .. hi`.
fn eval_noun_list(interp: &Interpreter, tokens: &[Token], lo: usize, hi: usize) -> (r: JResult<JVal>)
    requires
        lo <= hi <= tokens@.len(),
        interp.wf(),
    ensures
        res_view(r) == spec_noun_list(interp.thread.locsyms@, interp.shared.global@, token_views(tokens@), lo as int, hi as int),
        r matches Ok(v) ==> wf(v@),
{
    let ghost ts = token_views(tokens@);
    if hi <= lo {
        return Err(JError::no_loc(JErrorKind::Syntax, "empty noun"));
    }
    proof {
        assert(ts[lo as int] == tokens@[lo as int]@);
    }
    if hi - lo == 1 {
        let t = &tokens[lo];
        return match &t.kind {
            TokenKind::Number(n) => Ok(JArray::scalar_int(*n)),
            TokenKind::Float(_) => Err(float_err()),
            TokenKind::Complex(_, _) => Err(float_err()),
            TokenKind::Str(_) => Ok(JArray::scalar_int(0)),
            TokenKind::Name(name) => lookup_noun_exec(interp, name.as_str(), t.span),
            TokenKind::Verb(v) => match make_primitive(v.as_str(), &t.span) {
                Ok(vb) => Ok(JArray::from_verb(vb)),
                Err(e) => Err(e),
            },
            TokenKind::LParen => Err(JError::new(JErrorKind::Syntax, Some(t.span), "unmatched parenthesis")),
            _ => Err(JError::new(JErrorKind::Syntax, Some(t.span), "unexpected token")),
        };
    }
    let mut k = lo;
    let mut fl = false;
    while k < hi && (matches!(tokens[k].kind, TokenKind::Number(_)) || matches!(tokens[k].kind, TokenKind::Float(_))
        || matches!(tokens[k].kind, TokenKind::Complex(_, _)))
        invariant
            lo <= k <= hi <= tokens@.len(),
            ts == token_views(tokens@),
            first_non_numeral(ts, lo as int, hi as int) == first_non_numeral(ts, k as int, hi as int),
            fl == (exists|m: int| lo <= m < k && (#[trigger] ts[m].kind is Float || ts[m].kind is Complex)),
            forall|m: int| lo <= m < k ==> (#[trigger] ts[m]).kind is Number || ts[m].kind is Float || ts[m].kind is Complex,
        decreases hi - k,
    {
        proof {
            assert(ts[k as int] == tokens@[k as int]@);
        }
        if !matches!(tokens[k].kind, TokenKind::Number(_)) {
            fl = true;
        }
        k += 1;
    }
    if k < hi {
        proof {
            assert(ts[k as int] == tokens@[k as int]@);
        }
        return match &tokens[k].kind {
            TokenKind::Name(name) => lookup_noun_exec(interp, name.as_str(), tokens[k].span),
            _ => Err(JError::new(JErrorKind::Syntax, Some(tokens[k].span), "unexpected token in noun list")),
        };
    }
    if fl {
        return Err(float_err());
    }
    let mut data: Vec<i64> = Vec::new();
    let mut m = lo;
    while m < hi
        invariant
            lo <= m <= hi <= tokens@.len(),
            ts == token_views(tokens@),
            data@ =~= ts.subrange(lo as int, m as int).map_values(|t: TokenView| number_of(t.kind)),
        decreases hi - m,
    {
        proof {
            assert(ts[m as int] == tokens@[m as int]@);
        }
        let x: i64 = match &tokens[m].kind {
            TokenKind::Number(n) => *n,
            _ => 0,
        };
        data.push(x);
        proof {
            assert(ts.subrange(lo as int, m + 1) =~= ts.subrange(lo as int, m as int).push(ts[m as int]));
        }
        m += 1;
    }
    Ok(JArray::vector_int(data))
}

/// The error for a float or complex value.
fn float_err() -> (e: JError)
    ensures
        e@ == float_error(),
{
    JError::no_loc(JErrorKind::Domain, "floating-point values are not supported")
}

/// A noun, words `lo .. hi`: a parenthesised sentence or a noun list.
fn eval_noun_expr(interp: &Interpreter, tokens: &[Token], lo: usize, hi: usize) -> (r: JResult<JVal>)
    requires
        lo <= hi <= tokens@.len(),
        interp.wf(),
    ensures
        res_view(r) == spec_noun_expr(interp.thread.locsyms@, interp.shared.global@, token_views(tokens@), lo as int, hi as int),
        r matches Ok(v) ==> wf(v@),
    decreases hi - lo, 1int,
{
    if hi <= lo {
        return Err(JError::no_loc(JErrorKind::Syntax, "empty noun"));
    }
    if matches!(tokens[lo].kind, TokenKind::LParen) {
        match find_matching_paren(tokens, lo, hi) {
            Some(close) => {
                if close == hi - 1 {
                    return eval_rtl(interp, tokens, lo + 1, close);
                }
            },
            None => {},
        }
    }
    eval_noun_list(interp, tokens, lo, hi)
}

/// A sentence without assignment, words `lo .. hi`, read right to left.
fn eval_rtl(interp: &Interpreter, tokens: &[Token], lo: usize, hi: usize) -> (r: JResult<JVal>)
    requires
        lo <= hi <= tokens@.len(),
        interp.wf(),
    ensures
        res_view(r) == spec_rtl(interp.thread.locsyms@, interp.shared.global@, token_views(tokens@), lo as int, hi as int),
        r matches Ok(v) ==> wf(v@),
    decreases hi - lo, 2int,
{
    let ghost ts = token_views(tokens@);
    if hi <= lo {
        return Err(JError::no_loc(JErrorKind::Syntax, "empty expression"));
    }
    proof {
        assert(ts[lo as int] == tokens@[lo as int]@);
        assert(ts[hi - 1] == tokens@[hi - 1]@);
    }
    if let TokenKind::Foreign(n, m) = &tokens[lo].kind {
        let arg = if hi - lo > 1 { eval_rtl(interp, tokens, lo + 1, hi) } else { Ok(JArray::scalar_int(0)) };
        return match arg {
            Err(e) => Err(e),
            Ok(_) => eval_foreign(*n, *m),
        };
    }
    let ends = match &tokens[hi - 1].kind {
        TokenKind::Number(_) | TokenKind::Float(_) | TokenKind::Complex(_, _) | TokenKind::Name(_)
        | TokenKind::Str(_) | TokenKind::RParen => true,
        _ => false,
    };
    if !ends {
        return match parse_verb_expr(interp, tokens, lo, hi) {
            Ok(vb) => Ok(JArray::from_verb(vb)),
            Err(e) => Err(e),
        };
    }
    let ns = find_noun_start(tokens, lo, hi);
    let w = match eval_noun_expr(interp, tokens, ns, hi) {
        Ok(w) => w,
        Err(e) => {
            return Err(e);
        },
    };
    if ns == lo {
        return Ok(w);
    }
    if w.is_verb() {
        return match parse_verb_expr(interp, tokens, lo, ns) {
            Ok(vb) => Ok(JArray::from_verb(vb)),
            Err(e) => Err(e),
        };
    }
    match parse_verb_expr(interp, tokens, lo, ns) {
        Ok(verb) => {
            let rank = verb.monad_rank();
            rank1ex(&verb, interp, &w, rank)
        },
        Err(_) => apply_verbs(interp, tokens, lo, ns, &w),
    }
}

/// Where the verb unit that ends at `end` starts (see `unit_start`).
fn find_unit_start(tokens: &[Token], lo: usize, end: usize) -> (r: usize)
    requires
        lo < end <= tokens@.len(),
    ensures
        r == unit_start(token_views(tokens@), lo as int, end as int),
        lo <= r < end,
{
    let ghost ts = token_views(tokens@);
    let k = end - 1;
    proof {
        assert(ts[k as int] == tokens@[k as int]@);
        if k > lo {
            assert(ts[k - 1] == tokens@[k - 1]@);
        }
    }
    if k > lo && matches!(tokens[k].kind, TokenKind::Adverb(_)) && matches!(tokens[k - 1].kind, TokenKind::Verb(_)) {
        k - 1
    } else if k > lo && matches!(tokens[k].kind, TokenKind::Conjunction(_)) && matches!(tokens[k - 1].kind, TokenKind::Verb(_)) {
        k - 1
    } else if k > lo && matches!(tokens[k].kind, TokenKind::Conjunction(_)) && matches!(tokens[k - 1].kind, TokenKind::RParen) {
        match open_paren_back(tokens, lo, k - 1) {
            Some(j) => j,
            None => k,
        }
    } else {
        k
    }
}

/// Whether word `k` ends a noun standing left of a verb (see
/// `left_noun_end`).
fn is_left_noun_end(interp: &Interpreter, tokens: &[Token], k: usize) -> (r: bool)
    requires
        k < tokens@.len(),
    ensures
        r == left_noun_end(interp.thread.locsyms@, interp.shared.global@, token_views(tokens@)[k as int].kind),
{
    proof {
        assert(token_views(tokens@)[k as int] == tokens@[k as int]@);
    }
    match &tokens[k].kind {
        TokenKind::Name(name) => match interp.lookup(name.as_str()) {
            Some(v) => v.as_verb().is_none(),
            None => true,
        },
        TokenKind::Number(_) | TokenKind::Float(_) | TokenKind::Complex(_, _) | TokenKind::Str(_)
        | TokenKind::RParen => true,
        _ => false,
    }
}

/// The verbs of words `lo .. end` applied right to left to `w` (see
/// `spec_apply`).
fn apply_verbs(interp: &Interpreter, tokens: &[Token], lo: usize, end: usize, w: &JVal) -> (r: JResult<JVal>)
    requires
        lo <= end <= tokens@.len(),
        interp.wf(),
        wf(w@),
    ensures
        res_view(r) == spec_apply(interp.thread.locsyms@, interp.shared.global@, token_views(tokens@), lo as int, end as int, w@),
        r matches Ok(v) ==> wf(v@),
    decreases end - lo, 3int,
{
    if end <= lo {
        return Err(JError::no_loc(JErrorKind::Syntax, "expected verb expression"));
    }
    let vs = find_unit_start(tokens, lo, end);
    let verb = match parse_verb_expr(interp, tokens, vs, end) {
        Ok(v) => v,
        Err(e) => {
            return Err(e);
        },
    };
    if vs == lo {
        let rank = verb.monad_rank();
        return rank1ex(&verb, interp, w, rank);
    }
    if is_left_noun_end(interp, tokens, vs - 1) {
        let ls = find_noun_start(tokens, lo, vs);
        if ls >= vs {
            return Err(JError::no_loc(JErrorKind::Syntax, "empty noun"));
        }
        let a = match eval_noun_expr(interp, tokens, ls, vs) {
            Ok(a) => a,
            Err(e) => {
                return Err(e);
            },
        };
        let (lr, rr) = verb.dyad_rank();
        let r = match rank2ex(&verb, interp, &a, w, lr, rr) {
            Ok(r) => r,
            Err(e) => {
                return Err(e);
            },
        };
        if ls == lo {
            Ok(r)
        } else {
            apply_verbs(interp, tokens, lo, ls, &r)
        }
    } else {
        let rank = verb.monad_rank();
        let r = match rank1ex(&verb, interp, w, rank) {
            Ok(r) => r,
            Err(e) => {
                return Err(e);
            },
        };
        apply_verbs(interp, tokens, lo, vs, &r)
    }
}


/// A sentence from word `lo` on, with its leading `name =:` pairs.
fn eval_from(interp: &mut Interpreter, tokens: &[Token], lo: usize) -> (r: JResult<JVal>)
    requires
        lo <= tokens@.len(),
        old(interp).wf(),
    ensures
        res_view(r) == spec_rtl(old(interp).thread.locsyms@, old(interp).shared.global@, token_views(tokens@),
            chain_start(token_views(tokens@), lo as int, tokens@.len() as int), tokens@.len() as int),
        r matches Ok(v) ==> wf(v@) && final(interp).shared.global@ == bind_all(old(interp).shared.global@,
            chain_names(token_views(tokens@), lo as int, tokens@.len() as int), v),
        r is Err ==> final(interp).shared.global@ == old(interp).shared.global@,
        final(interp).thread.locsyms@ == old(interp).thread.locsyms@,
        final(interp).thread.current_locale@ == old(interp).thread.current_locale@,
        final(interp).shared.search_path@ == old(interp).shared.search_path@,
        final(interp).sources@ == old(interp).sources@,
        final(interp).wf(),
    decreases tokens@.len() - lo,
{
    let ghost ts = token_views(tokens@);
    let n = tokens.len();
    if n - lo >= 3 {
        proof {
            assert(ts[lo as int] == tokens@[lo as int]@);
            assert(ts[lo + 1] == tokens@[lo + 1]@);
        }
        if let TokenKind::Name(name) = &tokens[lo].kind {
            if matches!(tokens[lo + 1].kind, TokenKind::Assign) {
                let ghost g0 = interp.shared.global@;
                let val = match eval_from(interp, tokens, lo + 2) {
                    Ok(v) => v,
                    Err(e) => {
                        return Err(e);
                    },
                };
                let ghost inner = chain_names(ts, lo + 2, n as int);
                interp.assign_global(string_of(name.as_str()), share(&val));
                proof {
                    let names = chain_names(ts, lo as int, n as int);
                    assert(names =~= seq![name@] + inner);
                    assert(names.drop_first() =~= inner);
                    assert(values_wf(interp.shared.global@));
                }
                return Ok(val);
            }
        }
    }
    let r = eval_rtl(interp, tokens, lo, n);
    proof {
        assert(chain_names(ts, lo as int, n as int) =~= Seq::<Seq<char>>::empty());
    }
    r
}

/// Evaluates a sentence.
///
/// `name =: sentence` binds `name` globally to the sentence's value and
/// answers it (`a =: b =: 3` binds both); nothing is bound when the sentence
/// fails.  Otherwise the sentence is read right to left (see `spec_rtl`),
/// with the names as they were bound before the call.
pub fn eval(interp: &mut Interpreter, tokens: &[Token]) -> (r: JResult<JVal>)
    requires
        old(interp).wf(),
    ensures
        res_view(r) == spec_rtl(old(interp).thread.locsyms@, old(interp).shared.global@, token_views(tokens@),
            chain_start(token_views(tokens@), 0, tokens@.len() as int), tokens@.len() as int),
        r matches Ok(v) ==> wf(v@) && final(interp).shared.global@ == bind_all(old(interp).shared.global@,
            chain_names(token_views(tokens@), 0, tokens@.len() as int), v),
        r is Err ==> final(interp).shared.global@ == old(interp).shared.global@,
        final(interp).thread.locsyms@ == old(interp).thread.locsyms@,
        final(interp).thread.current_locale@ == old(interp).thread.current_locale@,
        final(interp).shared.search_path@ == old(interp).shared.search_path@,
        final(interp).sources@ == old(interp).sources@,
        final(interp).wf(),
{
    eval_from(interp, tokens, 0)
}


// ───────────────────────── one line of the REPL ─────────────────────────

/// What entering a line gives: a value to show, a value bound by an
/// assignment (not shown), or an error.
pub enum LineOutcome {
    Show(JVal),
    Assigned(JVal),
    Failed(JError),
}

/// Whether the second word of a line is `=:` (such a line shows nothing).
pub open spec fn is_assign_line(ts: Seq<TokenView>) -> bool {
    ts.len() >= 2 && ts[1].kind is Assign
}

/// Runs one line: records it as the latest source, splits it into words and
/// evaluates them.  A line whose second word is `=:` shows nothing.
pub fn run_line(interp: &mut Interpreter, input: &str) -> (r: LineOutcome)
    requires
        old(interp).wf(),
        vstd::utf8::encode_utf8(input@).len() < usize::MAX,
    ensures
        final(interp).wf(),
        final(interp).sources@.len() == old(interp).sources@.len() + 1,
        final(interp).sources@.last()@ == input@,
        forall|i: int| 0 <= i < old(interp).sources@.len() ==> #[trigger] final(interp).sources@[i] == old(interp).sources@[i],
        final(interp).thread.locsyms@ == old(interp).thread.locsyms@,
        final(interp).thread.current_locale@ == old(interp).thread.current_locale@,
        final(interp).shared.search_path@ == old(interp).shared.search_path@,
        match crate::token::lex(input@) {
            Err(e) => r matches LineOutcome::Failed(x) && x@ == e
                && final(interp).shared.global@ == old(interp).shared.global@,
            Ok(ts) => match spec_rtl(old(interp).thread.locsyms@, old(interp).shared.global@, ts,
                chain_start(ts, 0, ts.len() as int), ts.len() as int) {
                Err(e) => r matches LineOutcome::Failed(x) && x@ == e
                    && final(interp).shared.global@ == old(interp).shared.global@,
                Ok(a) => {
                    &&& r matches LineOutcome::Show(v) ==> v@ == a && !is_assign_line(ts)
                        && final(interp).shared.global@ == bind_all(old(interp).shared.global@, chain_names(ts, 0, ts.len() as int), v)
                    &&& r matches LineOutcome::Assigned(v) ==> v@ == a && is_assign_line(ts)
                        && final(interp).shared.global@ == bind_all(old(interp).shared.global@, chain_names(ts, 0, ts.len() as int), v)
                    &&& !(r is Failed)
                },
            },
        },
{
    let source_id = interp.sources.len();
    interp.push_source(string_of(input));
    match crate::token::tokenize(input, source_id) {
        Err(e) => LineOutcome::Failed(e),
        Ok(tokens) => {
            let ghost ts = token_views(tokens@);
            let is_assign = tokens.len() >= 2 && matches!(tokens[1].kind, TokenKind::Assign);
            proof {
                if tokens@.len() >= 2 {
                    assert(ts[1] == tokens@[1]@);
                }
            }
            match eval(interp, tokens.as_slice()) {
                Ok(v) => if is_assign {
                    LineOutcome::Assigned(v)
                } else {
                    LineOutcome::Show(v)
                },
                Err(e) => LineOutcome::Failed(e),
            }
        },
    }
}

} // verus!
