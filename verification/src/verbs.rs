//! J's verbs and how they apply to arrays of any rank.
//!
//! A verb is a primitive (`i.`, `+`, `-`, `*`, `%`, `|`, `$`, `#`, `<`, `>`,
//! `<:`, `>:`, `=`, `~:`), a derived verb (`u/`, `u t.`) or a fork
//! `(f g h)`.  `rank1ex` and `rank2ex` apply a verb at its rank, splitting the
//! arguments into cells along their leading axis and assembling the results
//! (J's DF1RANK / DF2RANK).  Each operation's result is stated by a spec
//! function of the same structure (`spec_monad`, `spec_dyad`, ...), so that
//! the meaning of every sentence is defined on mathematical arrays.
use vstd::prelude::*;
use crate::array::{ArrayView, JArray, JData, JVal, DataView, wf, ints, is_int, scalar_view,
    vector_view, array_view, product_ok, shape_product, tally_of, checked_product, share};
use crate::error::{JError, JErrorKind, JErrorView, JResult, err_view};
use crate::interp::Interpreter;
use crate::text::{nat_text, usize_to_string, concat2, concat3};

verus! {

broadcast use vstd::string::group_string_axioms;

// ───────────────────────── verbs ─────────────────────────

/// `i.` — monad: integers (`i. n` is `0 .. n-1`; `i. 2 3` a 2-by-3 table).
pub struct Iota;
/// `+` — monad: conjugate (identity on integers); dyad: plus.
pub struct Plus;
/// `-` — monad: negate; dyad: minus.
pub struct Minus;
/// `*` — monad: signum; dyad: times.
pub struct Star;
/// `%` — monad: reciprocal; dyad: divide (integer division here).
pub struct Percent;
/// `|` — monad: magnitude; dyad: residue.
pub struct Bar;
/// `$` — monad: shape; dyad: reshape.
pub struct Dollar;
/// `#` — monad: tally.
pub struct Hash;
/// `<` — dyad: less than.
pub struct Lt;
/// `>` — dyad: greater than.
pub struct Gt;
/// `<:` — dyad: less or equal.
pub struct Le;
/// `>:` — dyad: greater or equal.
pub struct Ge;
/// `=` — dyad: equal.
pub struct Eq;
/// `~:` — dyad: not equal.
pub struct Ne;

/// `u/` — insert: folds `u` between the items of its argument, from the right.
pub struct Slash {
    pub u: VerbBox,
}

/// `u t.` — run `u` as a task; it behaves as `u`.
pub struct Tco {
    pub u: VerbBox,
}

/// `(f g h)` — fork: `(f g h) w` is `(f w) g (h w)`, and
/// `a (f g h) w` is `(a f w) g (a h w)`.
pub struct Fork {
    pub f: VerbBox,
    pub g: VerbBox,
    pub h: VerbBox,
}

/// A verb.
pub enum Verb {
    Iota(Iota),
    Plus(Plus),
    Minus(Minus),
    Star(Star),
    Percent(Percent),
    Bar(Bar),
    Dollar(Dollar),
    Hash(Hash),
    Lt(Lt),
    Gt(Gt),
    Le(Le),
    Ge(Ge),
    Eq(Eq),
    Ne(Ne),
    Slash(Slash),
    Tco(Tco),
    Fork(Fork),
}

/// Verbs are held by boxes (a verb value owns its parts).
pub type VerbBox = Box<Verb>;

/// The infinite rank: a verb of this rank takes its arguments whole.
pub open spec fn rank_inf() -> i64 {
    i64::MAX
}

/// The name of a verb.
pub open spec fn verb_name(v: Verb) -> Seq<char> {
    match v {
        Verb::Iota(_) => "i."@,
        Verb::Plus(_) => "+"@,
        Verb::Minus(_) => "-"@,
        Verb::Star(_) => "*"@,
        Verb::Percent(_) => "%"@,
        Verb::Bar(_) => "|"@,
        Verb::Dollar(_) => "$"@,
        Verb::Hash(_) => "#"@,
        Verb::Lt(_) => "<"@,
        Verb::Gt(_) => ">"@,
        Verb::Le(_) => "<:"@,
        Verb::Ge(_) => ">:"@,
        Verb::Eq(_) => "="@,
        Verb::Ne(_) => "~:"@,
        Verb::Slash(_) => "/"@,
        Verb::Tco(_) => "t."@,
        Verb::Fork(_) => "fork"@,
    }
}

/// The rank at which a verb applies as a monad: 0 for the arithmetic
/// verbs, infinite for `i.`, `$` and `#`; `u/` one more than `u`'s right
/// rank; a fork the smaller of `f`'s and `h`'s.
pub open spec fn verb_monad_rank(v: Verb) -> i64
    decreases v,
{
    match v {
        Verb::Iota(_) | Verb::Dollar(_) | Verb::Hash(_) => i64::MAX,
        Verb::Slash(s) => {
            let r = verb_dyad_rank(*s.u).1;
            if r == i64::MAX { i64::MAX } else { (r + 1) as i64 }
        },
        Verb::Tco(t) => verb_monad_rank(*t.u),
        Verb::Fork(fk) => {
            let a = verb_monad_rank(*fk.f);
            let b = verb_monad_rank(*fk.h);
            if a <= b { a } else { b }
        },
        _ => 0,
    }
}

/// The left and right ranks at which a verb applies as a dyad: 0 for the
/// arithmetic and comparison verbs, infinite otherwise; a fork takes the
/// smaller of `f`'s and `h`'s on each side.
pub open spec fn verb_dyad_rank(v: Verb) -> (i64, i64)
    decreases v,
{
    match v {
        Verb::Iota(_) | Verb::Dollar(_) | Verb::Hash(_) | Verb::Slash(_) => (i64::MAX, i64::MAX),
        Verb::Tco(t) => verb_dyad_rank(*t.u),
        Verb::Fork(fk) => {
            let (fl, fr) = verb_dyad_rank(*fk.f);
            let (hl, hr) = verb_dyad_rank(*fk.h);
            (if fl <= hl { fl } else { hl }, if fr <= hr { fr } else { hr })
        },
        _ => (0, 0),
    }
}

/// Every monad rank is 0, 1 or infinite, and every dyad rank is 0 or
/// infinite.
pub proof fn lemma_rank_values(v: Verb)
    ensures
        verb_monad_rank(v) == 0 || verb_monad_rank(v) == 1 || verb_monad_rank(v) == i64::MAX,
        verb_dyad_rank(v).0 == 0 || verb_dyad_rank(v).0 == i64::MAX,
        verb_dyad_rank(v).1 == 0 || verb_dyad_rank(v).1 == i64::MAX,
    decreases v,
{
    match v {
        Verb::Slash(s) => {
            lemma_rank_values(*s.u);
        },
        Verb::Tco(t) => {
            lemma_rank_values(*t.u);
        },
        Verb::Fork(fk) => {
            lemma_rank_values(*fk.f);
            lemma_rank_values(*fk.h);
        },
        _ => {},
    }
}

/// A verb's GPU kernel opcode for its dyad: add, sub, mul, div.
pub open spec fn verb_op_code(v: Verb) -> Option<u32>
    decreases v,
{
    match v {
        Verb::Plus(_) => Some(0u32),
        Verb::Minus(_) => Some(1u32),
        Verb::Star(_) => Some(2u32),
        Verb::Percent(_) => Some(3u32),
        Verb::Tco(t) => verb_op_code(*t.u),
        _ => None,
    }
}

/// Whether a verb accepts complex arguments (`|` and the comparisons do not).
pub open spec fn verb_supports_complex(v: Verb) -> bool
    decreases v,
{
    match v {
        Verb::Bar(_) | Verb::Lt(_) | Verb::Gt(_) | Verb::Le(_) | Verb::Ge(_) | Verb::Eq(_) | Verb::Ne(_) => false,
        Verb::Tco(t) => verb_supports_complex(*t.u),
        _ => true,
    }
}

/// Whether a verb is marked to run on a GPU: only through `t.`.
pub open spec fn verb_supports_gpu(v: Verb) -> bool
    decreases v,
{
    match v {
        Verb::Tco(_) => true,
        Verb::Slash(s) => verb_supports_gpu(*s.u),
        _ => false,
    }
}

impl Verb {
    pub fn name(&self) -> (r: &'static str)
        ensures
            r@ == verb_name(*self),
    {
        match self {
            Verb::Iota(_) => "i.",
            Verb::Plus(_) => "+",
            Verb::Minus(_) => "-",
            Verb::Star(_) => "*",
            Verb::Percent(_) => "%",
            Verb::Bar(_) => "|",
            Verb::Dollar(_) => "$",
            Verb::Hash(_) => "#",
            Verb::Lt(_) => "<",
            Verb::Gt(_) => ">",
            Verb::Le(_) => "<:",
            Verb::Ge(_) => ">:",
            Verb::Eq(_) => "=",
            Verb::Ne(_) => "~:",
            Verb::Slash(_) => "/",
            Verb::Tco(_) => "t.",
            Verb::Fork(_) => "fork",
        }
    }

    pub fn monad_rank(&self) -> (r: i64)
        ensures
            r == verb_monad_rank(*self),
        decreases self,
    {
        match self {
            Verb::Iota(_) | Verb::Dollar(_) | Verb::Hash(_) => i64::MAX,
            Verb::Slash(s) => {
                let r = s.u.dyad_rank().1;
                proof {
                    lemma_rank_values(*s.u);
                }
                if r == i64::MAX { i64::MAX } else { r + 1 }
            },
            Verb::Tco(t) => t.u.monad_rank(),
            Verb::Fork(fk) => {
                let a = fk.f.monad_rank();
                let b = fk.h.monad_rank();
                if a <= b { a } else { b }
            },
            _ => 0,
        }
    }

    pub fn dyad_rank(&self) -> (r: (i64, i64))
        ensures
            r == verb_dyad_rank(*self),
        decreases self,
    {
        match self {
            Verb::Iota(_) | Verb::Dollar(_) | Verb::Hash(_) | Verb::Slash(_) => (i64::MAX, i64::MAX),
            Verb::Tco(t) => t.u.dyad_rank(),
            Verb::Fork(fk) => {
                let (fl, fr) = fk.f.dyad_rank();
                let (hl, hr) = fk.h.dyad_rank();
                (if fl <= hl { fl } else { hl }, if fr <= hr { fr } else { hr })
            },
            _ => (0, 0),
        }
    }

    pub fn supports_complex(&self) -> (r: bool)
        ensures
            r == verb_supports_complex(*self),
        decreases self,
    {
        match self {
            Verb::Bar(_) | Verb::Lt(_) | Verb::Gt(_) | Verb::Le(_) | Verb::Ge(_) | Verb::Eq(_) | Verb::Ne(_) => false,
            Verb::Tco(t) => t.u.supports_complex(),
            _ => true,
        }
    }

    pub fn supports_gpu(&self) -> (r: bool)
        ensures
            r == verb_supports_gpu(*self),
        decreases self,
    {
        match self {
            Verb::Tco(_) => true,
            Verb::Slash(s) => s.u.supports_gpu(),
            _ => false,
        }
    }

    pub fn gpu_dyad_op_code(&self) -> (r: Option<u32>)
        ensures
            r == verb_op_code(*self),
        decreases self,
    {
        match self {
            Verb::Plus(_) => Some(0),
            Verb::Minus(_) => Some(1),
            Verb::Star(_) => Some(2),
            Verb::Percent(_) => Some(3),
            Verb::Tco(t) => t.u.gpu_dyad_op_code(),
            _ => None,
        }
    }

    /// A copy of this verb.
    pub fn duplicate(&self) -> (r: Verb)
        ensures
            r == *self,
        decreases self,
    {
        match self {
            Verb::Iota(_) => Verb::Iota(Iota),
            Verb::Plus(_) => Verb::Plus(Plus),
            Verb::Minus(_) => Verb::Minus(Minus),
            Verb::Star(_) => Verb::Star(Star),
            Verb::Percent(_) => Verb::Percent(Percent),
            Verb::Bar(_) => Verb::Bar(Bar),
            Verb::Dollar(_) => Verb::Dollar(Dollar),
            Verb::Hash(_) => Verb::Hash(Hash),
            Verb::Lt(_) => Verb::Lt(Lt),
            Verb::Gt(_) => Verb::Gt(Gt),
            Verb::Le(_) => Verb::Le(Le),
            Verb::Ge(_) => Verb::Ge(Ge),
            Verb::Eq(_) => Verb::Eq(Eq),
            Verb::Ne(_) => Verb::Ne(Ne),
            Verb::Slash(s) => Verb::Slash(Slash { u: Box::new(s.u.duplicate()) }),
            Verb::Tco(t) => Verb::Tco(Tco { u: Box::new(t.u.duplicate()) }),
            Verb::Fork(fk) => Verb::Fork(Fork {
                f: Box::new(fk.f.duplicate()),
                g: Box::new(fk.g.duplicate()),
                h: Box::new(fk.h.duplicate()),
            }),
        }
    }
}


// ───────────────────────── errors and results ─────────────────────────

/// A domain error with no place.
pub open spec fn domain(msg: Seq<char>) -> JErrorView {
    err_view(JErrorKind::Domain, None, msg)
}

/// The error for an integer result that does not fit in 64 bits.
pub open spec fn overflow_err() -> JErrorView {
    domain("integer overflow"@)
}

/// The error for cells or results whose atoms do not fill their shape.
pub open spec fn shape_err() -> JErrorView {
    domain("array shape inconsistent"@)
}

/// What a result holds, as mathematical values.
pub open spec fn res_view<T: View>(r: Result<T, JError>) -> Result<T::V, JErrorView> {
    match r {
        Ok(v) => Ok(v@),
        Err(e) => Err(e@),
    }
}

fn overflow() -> (e: JError)
    ensures
        e@ == overflow_err(),
{
    JError::no_loc(JErrorKind::Domain, "integer overflow")
}

fn shape_error() -> (e: JError)
    ensures
        e@ == shape_err(),
{
    JError::no_loc(JErrorKind::Domain, "array shape inconsistent")
}

fn domain_err(msg: &str) -> (e: JError)
    ensures
        e@ == domain(msg@),
{
    JError::no_loc(JErrorKind::Domain, msg)
}

/// The error for a result that is not an integer.
fn not_integer_err() -> (e: JError)
    ensures
        e@ == not_integer(),
{
    domain_err("floating-point values are not supported")
}

/// A length error with no place.
fn length_err(msg: &str) -> (e: JError)
    ensures
        e@ == err_view(JErrorKind::Length, None, msg@),
{
    JError::no_loc(JErrorKind::Length, msg)
}

// ───────────────────────── atom operations ─────────────────────────

/// An operation on one atom.
pub enum MonadOp {
    Ident,
    Neg,
    Signum,
    Recip,
    Abs,
}

/// An operation on a pair of atoms.
pub enum DyadOp {
    Add,
    Sub,
    Mul,
    Div,
    Residue,
    Lt,
    Gt,
    Le,
    Ge,
    Eq,
    Ne,
}

/// An integer result, or the overflow error when it does not fit in 64 bits.
pub open spec fn fit(x: int) -> Result<i64, JErrorView> {
    if i64::MIN <= x <= i64::MAX { Ok(x as i64) } else { Err(overflow_err()) }
}

/// A truth value as an integer atom.
pub open spec fn truth(b: bool) -> i64 {
    if b { 1 } else { 0 }
}

/// One atom through a monadic operation.
pub open spec fn spec_monad_op(op: MonadOp, x: i64) -> Result<i64, JErrorView> {
    match op {
        MonadOp::Ident => Ok(x),
        MonadOp::Neg => fit(-x),
        MonadOp::Signum => Ok(if x > 0 { 1i64 } else if x < 0 { -1i64 } else { 0i64 }),
        MonadOp::Recip => if x == 0 {
            Err(domain("% monad: divide by zero"@))
        } else if x == 1 || x == -1 {
            Ok(x)
        } else {
            Err(not_integer())
        },
        MonadOp::Abs => fit(if x < 0 { -x } else { x as int }),
    }
}

/// The error for a result that is not an integer (a reciprocal or quotient
/// with a fractional part): this library computes on integers only.
pub open spec fn not_integer() -> JErrorView {
    domain("floating-point values are not supported"@)
}

/// A pair of atoms through a dyadic operation: integer arithmetic (a
/// quotient only when the division is exact; the residue `x | y` is `y`
/// modulo `|x|`, from 0, and `y` itself when `x` is 0) and comparisons
/// giving 1 or 0.
pub open spec fn spec_dyad_op(op: DyadOp, x: i64, y: i64) -> Result<i64, JErrorView> {
    match op {
        DyadOp::Add => fit(x + y),
        DyadOp::Sub => fit(x - y),
        DyadOp::Mul => fit(x * y),
        DyadOp::Div => if y == 0 {
            Err(domain("% dyad: divide by zero"@))
        } else if (x as int) % (y as int) != 0 {
            Err(not_integer())
        } else {
            match x.checked_div(y) {
                Some(q) => Ok(q),
                None => Err(overflow_err()),
            }
        },
        DyadOp::Residue => if x == 0 {
            Ok(y)
        } else {
            match y.checked_rem_euclid(x) {
                Some(r) => Ok(r),
                None => Err(overflow_err()),
            }
        },
        DyadOp::Lt => Ok(truth(x < y)),
        DyadOp::Gt => Ok(truth(x > y)),
        DyadOp::Le => Ok(truth(x <= y)),
        DyadOp::Ge => Ok(truth(x >= y)),
        DyadOp::Eq => Ok(truth(x == y)),
        DyadOp::Ne => Ok(truth(x != y)),
    }
}

/// Sum, difference and product are those of the integers whenever they fit
/// in 64 bits, and an overflow error otherwise.
pub proof fn arithmetic_is_integer_arithmetic(x: i64, y: i64)
    ensures
        spec_dyad_op(DyadOp::Add, x, y) is Ok <==> i64::MIN <= x + y <= i64::MAX,
        spec_dyad_op(DyadOp::Add, x, y) matches Ok(z) ==> z == x + y,
        spec_dyad_op(DyadOp::Sub, x, y) is Ok <==> i64::MIN <= x - y <= i64::MAX,
        spec_dyad_op(DyadOp::Sub, x, y) matches Ok(z) ==> z == x - y,
        spec_dyad_op(DyadOp::Mul, x, y) is Ok <==> i64::MIN <= x * y <= i64::MAX,
        spec_dyad_op(DyadOp::Mul, x, y) matches Ok(z) ==> z == x * y,
{
}

/// `x % y` is the exact quotient: a number `q` with `q * y == x`, given
/// whenever `y` is not 0, divides `x`, and the quotient fits in 64 bits;
/// division by 0 is an error.
pub proof fn quotient_is_exact(x: i64, y: i64)
    ensures
        spec_dyad_op(DyadOp::Div, x, y) matches Ok(q) ==> y != 0 && q * y == x,
        (y != 0 && (x as int) % (y as int) == 0 && !(x == i64::MIN && y == -1))
            ==> spec_dyad_op(DyadOp::Div, x, y) is Ok,
        y == 0 ==> spec_dyad_op(DyadOp::Div, x, y) is Err,
{
    if y != 0 && (x as int) % (y as int) == 0 {
        let xi = x as int;
        let d = y as int;
        let k = xi / d;
        vstd::arithmetic::div_mod::lemma_fundamental_div_mod(xi, d);
        assert(xi == d * k);
        if xi > 0 && d > 0 {
            assert(xi / d == k);
        } else if xi < 0 && d < 0 {
            assert(-xi == (-d) * k) by (nonlinear_arith)
                requires
                    xi == d * k,
            ;
            vstd::arithmetic::div_mod::lemma_div_multiples_vanish(k, -d);
            assert((xi * -1) / (d * -1) == k);
        } else if xi < 0 {
            assert(-xi == d * (-k)) by (nonlinear_arith)
                requires
                    xi == d * k,
            ;
            vstd::arithmetic::div_mod::lemma_div_multiples_vanish(-k, d);
            assert(((xi * -1) / d) * -1 == k);
        } else if xi > 0 {
            assert(xi == (-d) * (-k)) by (nonlinear_arith)
                requires
                    xi == d * k,
            ;
            vstd::arithmetic::div_mod::lemma_div_multiples_vanish(-k, -d);
            assert((xi / (d * -1)) * -1 == k);
        } else {
            assert(k == 0) by (nonlinear_arith)
                requires
                    xi == d * k,
                    xi == 0,
                    d != 0,
            ;
        }
        assert(k * d == xi) by (nonlinear_arith)
            requires
                xi == d * k,
        ;
        if !(x == i64::MIN && y == -1) {
            assert(i64::MIN <= k <= i64::MAX) by (nonlinear_arith)
                requires
                    xi == d * k,
                    d != 0,
                    i64::MIN <= xi <= i64::MAX,
                    !(xi == i64::MIN && d == -1),
            ;
        }
    }
}

/// The residue `x | y`: `y` itself when `x` is 0; otherwise a number from 0
/// to `|x| - 1` that differs from `y` by a multiple of `x` (so `3 | -10` is
/// 2), given for every pair but the one whose quotient overflows.
pub proof fn residue_is_modulo(x: i64, y: i64)
    ensures
        x == 0 ==> spec_dyad_op(DyadOp::Residue, x, y) == Ok::<i64, JErrorView>(y),
        (x != 0 && !(x == -1 && y == i64::MIN)) ==> spec_dyad_op(DyadOp::Residue, x, y) is Ok,
        x != 0 ==> (spec_dyad_op(DyadOp::Residue, x, y) matches Ok(r) ==> {
            &&& 0 <= r
            &&& (x > 0 ==> r < x)
            &&& (x < 0 ==> r < -x)
            &&& (y as int - r as int) % (x as int) == 0
        }),
{
    if x != 0 && !(x == -1 && y == i64::MIN) {
        let xi = x as int;
        let yi = y as int;
        vstd::arithmetic::div_mod::lemma_fundamental_div_mod(yi, xi);
        let q = yi / xi;
        let r = yi % xi;
        assert(yi - r == xi * q);
        assert((xi * q) % xi == 0) by (nonlinear_arith)
            requires
                xi != 0,
        ;
    }
}

/// The comparisons give 1 when the relation holds and 0 when it does not.
pub proof fn comparisons_give_truth_values(x: i64, y: i64)
    ensures
        spec_dyad_op(DyadOp::Lt, x, y) == Ok::<i64, JErrorView>(if x < y { 1i64 } else { 0i64 }),
        spec_dyad_op(DyadOp::Gt, x, y) == Ok::<i64, JErrorView>(if y < x { 1i64 } else { 0i64 }),
        spec_dyad_op(DyadOp::Le, x, y) == Ok::<i64, JErrorView>(if y < x { 0i64 } else { 1i64 }),
        spec_dyad_op(DyadOp::Ge, x, y) == Ok::<i64, JErrorView>(if x < y { 0i64 } else { 1i64 }),
        spec_dyad_op(DyadOp::Eq, x, y) == Ok::<i64, JErrorView>(if x == y { 1i64 } else { 0i64 }),
        spec_dyad_op(DyadOp::Ne, x, y) == Ok::<i64, JErrorView>(if x == y { 0i64 } else { 1i64 }),
{
}

/// Each comparison and its converse agree: `x < y` is `y > x`, `x <: y` is
/// `y >: x`, and `=` and `~:` are symmetric and complementary.
pub proof fn comparisons_are_converse(x: i64, y: i64)
    ensures
        spec_dyad_op(DyadOp::Lt, x, y) == spec_dyad_op(DyadOp::Gt, y, x),
        spec_dyad_op(DyadOp::Le, x, y) == spec_dyad_op(DyadOp::Ge, y, x),
        spec_dyad_op(DyadOp::Eq, x, y) == spec_dyad_op(DyadOp::Eq, y, x),
        spec_dyad_op(DyadOp::Gt, x, x) == Ok::<i64, JErrorView>(0),
        spec_dyad_op(DyadOp::Lt, x, x) == Ok::<i64, JErrorView>(0),
        spec_dyad_op(DyadOp::Le, x, x) == Ok::<i64, JErrorView>(1),
        spec_dyad_op(DyadOp::Ge, x, x) == Ok::<i64, JErrorView>(1),
{
}

/// The monadic arithmetic of one atom: `+x` is `x`; `-x` is its negative and
/// `|x` its magnitude (not negative, `x` or `-x`), both given for every atom
/// but the most negative one; `*x` is its sign, 1, 0 or -1; `%x` is its
/// reciprocal, an integer only for 1 and -1, and a domain error at 0.
pub proof fn monadic_arithmetic(x: i64)
    ensures
        spec_monad_op(MonadOp::Ident, x) == Ok::<i64, JErrorView>(x),
        spec_monad_op(MonadOp::Neg, x) is Ok <==> x != i64::MIN,
        spec_monad_op(MonadOp::Neg, x) matches Ok(z) ==> z + x == 0,
        spec_monad_op(MonadOp::Abs, x) is Ok <==> x != i64::MIN,
        spec_monad_op(MonadOp::Abs, x) matches Ok(z) ==> 0 <= z && (z == x || z == -x),
        spec_monad_op(MonadOp::Signum, x) matches Ok(z) ==> {
            &&& (0 < x ==> z == 1)
            &&& (x == 0 ==> z == 0)
            &&& (x < 0 ==> z == -1)
        },
        spec_monad_op(MonadOp::Signum, x) is Ok,
        spec_monad_op(MonadOp::Recip, x) is Ok <==> (x == 1 || x == -1),
        spec_monad_op(MonadOp::Recip, x) matches Ok(z) ==> z * x == 1,
        x == 0 ==> spec_monad_op(MonadOp::Recip, x) is Err,
{
    if x == -1 {
        assert(x * x == 1);
    }
}

fn apply_monad_op(op: &MonadOp, x: i64) -> (r: JResult<i64>)
    ensures
        res_view(r) == spec_monad_op(*op, x),
{
    match op {
        MonadOp::Ident => Ok(x),
        MonadOp::Neg => if x == i64::MIN { Err(overflow()) } else { Ok(-x) },
        MonadOp::Signum => Ok(if x > 0 { 1 } else if x < 0 { -1 } else { 0 }),
        MonadOp::Recip => if x == 0 {
            Err(domain_err("% monad: divide by zero"))
        } else if x == 1 || x == -1 {
            Ok(x)
        } else {
            Err(not_integer_err())
        },
        MonadOp::Abs => if x == i64::MIN { Err(overflow()) } else if x < 0 { Ok(-x) } else { Ok(x) },
    }
}

fn apply_dyad_op(op: &DyadOp, x: i64, y: i64) -> (r: JResult<i64>)
    ensures
        res_view(r) == spec_dyad_op(*op, x, y),
{
    match op {
        DyadOp::Add => match x.checked_add(y) {
            Some(z) => Ok(z),
            None => Err(overflow()),
        },
        DyadOp::Sub => match x.checked_sub(y) {
            Some(z) => Ok(z),
            None => Err(overflow()),
        },
        DyadOp::Mul => match x.checked_mul(y) {
            Some(z) => Ok(z),
            None => Err(overflow()),
        },
        DyadOp::Div => if y == 0 {
            Err(domain_err("% dyad: divide by zero"))
        } else {
            let exact = if y == -1 {
                proof {
                    assert((x as int) % -1 == 0);
                }
                true
            } else {
                match x.checked_rem_euclid(y) {
                    Some(r) => r == 0,
                    None => true,
                }
            };
            if !exact {
                Err(not_integer_err())
            } else {
                match x.checked_div(y) {
                    Some(q) => Ok(q),
                    None => Err(overflow()),
                }
            }
        },
        DyadOp::Residue => if x == 0 {
            Ok(y)
        } else {
            match y.checked_rem_euclid(x) {
                Some(r) => Ok(r),
                None => Err(overflow()),
            }
        },
        DyadOp::Lt => Ok(if x < y { 1 } else { 0 }),
        DyadOp::Gt => Ok(if x > y { 1 } else { 0 }),
        DyadOp::Le => Ok(if x <= y { 1 } else { 0 }),
        DyadOp::Ge => Ok(if x >= y { 1 } else { 0 }),
        DyadOp::Eq => Ok(if x == y { 1 } else { 0 }),
        DyadOp::Ne => Ok(if x != y { 1 } else { 0 }),
    }
}

// ───────────────────────── element-wise application ─────────────────────────

/// The results of `f(0) .. f(n-1)`, in order, or the first error.
pub open spec fn collect_ints(f: spec_fn(int) -> Result<i64, JErrorView>, n: nat) -> Result<Seq<i64>, JErrorView>
    decreases n,
{
    if n == 0 {
        Ok(seq![])
    } else {
        match collect_ints(f, (n - 1) as nat) {
            Err(e) => Err(e),
            Ok(s) => match f(n - 1) {
                Err(e) => Err(e),
                Ok(x) => Ok(s.push(x)),
            },
        }
    }
}

/// Once an error is met, it is the result of every longer collection.
pub proof fn lemma_collect_err(f: spec_fn(int) -> Result<i64, JErrorView>, i: nat, n: nat)
    requires
        i <= n,
        collect_ints(f, i) is Err,
    ensures
        collect_ints(f, n) == collect_ints(f, i),
    decreases n - i,
{
    if i < n {
        lemma_collect_err(f, i, (n - 1) as nat);
    }
}

/// A successful collection holds `f(j)` at each place `j`.
pub proof fn lemma_collect_ok(f: spec_fn(int) -> Result<i64, JErrorView>, n: nat)
    requires
        collect_ints(f, n) is Ok,
    ensures
        collect_ints(f, n)->Ok_0.len() == n,
        forall|j: int| 0 <= j < n ==> f(j) == Ok::<i64, JErrorView>(#[trigger] collect_ints(f, n)->Ok_0[j]),
    decreases n,
{
    if n > 0 {
        lemma_collect_ok(f, (n - 1) as nat);
    }
}

/// The message of a length mismatch between atom lists.
pub open spec fn length_mismatch(a: nat, w: nat) -> JErrorView {
    err_view(JErrorKind::Length, None, "length mismatch: "@ + nat_text(a) + " vs "@ + nat_text(w))
}

/// A dyadic operation on two atom lists: pairwise when their lengths agree,
/// else a scalar (rank 0) argument extends to every atom of the other.
pub open spec fn spec_dyad_int(op: DyadOp, a: Seq<i64>, w: Seq<i64>, ar: usize, wr: usize) -> Result<Seq<i64>, JErrorView> {
    if a.len() == w.len() {
        collect_ints(|i: int| spec_dyad_op(op, a[i], w[i]), a.len())
    } else if ar == 0 {
        collect_ints(|i: int| spec_dyad_op(op, a[0], w[i]), w.len())
    } else if wr == 0 {
        collect_ints(|i: int| spec_dyad_op(op, a[i], w[0]), a.len())
    } else {
        Err(length_mismatch(a.len(), w.len()))
    }
}

/// A dyadic atom operation over two lists works atom by atom: with lists of
/// one length, atom `i` of the result is the operation on the atoms `i`; a
/// scalar argument pairs its one atom with every atom of the other; lists of
/// different lengths, neither a scalar, are a length error; and an error at
/// any pair is an error of the whole.
pub proof fn dyads_work_atom_by_atom(op: DyadOp, a: Seq<i64>, w: Seq<i64>, ar: usize, wr: usize)
    ensures
        a.len() == w.len() ==> {
            &&& (spec_dyad_int(op, a, w, ar, wr) matches Ok(r) ==> r.len() == a.len()
                && forall|i: int| 0 <= i < a.len()
                    ==> spec_dyad_op(op, a[i], w[i]) == Ok::<i64, JErrorView>(#[trigger] r[i]))
            &&& ((exists|i: int| 0 <= i < a.len() && (#[trigger] spec_dyad_op(op, a[i], w[i])) is Err)
                ==> spec_dyad_int(op, a, w, ar, wr) is Err)
        },
        (a.len() != w.len() && ar == 0) ==> (spec_dyad_int(op, a, w, ar, wr) matches Ok(r)
            ==> r.len() == w.len() && forall|i: int| 0 <= i < w.len()
                ==> spec_dyad_op(op, a[0], w[i]) == Ok::<i64, JErrorView>(#[trigger] r[i])),
        (a.len() != w.len() && ar != 0 && wr == 0) ==> (spec_dyad_int(op, a, w, ar, wr) matches Ok(r)
            ==> r.len() == a.len() && forall|i: int| 0 <= i < a.len()
                ==> spec_dyad_op(op, a[i], w[0]) == Ok::<i64, JErrorView>(#[trigger] r[i])),
        (a.len() != w.len() && ar != 0 && wr != 0) ==> spec_dyad_int(op, a, w, ar, wr) is Err,
{
    if a.len() == w.len() {
        let f = |i: int| spec_dyad_op(op, a[i], w[i]);
        if collect_ints(f, a.len()) is Ok {
            lemma_collect_ok(f, a.len());
            let r = collect_ints(f, a.len())->Ok_0;
            assert forall|i: int| 0 <= i < a.len() implies spec_dyad_op(op, a[i], w[i]) == Ok::<i64, JErrorView>(#[trigger] r[i]) by {
                assert(f(i) == Ok::<i64, JErrorView>(r[i]));
            }
            if exists|i: int| 0 <= i < a.len() && (#[trigger] spec_dyad_op(op, a[i], w[i])) is Err {
                let i = choose|i: int| 0 <= i < a.len() && (#[trigger] spec_dyad_op(op, a[i], w[i])) is Err;
                assert(spec_dyad_op(op, a[i], w[i]) == Ok::<i64, JErrorView>(r[i]));
            }
        }
    } else if ar == 0 {
        let f = |i: int| spec_dyad_op(op, a[0], w[i]);
        if collect_ints(f, w.len()) is Ok {
            lemma_collect_ok(f, w.len());
            let r = collect_ints(f, w.len())->Ok_0;
            assert forall|i: int| 0 <= i < w.len() implies spec_dyad_op(op, a[0], w[i]) == Ok::<i64, JErrorView>(#[trigger] r[i]) by {
                assert(f(i) == Ok::<i64, JErrorView>(r[i]));
            }
        }
    } else if wr == 0 {
        let f = |i: int| spec_dyad_op(op, a[i], w[0]);
        if collect_ints(f, a.len()) is Ok {
            lemma_collect_ok(f, a.len());
            let r = collect_ints(f, a.len())->Ok_0;
            assert forall|i: int| 0 <= i < a.len() implies spec_dyad_op(op, a[i], w[0]) == Ok::<i64, JErrorView>(#[trigger] r[i]) by {
                assert(f(i) == Ok::<i64, JErrorView>(r[i]));
            }
        }
    }
}

/// The length of a successful element-wise result.
pub open spec fn dyad_len(a: Seq<i64>, w: Seq<i64>, ar: usize, wr: usize) -> nat {
    if a.len() == w.len() { a.len() } else if ar == 0 { w.len() } else { a.len() }
}

fn length_mismatch_error(a: usize, w: usize) -> (e: JError)
    ensures
        e@ == length_mismatch(a as nat, w as nat),
{
    let sa = usize_to_string(a);
    let sw = usize_to_string(w);
    let m1 = concat3("length mismatch: ", sa.as_str(), " vs ");
    let m = concat2(m1.as_str(), sw.as_str());
    length_err(m.as_str())
}

/// A dyadic operation on two atom lists (see `spec_dyad_int`).
fn dyad_int(a: &Vec<i64>, w: &Vec<i64>, ar: usize, wr: usize, op: &DyadOp) -> (r: JResult<Vec<i64>>)
    requires
        ar == 0 ==> a@.len() >= 1,
        wr == 0 ==> w@.len() >= 1,
    ensures
        res_view(r) == spec_dyad_int(*op, a@, w@, ar, wr),
        r matches Ok(v) ==> v@.len() == dyad_len(a@, w@, ar, wr),
{
    let ghost f: spec_fn(int) -> Result<i64, JErrorView> =
        if a@.len() == w@.len() {
            |i: int| spec_dyad_op(*op, a@[i], w@[i])
        } else if ar == 0 {
            |i: int| spec_dyad_op(*op, a@[0], w@[i])
        } else {
            |i: int| spec_dyad_op(*op, a@[i], w@[0])
        };
    let n: usize;
    if a.len() == w.len() {
        n = a.len();
    } else if ar == 0 {
        n = w.len();
    } else if wr == 0 {
        n = a.len();
    } else {
        return Err(length_mismatch_error(a.len(), w.len()));
    }
    let mut out: Vec<i64> = Vec::new();
    let mut i: usize = 0;
    while i < n
        invariant
            i <= n,
            n == dyad_len(a@, w@, ar, wr),
            a@.len() == w@.len() || ar == 0 || wr == 0,
            ar == 0 ==> a@.len() >= 1,
            wr == 0 ==> w@.len() >= 1,
            f == (if a@.len() == w@.len() {
                |i: int| spec_dyad_op(*op, a@[i], w@[i])
            } else if ar == 0 {
                |i: int| spec_dyad_op(*op, a@[0], w@[i])
            } else {
                |i: int| spec_dyad_op(*op, a@[i], w@[0])
            }),
            collect_ints(f, i as nat) == Ok::<Seq<i64>, JErrorView>(out@),
            out@.len() == i,
        decreases n - i,
    {
        let x = if a.len() == w.len() || ar != 0 { a[i] } else { a[0] };
        let y = if a.len() == w.len() || ar == 0 { w[i] } else { w[0] };
        let r = apply_dyad_op(op, x, y);
        assert(f(i as int) == spec_dyad_op(*op, x, y));
        match r {
            Ok(z) => {
                out.push(z);
            },
            Err(e) => {
                proof {
                    lemma_collect_err(f, (i + 1) as nat, n as nat);
                }
                return Err(e);
            },
        }
        i += 1;
    }
    Ok(out)
}

/// The atoms of a list through a monadic operation, or the first error.
pub open spec fn spec_map_int(op: MonadOp, d: Seq<i64>) -> Result<Seq<i64>, JErrorView> {
    collect_ints(|i: int| spec_monad_op(op, d[i]), d.len())
}

fn map_int(d: &Vec<i64>, op: &MonadOp) -> (r: JResult<Vec<i64>>)
    ensures
        res_view(r) == spec_map_int(*op, d@),
        r matches Ok(v) ==> v@.len() == d@.len(),
{
    let ghost f = |i: int| spec_monad_op(*op, d@[i]);
    let mut out: Vec<i64> = Vec::new();
    let mut i: usize = 0;
    while i < d.len()
        invariant
            i <= d@.len(),
            f == (|i: int| spec_monad_op(*op, d@[i])),
            collect_ints(f, i as nat) == Ok::<Seq<i64>, JErrorView>(out@),
            out@.len() == i,
        decreases d@.len() - i,
    {
        let r = apply_monad_op(op, d[i]);
        match r {
            Ok(z) => {
                out.push(z);
            },
            Err(e) => {
                proof {
                    lemma_collect_err(f, (i + 1) as nat, d@.len());
                }
                return Err(e);
            },
        }
        i += 1;
    }
    Ok(out)
}

// ───────────────────────── result arrays ─────────────────────────

/// The array of an element-wise dyadic result: a scalar for one atom, a
/// vector when neither argument is above rank 1, else the shape of the
/// argument of higher rank.
pub open spec fn spec_make_int(d: Seq<i64>, a: ArrayView, w: ArrayView) -> ArrayView {
    if d.len() == 1 {
        scalar_view(d[0])
    } else if a.rank <= 1 && w.rank <= 1 {
        vector_view(d)
    } else {
        array_view(if a.rank >= w.rank { a.shape } else { w.shape }, d)
    }
}

/// The array of an element-wise monadic result: the argument's shape.
pub open spec fn spec_make_int_from(d: Seq<i64>, src: ArrayView) -> ArrayView {
    if src.rank == 0 {
        scalar_view(d[0])
    } else if src.rank == 1 {
        vector_view(d)
    } else {
        array_view(src.shape, d)
    }
}

fn make_int(data: Vec<i64>, a: &JVal, w: &JVal) -> (r: JVal)
    requires
        wf(a@),
        wf(w@),
        is_int(a@),
        is_int(w@),
        data@.len() == 1 || (a@.rank <= 1 && w@.rank <= 1)
            || data@.len() == (if a@.rank >= w@.rank { a@.count } else { w@.count }),
    ensures
        r@ == spec_make_int(data@, a@, w@),
        wf(r@),
{
    if data.len() == 1 {
        JArray::scalar_int(data[0])
    } else if a.rank <= 1 && w.rank <= 1 {
        JArray::vector_int(data)
    } else {
        let s = if a.rank >= w.rank { copy_shape(&a.shape) } else { copy_shape(&w.shape) };
        JArray::array_int(s, data)
    }
}

fn make_int_from(data: Vec<i64>, src: &JVal) -> (r: JVal)
    requires
        wf(src@),
        is_int(src@),
        data@.len() == src@.count,
    ensures
        r@ == spec_make_int_from(data@, src@),
        wf(r@),
{
    if src.rank == 0 {
        JArray::scalar_int(data[0])
    } else if src.rank == 1 {
        JArray::vector_int(data)
    } else {
        JArray::array_int(copy_shape(&src.shape), data)
    }
}

/// A copy of a shape.
fn copy_shape(s: &Vec<usize>) -> (r: Vec<usize>)
    ensures
        r@ == s@,
{
    let mut r: Vec<usize> = Vec::new();
    let mut i: usize = 0;
    while i < s.len()
        invariant
            i <= s@.len(),
            r@ == s@.subrange(0, i as int),
        decreases s@.len() - i,
    {
        r.push(s[i]);
        i += 1;
        proof {
            assert(r@ =~= s@.subrange(0, i as int));
        }
    }
    proof {
        assert(s@.subrange(0, s@.len() as int) =~= s@);
    }
    r
}

/// A monadic atom operation over an array (the verb's rank is 0, but it is
/// applied to whole arrays too): same shape, or the first error.
pub open spec fn spec_numeric_monad(op: MonadOp, w: ArrayView, msg: Seq<char>) -> Result<ArrayView, JErrorView> {
    match w.data {
        DataView::Integer(d) => match spec_map_int(op, d) {
            Err(e) => Err(e),
            Ok(r) => Ok(spec_make_int_from(r, w)),
        },
        DataView::Verb(_) => Err(domain(msg)),
    }
}

/// A dyadic atom operation over two arrays (see `spec_dyad_int`).
pub open spec fn spec_numeric_dyad(op: DyadOp, a: ArrayView, w: ArrayView, msg: Seq<char>) -> Result<ArrayView, JErrorView> {
    match (a.data, w.data) {
        (DataView::Integer(ad), DataView::Integer(wd)) => match spec_dyad_int(op, ad, wd, a.rank, w.rank) {
            Err(e) => Err(e),
            Ok(r) => Ok(spec_make_int(r, a, w)),
        },
        _ => Err(domain(msg)),
    }
}

fn numeric_monad(op: &MonadOp, w: &JVal, msg: &str) -> (r: JResult<JVal>)
    requires
        wf(w@),
    ensures
        res_view(r) == spec_numeric_monad(*op, w@, msg@),
        r matches Ok(v) ==> wf(v@),
{
    match &w.data {
        JData::Integer(d) => match map_int(d, op) {
            Err(e) => Err(e),
            Ok(r) => Ok(make_int_from(r, w)),
        },
        JData::Verb(_) => Err(domain_err(msg)),
    }
}

fn numeric_dyad(op: &DyadOp, a: &JVal, w: &JVal, msg: &str) -> (r: JResult<JVal>)
    requires
        wf(a@),
        wf(w@),
    ensures
        res_view(r) == spec_numeric_dyad(*op, a@, w@, msg@),
        r matches Ok(v) ==> wf(v@),
{
    match (&a.data, &w.data) {
        (JData::Integer(ad), JData::Integer(wd)) => match dyad_int(ad, wd, a.rank, w.rank, op) {
            Err(e) => Err(e),
            Ok(r) => Ok(make_int(r, a, w)),
        },
        _ => Err(domain_err(msg)),
    }
}


// ───────────────────────── structural verbs ─────────────────────────

/// A machine size from a dimension atom: negative atoms count as zero.
pub open spec fn dim_of(x: i64) -> usize {
    if x < 0 { 0usize } else { x as usize }
}

/// The integers `0 .. n-1`.
pub open spec fn ramp(n: nat) -> Seq<i64> {
    Seq::new(n, |i: int| i as i64)
}

/// `i. w`: for a scalar `n`, the vector `0 .. n-1`; for a vector of
/// dimensions, the array of that shape holding `0, 1, 2, ...` (negative
/// dimensions count as zero).
pub open spec fn spec_iota(w: ArrayView) -> Result<ArrayView, JErrorView> {
    match w.data {
        DataView::Verb(_) => Err(domain("i. requires integer argument"@)),
        DataView::Integer(d) => if w.rank == 0 {
            let n = d[0];
            if n < 0 {
                Err(domain("i. requires non-negative integer"@))
            } else if n > usize::MAX {
                Err(overflow_err())
            } else {
                Ok(vector_view(ramp(n as nat)))
            }
        } else if w.rank == 1 {
            let shape = Seq::new(d.len(), |i: int| dim_of(d[i]));
            if !product_ok(shape) || shape_product(shape) > i64::MAX {
                Err(overflow_err())
            } else {
                Ok(array_view(shape, ramp(shape_product(shape))))
            }
        } else {
            Err(domain("i. requires scalar or vector argument"@))
        },
    }
}

fn ramp_vec(n: usize) -> (r: Vec<i64>)
    requires
        n <= i64::MAX,
    ensures
        r@ == ramp(n as nat),
{
    let mut r: Vec<i64> = Vec::new();
    let mut i: usize = 0;
    while i < n
        invariant
            i <= n <= i64::MAX,
            r@ =~= ramp(i as nat),
        decreases n - i,
    {
        r.push(i as i64);
        i += 1;
        proof {
            assert(r@ =~= ramp(i as nat));
        }
    }
    r
}

fn dims_of(d: &Vec<i64>) -> (r: Vec<usize>)
    ensures
        r@ == Seq::new(d@.len(), |i: int| dim_of(d@[i])),
{
    let mut r: Vec<usize> = Vec::new();
    let mut i: usize = 0;
    while i < d.len()
        invariant
            i <= d@.len(),
            r@ =~= Seq::new(i as nat, |t: int| dim_of(d@[t])),
        decreases d@.len() - i,
    {
        let x = d[i];
        r.push(if x < 0 { 0usize } else { x as usize });
        i += 1;
        proof {
            assert(r@ =~= Seq::new(i as nat, |t: int| dim_of(d@[t])));
        }
    }
    r
}

fn iota_monad(w: &JVal) -> (r: JResult<JVal>)
    requires
        wf(w@),
    ensures
        res_view(r) == spec_iota(w@),
        r matches Ok(v) ==> wf(v@),
{
    match &w.data {
        JData::Verb(_) => Err(domain_err("i. requires integer argument")),
        JData::Integer(d) => {
            if w.rank == 0 {
                let n = d[0];
                if n < 0 {
                    Err(domain_err("i. requires non-negative integer"))
                } else if n as u64 > usize::MAX as u64 {
                    Err(overflow())
                } else {
                    Ok(JArray::vector_int(ramp_vec(n as usize)))
                }
            } else if w.rank == 1 {
                let shape = dims_of(d);
                match checked_product(&shape) {
                    None => Err(overflow()),
                    Some(p) => {
                        if p as u64 > i64::MAX as u64 {
                            Err(overflow())
                        } else {
                            let data = ramp_vec(p);
                            Ok(JArray::array_int(shape, data))
                        }
                    },
                }
            } else {
                Err(domain_err("i. requires scalar or vector argument"))
            }
        },
    }
}

/// `$ w`: the shape of `w` as a vector (empty for a scalar).
pub open spec fn spec_shape_of(w: ArrayView) -> ArrayView {
    if w.rank == 0 {
        vector_view(seq![])
    } else {
        vector_view(Seq::new(w.shape.len(), |i: int| w.shape[i] as i64))
    }
}

fn shape_of(w: &JVal) -> (r: JVal)
    requires
        wf(w@),
    ensures
        r@ == spec_shape_of(w@),
        wf(r@),
{
    let mut v: Vec<i64> = Vec::new();
    if w.rank == 0 {
        proof {
            assert(v@ =~= seq![]);
        }
        return JArray::vector_int(v);
    }
    let mut i: usize = 0;
    while i < w.shape.len()
        invariant
            i <= w.shape@.len(),
            v@ =~= Seq::new(i as nat, |t: int| w.shape@[t] as i64),
        decreases w.shape@.len() - i,
    {
        v.push(w.shape[i] as i64);
        i += 1;
        proof {
            assert(v@ =~= Seq::new(i as nat, |t: int| w.shape@[t] as i64));
        }
    }
    JArray::vector_int(v)
}

/// `a $ w`: the array of shape `a` (negative dimensions count as zero) that
/// holds the atoms of `w` repeated cyclically.
pub open spec fn spec_reshape(a: ArrayView, w: ArrayView) -> Result<ArrayView, JErrorView> {
    match a.data {
        DataView::Verb(_) => Err(domain("$ requires integer shape"@)),
        DataView::Integer(sv) => {
            let ns = Seq::new(sv.len(), |i: int| dim_of(sv[i]));
            if !product_ok(ns) {
                Err(overflow_err())
            } else {
                match w.data {
                    DataView::Integer(wv) => if wv.len() == 0 {
                        Err(domain("$ reshape: empty source"@))
                    } else {
                        Ok(array_view(ns, Seq::new(shape_product(ns), |i: int| wv[i % (wv.len() as int)])))
                    },
                    DataView::Verb(_) => Err(domain("$ requires numeric source"@)),
                }
            }
        },
    }
}

fn reshape(a: &JVal, w: &JVal) -> (r: JResult<JVal>)
    requires
        wf(a@),
        wf(w@),
    ensures
        res_view(r) == spec_reshape(a@, w@),
        r matches Ok(v) ==> wf(v@),
{
    let sv = match a.as_int() {
        Some(sv) => sv,
        None => {
            return Err(domain_err("$ requires integer shape"));
        },
    };
    let ns = dims_of(sv);
    let p = match checked_product(&ns) {
        Some(p) => p,
        None => {
            return Err(overflow());
        },
    };
    let nc = p;
    match &w.data {
        JData::Integer(wv) => {
            if wv.len() == 0 {
                return Err(domain_err("$ reshape: empty source"));
            }
            let len = wv.len();
            let mut data: Vec<i64> = Vec::new();
            let mut i: usize = 0;
            while i < nc
                invariant
                    i <= nc,
                    len == wv@.len(),
                    len > 0,
                    data@ =~= Seq::new(i as nat, |t: int| wv@[t % (len as int)]),
                decreases nc - i,
            {
                data.push(wv[i % len]);
                i += 1;
                proof {
                    assert(data@ =~= Seq::new(i as nat, |t: int| wv@[t % (len as int)]));
                }
            }
            Ok(JArray::array_int(ns, data))
        },
        JData::Verb(_) => Err(domain_err("$ requires numeric source")),
    }
}

// ───────────────────────── cells ─────────────────────────

/// The shape of an item of `w`: `w`'s shape without its leading dimension
/// (none for a scalar or a vector).
pub open spec fn cell_shape(w: ArrayView) -> Seq<usize> {
    if w.rank <= 1 { seq![] } else { w.shape.subrange(1, w.shape.len() as int) }
}

/// Whether `w` splits into cells of `cs` atoms each: integer data, cells of
/// at least one atom when they are scalars, and exactly the item shape's atom
/// count from rank 2 on.
pub open spec fn cells_ok(w: ArrayView, cs: nat) -> bool {
    &&& is_int(w)
    &&& (cell_shape(w).len() == 0 ==> cs >= 1)
    &&& (cell_shape(w).len() >= 2 ==> product_ok(cell_shape(w)) && cs == shape_product(cell_shape(w)))
}

/// Cell `i` of `w`: atoms `i*cs .. i*cs+cs`, with the item shape.
pub open spec fn spec_cell(w: ArrayView, i: nat, cs: nat) -> ArrayView {
    let s = ints(w).subrange((i * cs) as int, (i * cs + cs) as int);
    let sh = cell_shape(w);
    if sh.len() == 0 {
        scalar_view(s[0])
    } else if sh.len() == 1 {
        vector_view(s)
    } else {
        array_view(sh, s)
    }
}

/// Cells laid side by side stay within the atoms.
pub proof fn lemma_cell_bound(count: nat, leading: nat, i: nat)
    requires
        leading > 0,
        i < leading,
    ensures
        (i + 1) * (count / leading) <= count,
        i * (count / leading) + count / leading == (i + 1) * (count / leading),
{
    let q = count / leading;
    vstd::arithmetic::div_mod::lemma_fundamental_div_mod(count as int, leading as int);
    assert((i + 1) * q <= leading * q) by (nonlinear_arith)
        requires i + 1 <= leading, q >= 0;
    assert(i * q + q == (i + 1) * q) by (nonlinear_arith);
}

fn cells_ok_exec(w: &JVal, cs: usize) -> (r: bool)
    requires
        wf(w@),
    ensures
        r == cells_ok(w@, cs as nat),
{
    if w.as_int().is_none() {
        return false;
    }
    if w.rank <= 1 {
        return cs >= 1;
    }
    if w.rank == 2 {
        return true;
    }
    let sh = tail_shape(&w.shape);
    match checked_product(&sh) {
        None => false,
        Some(p) => cs == p,
    }
}

/// A shape without its leading dimension.
fn tail_shape(s: &Vec<usize>) -> (r: Vec<usize>)
    requires
        s@.len() >= 1,
    ensures
        r@ == s@.subrange(1, s@.len() as int),
{
    let mut r: Vec<usize> = Vec::new();
    let mut i: usize = 1;
    while i < s.len()
        invariant
            1 <= i <= s@.len(),
            r@ =~= s@.subrange(1, i as int),
        decreases s@.len() - i,
    {
        r.push(s[i]);
        i += 1;
        proof {
            assert(r@ =~= s@.subrange(1, i as int));
        }
    }
    r
}

/// Cell `i` of `w`, of `cell_size` atoms (see `spec_cell`).
pub fn extract_cell(w: &JVal, i: usize, cell_size: usize) -> (r: JVal)
    requires
        wf(w@),
        cells_ok(w@, cell_size as nat),
        (i + 1) * cell_size <= w@.count,
    ensures
        r@ == spec_cell(w@, i as nat, cell_size as nat),
        wf(r@),
{
    proof {
        assert(i * cell_size + cell_size == (i + 1) * cell_size) by (nonlinear_arith);
        assert(i * cell_size <= (i + 1) * cell_size) by (nonlinear_arith);
    }
    let start = i * cell_size;
    let end = start + cell_size;
    let v = match &w.data {
        JData::Integer(v) => v,
        JData::Verb(_) => {
            assert(false);
            return JArray::scalar_int(0);
        },
    };
    let mut s: Vec<i64> = Vec::new();
    let mut t = start;
    while t < end
        invariant
            start <= t <= end <= v@.len(),
            s@ =~= v@.subrange(start as int, t as int),
        decreases end - t,
    {
        s.push(v[t]);
        t += 1;
    }
    if w.rank <= 1 {
        JArray::scalar_int(s[0])
    } else if w.rank == 2 {
        JArray::vector_int(s)
    } else {
        JArray::array_int(tail_shape(&w.shape), s)
    }
}

// ───────────────────────── assembling results ─────────────────────────

/// The views of a list of arrays.
pub open spec fn views(s: Seq<JVal>) -> Seq<ArrayView> {
    s.map_values(|x: JVal| x@)
}

/// Whether every array of a list is well formed.
pub open spec fn all_wf(s: Seq<ArrayView>) -> bool {
    forall|i: int| 0 <= i < s.len() ==> wf(#[trigger] s[i])
}

/// Whether every array of a list holds integers.
pub open spec fn all_int(s: Seq<ArrayView>) -> bool {
    forall|i: int| 0 <= i < s.len() ==> is_int(#[trigger] s[i])
}

/// The atoms of a list of arrays, one after the other.
pub open spec fn concat_ints(s: Seq<ArrayView>) -> Seq<i64>
    decreases s.len(),
{
    if s.len() == 0 {
        seq![]
    } else {
        concat_ints(s.drop_last()) + ints(s.last())
    }
}

/// The array made of the results of a verb on each cell: the frame followed
/// by the first result's shape, holding all the results' atoms (none when a
/// dimension is zero); one result with no frame is returned as it is, and no
/// results give the empty vector.  Atoms that do not fill the shape exactly
/// are a shape error.  The rank operators hand it the frame `[leading]`
/// (see `spec_rank1ex`).
pub open spec fn spec_assemble(rs: Seq<ArrayView>, leading: nat, frame: Seq<usize>) -> Result<ArrayView, JErrorView> {
    if rs.len() == 0 {
        Ok(vector_view(seq![]))
    } else if leading == 1 && frame.len() == 0 {
        Ok(rs[0])
    } else if !is_int(rs[0]) {
        Err(domain("assemble: non-numeric result"@))
    } else if !all_int(rs) {
        Err(domain("assemble: type mismatch"@))
    } else {
        let fs = frame + rs[0].shape;
        let flat = concat_ints(rs);
        if fs.len() == 0 {
            Ok(scalar_view(flat[0]))
        } else if fs.len() == 1 {
            Ok(vector_view(flat))
        } else if product_ok(fs) && flat.len() == shape_product(fs) {
            Ok(array_view(fs, flat))
        } else {
            Err(shape_err())
        }
    }
}

/// Assembles the results of a verb on the cells of an argument (see
/// `spec_assemble`).
pub fn assemble_results(results: &Vec<JVal>, leading: usize, frame: Vec<usize>) -> (r: JResult<JVal>)
    requires
        all_wf(views(results@)),
    ensures
        res_view(r) == spec_assemble(views(results@), leading as nat, frame@),
        r matches Ok(v) ==> wf(v@),
{
    let ghost rs = views(results@);
    let n = results.len();
    if n == 0 {
        let v: Vec<i64> = Vec::new();
        proof {
            assert(v@ =~= seq![]);
        }
        return Ok(JArray::vector_int(v));
    }
    assert(rs[0] == results@[0]@);
    assert(wf(rs[0]));
    if leading == 1 && frame.len() == 0 {
        return Ok(share(&results[0]));
    }
    if results[0].as_int().is_none() {
        return Err(domain_err("assemble: non-numeric result"));
    }
    let mut flat: Vec<i64> = Vec::new();
    let mut i: usize = 0;
    while i < n
        invariant
            i <= n,
            n == results@.len(),
            rs == views(results@),
            n > 0,
            is_int(rs[0]),
            !(leading == 1 && frame@.len() == 0),
            all_int(rs.subrange(0, i as int)),
            flat@ == concat_ints(rs.subrange(0, i as int)),
        decreases n - i,
    {
        proof {
            assert(rs.subrange(0, i + 1).drop_last() =~= rs.subrange(0, i as int));
            assert(rs.subrange(0, i + 1).last() == rs[i as int]);
        }
        match results[i].as_int() {
            None => {
                proof {
                    assert(!is_int(rs[i as int]));
                    assert(!all_int(rs));
                }
                return Err(domain_err("assemble: type mismatch"));
            },
            Some(d) => {
                let mut j: usize = 0;
                let ghost before = flat@;
                while j < d.len()
                    invariant
                        j <= d@.len(),
                        flat@ =~= before + d@.subrange(0, j as int),
                    decreases d@.len() - j,
                {
                    flat.push(d[j]);
                    j += 1;
                }
                proof {
                    assert(d@.subrange(0, d@.len() as int) =~= d@);
                }
            },
        }
        i += 1;
    }
    proof {
        assert(rs.subrange(0, n as int) =~= rs);
    }
    let mut fs = frame;
    let s0 = &results[0].shape;
    let mut k: usize = 0;
    let ghost fr = fs@;
    while k < s0.len()
        invariant
            k <= s0@.len(),
            fs@ =~= fr + s0@.subrange(0, k as int),
        decreases s0@.len() - k,
    {
        fs.push(s0[k]);
        k += 1;
    }
    proof {
        assert(s0@.subrange(0, s0@.len() as int) =~= s0@);
        assert(rs[0].shape == s0@);
    }
    if fs.len() == 0 {
        proof {
            assert(rs[0].rank == 0);
            let one = rs.subrange(0, 1);
            assert(one.drop_last() =~= Seq::<ArrayView>::empty());
            assert(concat_ints(one.drop_last()) == Seq::<i64>::empty());
            assert(one.last() == rs[0]);
            assert(concat_ints(one) =~= ints(rs[0]));
            lemma_concat_prefix(rs, 1);
        }
        Ok(JArray::scalar_int(flat[0]))
    } else if fs.len() == 1 {
        Ok(JArray::vector_int(flat))
    } else {
        match checked_product(&fs) {
            Some(p) => {
                if flat.len() == p {
                    Ok(JArray::array_int(fs, flat))
                } else {
                    Err(shape_error())
                }
            },
            None => Err(shape_error()),
        }
    }
}

/// A prefix of a list contributes a prefix of the concatenated atoms.
pub proof fn lemma_concat_prefix(s: Seq<ArrayView>, k: int)
    requires
        0 <= k <= s.len(),
    ensures
        concat_ints(s.subrange(0, k)).len() <= concat_ints(s).len(),
        concat_ints(s) =~= concat_ints(s.subrange(0, k))
            + concat_ints(s).subrange(concat_ints(s.subrange(0, k)).len() as int, concat_ints(s).len() as int),
    decreases s.len() - k,
{
    if k < s.len() {
        assert(s.drop_last() =~= s.subrange(0, s.len() - 1));
        lemma_concat_prefix(s.drop_last(), k);
        assert(s.drop_last().subrange(0, k) =~= s.subrange(0, k));
    } else {
        assert(s.subrange(0, k) =~= s);
    }
}


/// The product of two shapes laid end to end is the product of their
/// products.
pub proof fn lemma_product_concat(a: Seq<usize>, b: Seq<usize>)
    ensures
        shape_product(a + b) == shape_product(a) * shape_product(b),
    decreases b.len(),
{
    if b.len() == 0 {
        assert(a + b =~= a);
        assert(shape_product(b) == 1);
        assert(shape_product(a) * 1 == shape_product(a));
    } else {
        lemma_product_concat(a, b.drop_last());
        let ab = a + b;
        assert(ab.drop_last() =~= a + b.drop_last());
        assert(ab.last() == b.last());
        let pa = shape_product(a);
        let pb = shape_product(b.drop_last());
        let l = b.last() as nat;
        assert(shape_product(ab) == shape_product(ab.drop_last()) * (ab.last() as nat));
        assert(shape_product(b) == pb * l);
        assert(pa * pb * l == pa * (pb * l)) by (nonlinear_arith);
        assert(shape_product(ab) == pa * pb * l);
    }
}

/// Arrays of `c` atoms each hold `c` atoms apiece in their concatenation.
proof fn lemma_concat_len(rs: Seq<ArrayView>, c: nat)
    requires
        forall|i: int| 0 <= i < rs.len() ==> ints(#[trigger] rs[i]).len() == c,
    ensures
        concat_ints(rs).len() == rs.len() * c,
    decreases rs.len(),
{
    if rs.len() > 0 {
        let d = rs.drop_last();
        assert forall|i: int| 0 <= i < d.len() implies ints(#[trigger] d[i]).len() == c by {
            assert(d[i] == rs[i]);
        }
        lemma_concat_len(d, c);
        assert(rs.last() == rs[rs.len() - 1]);
        let n = rs.len();
        assert((n - 1) * c + c == n * c) by (nonlinear_arith);
    }
}

/// Integer results of one shape, as many as the frame has cells, form one
/// array: the frame followed by that shape, holding the results' atoms one
/// after the other (none when a dimension is zero, as when empty vectors are
/// laid side by side).
pub proof fn assemble_lays_results_side_by_side(rs: Seq<ArrayView>, frame: Seq<usize>)
    requires
        rs.len() > 0,
        all_wf(rs),
        all_int(rs),
        forall|i: int| 0 <= i < rs.len() ==> (#[trigger] rs[i]).shape == rs[0].shape,
        shape_product(frame) == rs.len(),
        !(rs.len() == 1 && frame.len() == 0),
        product_ok(frame + rs[0].shape),
    ensures
        spec_assemble(rs, rs.len(), frame) == Ok::<ArrayView, JErrorView>(array_view(frame + rs[0].shape, concat_ints(rs))),
{
    let s = rs[0].shape;
    let fs = frame + s;
    let flat = concat_ints(rs);
    let c = shape_product(s);
    assert(wf(rs[0]) && is_int(rs[0]));
    assert forall|i: int| 0 <= i < rs.len() implies ints(#[trigger] rs[i]).len() == c by {
        assert(wf(rs[i]) && is_int(rs[i]));
        assert(rs[i].shape == s);
    }
    lemma_concat_len(rs, c);
    lemma_product_concat(frame, s);
    assert(flat.len() == shape_product(fs));
    if fs.len() == 1 {
        if frame.len() == 0 {
            assert(frame =~= Seq::<usize>::empty());
            assert(shape_product(frame) == 1);
        } else {
            assert(s.len() == 0);
            assert(frame.len() == 1);
            assert(s =~= Seq::<usize>::empty());
            assert(frame =~= seq![frame[0]]);
            lemma_product_single(frame[0]);
            assert(shape_product(frame) == frame[0]);
            assert(fs =~= seq![flat.len() as usize]);
        }
    }
}


// ───────────────────────── applying verbs ─────────────────────────

/// The error of a comparison applied as a monad.
pub open spec fn no_monad(v: Verb) -> JErrorView {
    domain(verb_name(v) + " monad not implemented"@)
}

/// The rank of an argument's cells for a verb rank: the argument's rank for
/// the infinite rank, the verb rank capped by the argument's rank when it is
/// not negative, else the argument's rank less its size (at least 0).
pub open spec fn eff_rank(arg: usize, vr: i64) -> usize {
    if vr == i64::MAX {
        arg
    } else if vr >= 0 {
        let v = vr as usize;
        if v <= arg { v } else { arg }
    } else {
        let s = arg as int + vr as int;
        if s > 0 { s as usize } else { 0usize }
    }
}

/// The error of dyad arguments whose leading dimensions do not agree.
pub open spec fn frame_mismatch(al: nat, wl: nat) -> JErrorView {
    err_view(JErrorKind::Length, None, "rank agreement: frame mismatch "@ + nat_text(al) + " vs "@ + nat_text(wl))
}

/// A monad applied to `w` as a whole.
pub open spec fn spec_monad(v: Verb, w: ArrayView) -> Result<ArrayView, JErrorView>
    decreases v, 0int, 0int,
{
    match v {
        Verb::Iota(_) => spec_iota(w),
        Verb::Plus(_) => spec_numeric_monad(MonadOp::Ident, w, "numeric argument required"@),
        Verb::Minus(_) => spec_numeric_monad(MonadOp::Neg, w, "numeric argument required"@),
        Verb::Star(_) => spec_numeric_monad(MonadOp::Signum, w, "numeric argument required"@),
        Verb::Percent(_) => spec_numeric_monad(MonadOp::Recip, w, "numeric argument required"@),
        Verb::Bar(_) => spec_numeric_monad(MonadOp::Abs, w, "| requires numeric argument"@),
        Verb::Dollar(_) => Ok(spec_shape_of(w)),
        Verb::Hash(_) => Ok(scalar_view(tally_of(w) as i64)),
        Verb::Slash(sl) => spec_slash(*sl.u, w),
        Verb::Tco(t) => spec_monad(*t.u, w),
        Verb::Fork(fk) => match spec_rank1ex(*fk.f, w, verb_monad_rank(*fk.f)) {
            Err(e) => Err(e),
            Ok(fw) => match spec_rank1ex(*fk.h, w, verb_monad_rank(*fk.h)) {
                Err(e) => Err(e),
                Ok(hw) => spec_rank2ex(*fk.g, fw, hw, verb_dyad_rank(*fk.g).0, verb_dyad_rank(*fk.g).1),
            },
        },
        _ => Err(no_monad(v)),
    }
}

/// The comparison operation of a comparison verb.
pub open spec fn cmp_op(v: Verb) -> DyadOp {
    match v {
        Verb::Lt(_) => DyadOp::Lt,
        Verb::Gt(_) => DyadOp::Gt,
        Verb::Le(_) => DyadOp::Le,
        Verb::Ge(_) => DyadOp::Ge,
        Verb::Eq(_) => DyadOp::Eq,
        _ => DyadOp::Ne,
    }
}

/// A dyad applied to `a` and `w` as wholes.
pub open spec fn spec_dyad(v: Verb, a: ArrayView, w: ArrayView) -> Result<ArrayView, JErrorView>
    decreases v, 0int, 0int,
{
    match v {
        Verb::Iota(_) => Err(domain("i. dyad not implemented"@)),
        Verb::Plus(_) => spec_numeric_dyad(DyadOp::Add, a, w, "numeric arguments required"@),
        Verb::Minus(_) => spec_numeric_dyad(DyadOp::Sub, a, w, "numeric arguments required"@),
        Verb::Star(_) => spec_numeric_dyad(DyadOp::Mul, a, w, "numeric arguments required"@),
        Verb::Percent(_) => spec_numeric_dyad(DyadOp::Div, a, w, "numeric arguments required"@),
        Verb::Bar(_) => spec_numeric_dyad(DyadOp::Residue, a, w, "| requires numeric arguments"@),
        Verb::Dollar(_) => spec_reshape(a, w),
        Verb::Hash(_) => Err(domain("# dyad not implemented"@)),
        Verb::Slash(_) => Err(domain("/ dyad not implemented"@)),
        Verb::Tco(t) => spec_dyad(*t.u, a, w),
        Verb::Fork(fk) => match spec_rank2ex(*fk.f, a, w, verb_dyad_rank(*fk.f).0, verb_dyad_rank(*fk.f).1) {
            Err(e) => Err(e),
            Ok(fw) => match spec_rank2ex(*fk.h, a, w, verb_dyad_rank(*fk.h).0, verb_dyad_rank(*fk.h).1) {
                Err(e) => Err(e),
                Ok(hw) => spec_rank2ex(*fk.g, fw, hw, verb_dyad_rank(*fk.g).0, verb_dyad_rank(*fk.g).1),
            },
        },
        _ => spec_numeric_dyad(cmp_op(v), a, w, verb_name(v) + ": unsupported type"@),
    }
}

/// `u/ w`: `u` inserted between the items of `w`, from the right:
/// `u/ x0 x1 x2` is `x0 u (x1 u x2)`.
pub open spec fn spec_slash(u: Verb, w: ArrayView) -> Result<ArrayView, JErrorView>
    decreases u, 2int, 0int,
{
    let t = tally_of(w);
    if t == 0 {
        Err(domain("u/ requires non-empty array"@))
    } else {
        let cs = w.count as nat / t;
        if !cells_ok(w, cs) {
            Err(shape_err())
        } else {
            spec_slash_from(u, w, cs, 0, t)
        }
    }
}

/// The fold of `u` over items `k .. t-1` of `w`, from the right.
pub open spec fn spec_slash_from(u: Verb, w: ArrayView, cs: nat, k: nat, t: nat) -> Result<ArrayView, JErrorView>
    decreases u, 1int, t - k,
{
    if k + 1 >= t {
        Ok(spec_cell(w, (t - 1) as nat, cs))
    } else {
        match spec_slash_from(u, w, cs, k + 1, t) {
            Err(e) => Err(e),
            Ok(r) => spec_dyad(u, spec_cell(w, k, cs), r),
        }
    }
}

/// A monad applied at rank `r`: to `w` whole when its rank is at most `r`
/// (or `r` is infinite), else to each item of `w`, the results laid side by
/// side along a leading axis of the items' count.
///
/// The frame is `[leading]`, the leading axis alone, and not the frame
/// `shape[..rank - cell_rank]` that J's rank rule names.  The cells are the
/// items of `w` (one per index of the leading axis), so for an argument more
/// than one rank above `r` that longer frame would name axes that no cell
/// was computed for, and the result's shape would disagree with its atoms;
/// `[leading]` keeps the shape and the atoms in step.  An argument with no
/// items is a shape error (it has no cell size).
pub open spec fn spec_rank1ex(v: Verb, w: ArrayView, r: i64) -> Result<ArrayView, JErrorView>
    decreases v, 2int, 0int,
{
    if r == i64::MAX || w.rank as int <= r {
        spec_monad(v, w)
    } else {
        let leading = tally_of(w);
        if leading == 0 {
            Err(shape_err())
        } else {
            let cs = w.count as nat / leading;
            if !cells_ok(w, cs) {
                Err(shape_err())
            } else {
                match spec_monad_cells(v, w, cs, leading) {
                    Err(e) => Err(e),
                    Ok(rs) => spec_assemble(rs, leading, seq![leading as usize]),
                }
            }
        }
    }
}

/// A monad applied to cells `0 .. n-1` of `w`, in order, or the first error.
pub open spec fn spec_monad_cells(v: Verb, w: ArrayView, cs: nat, n: nat) -> Result<Seq<ArrayView>, JErrorView>
    decreases v, 1int, n,
{
    if n == 0 {
        Ok(seq![])
    } else {
        match spec_monad_cells(v, w, cs, (n - 1) as nat) {
            Err(e) => Err(e),
            Ok(rs) => match spec_monad(v, spec_cell(w, (n - 1) as nat, cs)) {
                Err(e) => Err(e),
                Ok(x) => Ok(rs.push(x)),
            },
        }
    }
}

/// A dyad applied at ranks `lr` and `rr`: to the arguments whole when their
/// ranks allow, else item by item along the leading axes, which must agree
/// (or one be 1), the results laid side by side along a leading axis.
///
/// As in `spec_rank1ex`, the frame is `[leading]`, not the frame
/// `shape[..rank - cell_rank]` of the argument split into cells: the cells
/// are items, one per index of the leading axis, and the longer frame would
/// give a shape that disagrees with the atoms.  A leading axis of length 0 is
/// a shape error (it has no cell size).
pub open spec fn spec_rank2ex(v: Verb, a: ArrayView, w: ArrayView, lr: i64, rr: i64) -> Result<ArrayView, JErrorView>
    decreases v, 2int, 0int,
{
    let a_ok = lr == i64::MAX || a.rank as int <= lr;
    let w_ok = rr == i64::MAX || w.rank as int <= rr;
    if a_ok && w_ok {
        spec_dyad(v, a, w)
    } else {
        let el = eff_rank(a.rank, lr);
        let er = eff_rank(w.rank, rr);
        let al: nat = if el >= a.rank { 1 } else { a.shape[0] as nat };
        let wl: nat = if er >= w.rank { 1 } else { w.shape[0] as nat };
        if al != wl && al != 1 && wl != 1 {
            Err(frame_mismatch(al, wl))
        } else if al == 0 || wl == 0 {
            Err(shape_err())
        } else {
            let leading = if al >= wl { al } else { wl };
            let acs = a.count as nat / al;
            let wcs = w.count as nat / wl;
            if !cells_ok(a, acs) || !cells_ok(w, wcs) {
                Err(shape_err())
            } else {
                match spec_dyad_cells(v, a, w, acs, wcs, al, wl, leading) {
                    Err(e) => Err(e),
                    Ok(rs) => spec_assemble(rs, leading, seq![leading as usize]),
                }
            }
        }
    }
}

/// A dyad applied to the cell pairs `0 .. n-1` (an argument with one item
/// pairs it with every item of the other), in order, or the first error.
pub open spec fn spec_dyad_cells(
    v: Verb,
    a: ArrayView,
    w: ArrayView,
    acs: nat,
    wcs: nat,
    al: nat,
    wl: nat,
    n: nat,
) -> Result<Seq<ArrayView>, JErrorView>
    decreases v, 1int, n,
{
    if n == 0 {
        Ok(seq![])
    } else {
        match spec_dyad_cells(v, a, w, acs, wcs, al, wl, (n - 1) as nat) {
            Err(e) => Err(e),
            Ok(rs) => {
                let i = (n - 1) as nat;
                let ai = if al == 1 { 0nat } else { i };
                let wi = if wl == 1 { 0nat } else { i };
                match spec_dyad(v, spec_cell(a, ai, acs), spec_cell(w, wi, wcs)) {
                    Err(e) => Err(e),
                    Ok(x) => Ok(rs.push(x)),
                }
            },
        }
    }
}

fn frame_mismatch_error(al: usize, wl: usize) -> (e: JError)
    ensures
        e@ == frame_mismatch(al as nat, wl as nat),
{
    let sa = usize_to_string(al);
    let sw = usize_to_string(wl);
    let m1 = concat3("rank agreement: frame mismatch ", sa.as_str(), " vs ");
    let m = concat2(m1.as_str(), sw.as_str());
    length_err(m.as_str())
}

fn effective_rank(arg_rank: usize, verb_rank: i64) -> (r: usize)
    ensures
        r == eff_rank(arg_rank, verb_rank),
{
    if verb_rank == i64::MAX {
        arg_rank
    } else if verb_rank >= 0 {
        let v = verb_rank as usize;
        if v <= arg_rank { v } else { arg_rank }
    } else {
        let s: i128 = arg_rank as i128 + verb_rank as i128;
        if s > 0 { s as usize } else { 0 }
    }
}

impl Verb {
    /// The monad of this verb applied to `w` as a whole.
    pub fn monad(&self, interp: &Interpreter, w: &JVal) -> (r: JResult<JVal>)
        requires
            wf(w@),
        ensures
            res_view(r) == spec_monad(*self, w@),
            r matches Ok(v) ==> wf(v@),
        decreases self, 0int, 0int,
    {
        match self {
            Verb::Iota(_) => iota_monad(w),
            Verb::Plus(_) => numeric_monad(&MonadOp::Ident, w, "numeric argument required"),
            Verb::Minus(_) => numeric_monad(&MonadOp::Neg, w, "numeric argument required"),
            Verb::Star(_) => numeric_monad(&MonadOp::Signum, w, "numeric argument required"),
            Verb::Percent(_) => numeric_monad(&MonadOp::Recip, w, "numeric argument required"),
            Verb::Bar(_) => numeric_monad(&MonadOp::Abs, w, "| requires numeric argument"),
            Verb::Dollar(_) => Ok(shape_of(w)),
            Verb::Hash(_) => Ok(JArray::scalar_int(w.tally() as i64)),
            Verb::Slash(sl) => slash_monad(&sl.u, interp, w),
            Verb::Tco(t) => t.u.monad(interp, w),
            Verb::Fork(fk) => {
                let fw = rank1ex(&fk.f, interp, w, fk.f.monad_rank())?;
                let hw = rank1ex(&fk.h, interp, w, fk.h.monad_rank())?;
                let (gl, gr) = fk.g.dyad_rank();
                rank2ex(&fk.g, interp, &fw, &hw, gl, gr)
            },
            _ => {
                let m = concat2(self.name(), " monad not implemented");
                Err(JError::from_chars(JErrorKind::Domain, None, m))
            },
        }
    }

    /// The dyad of this verb applied to `a` and `w` as wholes.
    pub fn dyad(&self, interp: &Interpreter, a: &JVal, w: &JVal) -> (r: JResult<JVal>)
        requires
            wf(a@),
            wf(w@),
        ensures
            res_view(r) == spec_dyad(*self, a@, w@),
            r matches Ok(v) ==> wf(v@),
        decreases self, 0int, 0int,
    {
        match self {
            Verb::Iota(_) => Err(domain_err("i. dyad not implemented")),
            Verb::Plus(_) => numeric_dyad(&DyadOp::Add, a, w, "numeric arguments required"),
            Verb::Minus(_) => numeric_dyad(&DyadOp::Sub, a, w, "numeric arguments required"),
            Verb::Star(_) => numeric_dyad(&DyadOp::Mul, a, w, "numeric arguments required"),
            Verb::Percent(_) => numeric_dyad(&DyadOp::Div, a, w, "numeric arguments required"),
            Verb::Bar(_) => numeric_dyad(&DyadOp::Residue, a, w, "| requires numeric arguments"),
            Verb::Dollar(_) => reshape(a, w),
            Verb::Hash(_) => Err(domain_err("# dyad not implemented")),
            Verb::Slash(_) => Err(domain_err("/ dyad not implemented")),
            Verb::Tco(t) => t.u.dyad(interp, a, w),
            Verb::Fork(fk) => {
                let (fl, fr) = fk.f.dyad_rank();
                let fw = rank2ex(&fk.f, interp, a, w, fl, fr)?;
                let (hl, hr) = fk.h.dyad_rank();
                let hw = rank2ex(&fk.h, interp, a, w, hl, hr)?;
                let (gl, gr) = fk.g.dyad_rank();
                rank2ex(&fk.g, interp, &fw, &hw, gl, gr)
            },
            _ => {
                let op = match self {
                    Verb::Lt(_) => DyadOp::Lt,
                    Verb::Gt(_) => DyadOp::Gt,
                    Verb::Le(_) => DyadOp::Le,
                    Verb::Ge(_) => DyadOp::Ge,
                    Verb::Eq(_) => DyadOp::Eq,
                    _ => DyadOp::Ne,
                };
                let m = concat2(self.name(), ": unsupported type");
                numeric_dyad(&op, a, w, m.as_str())
            },
        }
    }
}

/// `u/ w` (see `spec_slash`).
fn slash_monad(u: &Verb, interp: &Interpreter, w: &JVal) -> (r: JResult<JVal>)
    requires
        wf(w@),
    ensures
        res_view(r) == spec_slash(*u, w@),
        r matches Ok(v) ==> wf(v@),
    decreases u, 2int, 0int,
{
    let tally = w.tally();
    if tally == 0 {
        return Err(domain_err("u/ requires non-empty array"));
    }
    let cell_size = w.count / tally;
    if !cells_ok_exec(w, cell_size) {
        return Err(shape_error());
    }
    proof {
        lemma_cell_bound(w@.count as nat, tally as nat, (tally - 1) as nat);
    }
    let mut result = extract_cell(w, tally - 1, cell_size);
    let mut i = tally - 1;
    while i > 0
        invariant
            0 <= i < tally,
            tally == tally_of(w@),
            cell_size == w@.count as nat / (tally as nat),
            wf(w@),
            cells_ok(w@, cell_size as nat),
            wf(result@),
            spec_slash_from(*u, w@, cell_size as nat, i as nat, tally as nat)
                == Ok::<ArrayView, JErrorView>(result@),
        decreases i,
    {
        i -= 1;
        proof {
            lemma_cell_bound(w@.count as nat, tally as nat, i as nat);
        }
        let left = extract_cell(w, i, cell_size);
        match u.dyad(interp, &left, &result) {
            Ok(v) => {
                result = v;
            },
            Err(e) => {
                proof {
                    lemma_slash_err(*u, w@, cell_size as nat, i as nat, tally as nat);
                }
                return Err(e);
            },
        }
    }
    Ok(result)
}

/// `w` without its first item (J's `}. w`): one item fewer along the leading
/// axis, holding the atoms after those of the first item.
pub open spec fn behead_view(w: ArrayView) -> ArrayView {
    let cs = w.count as nat / tally_of(w);
    let d = ints(w).subrange(cs as int, ints(w).len() as int);
    ArrayView {
        typ: w.typ,
        rank: w.rank,
        shape: w.shape.update(0, (w.shape[0] - 1) as usize),
        count: d.len() as usize,
        data: DataView::Integer(d),
    }
}

/// A single-element shape's product is its element.
proof fn lemma_product_single(a: usize)
    ensures
        shape_product(seq![a]) == a as nat,
{
    let s = seq![a];
    assert(s.drop_last() =~= Seq::<usize>::empty());
    assert(shape_product(s.drop_last()) == 1);
    assert(s.last() == a);
    assert(s.len() == 1);
    assert(shape_product(s) == shape_product(s.drop_last()) * (s.last() as nat));
    assert(1 * (a as nat) == a as nat);
}

/// An integer array of rank at least 1 holds its items' atoms: the count is
/// the leading dimension times the atoms of one item, which are the product
/// of the other dimensions.
proof fn lemma_item_atoms(w: ArrayView)
    requires
        wf(w),
        is_int(w),
        w.rank >= 1,
        w.shape[0] >= 1,
    ensures
        w.count as nat / tally_of(w) == shape_product(w.shape.subrange(1, w.shape.len() as int)),
        w.count as nat == tally_of(w) * (w.count as nat / tally_of(w)),
{
    let t = w.shape[0];
    let tail = w.shape.subrange(1, w.shape.len() as int);
    assert(w.shape =~= seq![t] + tail);
    lemma_product_concat(seq![t], tail);
    lemma_product_single(t);
    let p = shape_product(tail);
    assert(w.count as nat == t * p);
    vstd::arithmetic::div_mod::lemma_div_multiples_vanish(p as int, t as int);
}

/// A shape whose leading dimension is at least 1 and whose partial products
/// fit has a tail whose partial products fit.
proof fn lemma_product_ok_tail(a: usize, b: Seq<usize>)
    requires
        a >= 1,
        product_ok(seq![a] + b),
    ensures
        product_ok(b),
    decreases b.len(),
{
    if b.len() > 0 {
        let s = seq![a] + b;
        assert(s.drop_last() =~= seq![a] + b.drop_last());
        lemma_product_ok_tail(a, b.drop_last());
        lemma_product_concat(seq![a], b);
        lemma_product_single(a);
        let p = shape_product(b);
        assert(p <= a * p) by (nonlinear_arith)
            requires
                a >= 1,
        ;
    }
}

/// Item `k` of `}. w` is item `k + 1` of `w`.
proof fn lemma_behead_cell(w: ArrayView, k: nat)
    requires
        wf(w),
        is_int(w),
        w.rank >= 1,
        tally_of(w) >= 2,
        k + 2 <= tally_of(w),
    ensures
        spec_cell(behead_view(w), k, w.count as nat / tally_of(w))
            == spec_cell(w, k + 1, w.count as nat / tally_of(w)),
{
    let t = tally_of(w);
    let cs = w.count as nat / t;
    lemma_item_atoms(w);
    let b = behead_view(w);
    assert((k + 2) * cs <= t * cs) by (nonlinear_arith)
        requires
            k + 2 <= t,
    ;
    assert((k + 1) * cs == k * cs + cs) by (nonlinear_arith);
    assert((k + 2) * cs == k * cs + cs + cs) by (nonlinear_arith);
    assert(ints(b).subrange((k * cs) as int, (k * cs + cs) as int)
        =~= ints(w).subrange(((k + 1) * cs) as int, ((k + 1) * cs + cs) as int));
    assert(cell_shape(b) =~= cell_shape(w));
}

/// Folding over the items of `}. w` from item `k` is folding over the items
/// of `w` from item `k + 1`.
proof fn lemma_behead_fold(u: Verb, w: ArrayView, k: nat)
    requires
        wf(w),
        is_int(w),
        w.rank >= 1,
        tally_of(w) >= 2,
        k + 1 < tally_of(w),
    ensures
        spec_slash_from(u, behead_view(w), w.count as nat / tally_of(w), k, (tally_of(w) - 1) as nat)
            == spec_slash_from(u, w, w.count as nat / tally_of(w), k + 1, tally_of(w)),
    decreases tally_of(w) - k,
{
    let t = tally_of(w);
    lemma_behead_cell(w, k);
    if k + 2 < t {
        lemma_behead_fold(u, w, k + 1);
    } else {
        lemma_behead_cell(w, (t - 2) as nat);
    }
}

/// `u/` of one item is that item.
pub proof fn insert_of_one_item(u: Verb, w: ArrayView)
    requires
        wf(w),
        is_int(w),
        tally_of(w) == 1,
    ensures
        spec_slash(u, w) == Ok::<ArrayView, JErrorView>(spec_cell(w, 0, w.count as nat)),
{
    if w.rank >= 1 {
        lemma_item_atoms(w);
        if w.rank >= 2 {
            let tail = w.shape.subrange(1, w.shape.len() as int);
            assert(w.shape =~= seq![w.shape[0]] + tail);
            lemma_product_ok_tail(w.shape[0], tail);
        }
    }
    assert(cells_ok(w, w.count as nat / tally_of(w)));
}

/// `u/` puts the first item on the left of the fold of the rest:
/// `u/ x0 x1 ... xn` is `x0 u (u/ x1 ... xn)`, for every array of two or
/// more items (an error of the inner fold is the error of the whole).
pub proof fn insert_folds_from_the_first_item(u: Verb, w: ArrayView)
    requires
        wf(w),
        tally_of(w) >= 2,
    ensures
        spec_slash(u, w) == (match spec_slash(u, behead_view(w)) {
            Err(e) => Err(e),
            Ok(r) => spec_dyad(u, spec_cell(w, 0, w.count as nat / tally_of(w)), r),
        }),
{
    let t = tally_of(w);
    assert(w.rank >= 1);
    assert(is_int(w));
    let cs = w.count as nat / t;
    lemma_item_atoms(w);
    let b = behead_view(w);
    assert(tally_of(b) == t - 1);
    assert(b.count as nat == (t - 1) * cs) by (nonlinear_arith)
        requires
            b.count as nat == w.count as nat - cs,
            w.count as nat == t * cs,
    ;
    vstd::arithmetic::div_mod::lemma_div_multiples_vanish(cs as int, (t - 1) as int);
    assert(b.count as nat / tally_of(b) == cs);
    assert(cell_shape(b) =~= cell_shape(w));
    assert(cells_ok(b, cs) == cells_ok(w, cs));
    if cells_ok(w, cs) {
        lemma_behead_fold(u, w, 0);
    }
}

/// An error of the fold at an item is the error of the whole fold.
proof fn lemma_slash_err(u: Verb, w: ArrayView, cs: nat, k: nat, t: nat)
    requires
        k < t,
        spec_slash_from(u, w, cs, k, t) is Err,
    ensures
        spec_slash_from(u, w, cs, 0, t) == spec_slash_from(u, w, cs, k, t),
    decreases k,
{
    if k > 0 {
        lemma_slash_err(u, w, cs, (k - 1) as nat, t);
    }
}

/// The monad of `verb` applied at rank `verb_rank` (see `spec_rank1ex`).
#[verifier::loop_isolation(false)]
pub fn rank1ex(verb: &Verb, interp: &Interpreter, w: &JVal, verb_rank: i64) -> (r: JResult<JVal>)
    requires
        wf(w@),
    ensures
        res_view(r) == spec_rank1ex(*verb, w@, verb_rank),
        r matches Ok(v) ==> wf(v@),
    decreases verb, 2int, 0int,
{
    if verb_rank == i64::MAX || (w.rank as i128) <= (verb_rank as i128) {
        return verb.monad(interp, w);
    }
    let leading = w.tally();
    if leading == 0 {
        return Err(shape_error());
    }
    let cell_size = w.count / leading;
    if !cells_ok_exec(w, cell_size) {
        return Err(shape_error());
    }
    let mut results: Vec<JVal> = Vec::new();
    proof {
        assert(views(results@) =~= seq![]);
    }
    let mut i: usize = 0;
    while i < leading
        invariant
            i <= leading,
            leading == tally_of(w@),
            leading > 0,
            cell_size == w@.count as nat / (leading as nat),
            wf(w@),
            cells_ok(w@, cell_size as nat),
            all_wf(views(results@)),
            spec_monad_cells(*verb, w@, cell_size as nat, i as nat)
                == Ok::<Seq<ArrayView>, JErrorView>(views(results@)),
        decreases leading - i,
    {
        proof {
            lemma_cell_bound(w@.count as nat, leading as nat, i as nat);
        }
        let cell = extract_cell(w, i, cell_size);
        match verb.monad(interp, &cell) {
            Ok(v) => {
                let ghost old_results = results@;
                results.push(v);
                proof {
                    assert(views(results@) =~= views(old_results).push(v@));
                    assert(spec_monad_cells(*verb, w@, cell_size as nat, (i + 1) as nat)
                        == Ok::<Seq<ArrayView>, JErrorView>(views(old_results).push(v@)));
                }
            },
            Err(e) => {
                proof {
                    lemma_monad_cells_err(*verb, w@, cell_size as nat, (i + 1) as nat, leading as nat);
                }
                return Err(e);
            },
        }
        i += 1;
    }
    let mut frame: Vec<usize> = Vec::new();
    frame.push(leading);
    proof {
        assert(frame@ =~= seq![leading]);
    }
    assemble_results(&results, leading, frame)
}

proof fn lemma_monad_cells_err(v: Verb, w: ArrayView, cs: nat, i: nat, n: nat)
    requires
        i <= n,
        spec_monad_cells(v, w, cs, i) is Err,
    ensures
        spec_monad_cells(v, w, cs, n) == spec_monad_cells(v, w, cs, i),
    decreases n - i,
{
    if i < n {
        lemma_monad_cells_err(v, w, cs, i, (n - 1) as nat);
    }
}

proof fn lemma_dyad_cells_err(v: Verb, a: ArrayView, w: ArrayView, acs: nat, wcs: nat, al: nat, wl: nat, i: nat, n: nat)
    requires
        i <= n,
        spec_dyad_cells(v, a, w, acs, wcs, al, wl, i) is Err,
    ensures
        spec_dyad_cells(v, a, w, acs, wcs, al, wl, n) == spec_dyad_cells(v, a, w, acs, wcs, al, wl, i),
    decreases n - i,
{
    if i < n {
        lemma_dyad_cells_err(v, a, w, acs, wcs, al, wl, i, (n - 1) as nat);
    }
}

/// The dyad of `verb` applied to the cell pairs `0 .. n-1` (see
/// `spec_dyad_cells`).
fn dyad_cells(
    verb: &Verb,
    interp: &Interpreter,
    a: &JVal,
    w: &JVal,
    a_cell_size: usize,
    w_cell_size: usize,
    al: usize,
    wl: usize,
    leading: usize,
) -> (r: JResult<Vec<JVal>>)
    requires
        leading == (if al >= wl { al } else { wl }),
        al == 1 || al == leading,
        wl == 1 || wl == leading,
        al > 0,
        wl > 0,
        a_cell_size == a@.count as nat / (al as nat),
        w_cell_size == w@.count as nat / (wl as nat),
        wf(a@),
        wf(w@),
        cells_ok(a@, a_cell_size as nat),
        cells_ok(w@, w_cell_size as nat),
    ensures
        match r {
            Ok(v) => {
                &&& all_wf(views(v@))
                &&& spec_dyad_cells(*verb, a@, w@, a_cell_size as nat, w_cell_size as nat, al as nat, wl as nat, leading as nat)
                    == Ok::<Seq<ArrayView>, JErrorView>(views(v@))
            },
            Err(e) => spec_dyad_cells(*verb, a@, w@, a_cell_size as nat, w_cell_size as nat, al as nat, wl as nat, leading as nat)
                == Err::<Seq<ArrayView>, JErrorView>(e@),
        },
    decreases verb, 1int, 0int,
{
    let mut results: Vec<JVal> = Vec::new();
    proof {
        assert(views(results@) =~= seq![]);
    }
    let mut i: usize = 0;
    while i < leading
        invariant
            i <= leading,
            leading == (if al >= wl { al } else { wl }),
            al == 1 || al == leading,
            wl == 1 || wl == leading,
            al > 0,
            wl > 0,
            a_cell_size == a@.count as nat / (al as nat),
            w_cell_size == w@.count as nat / (wl as nat),
            wf(a@),
            wf(w@),
            cells_ok(a@, a_cell_size as nat),
            cells_ok(w@, w_cell_size as nat),
            all_wf(views(results@)),
            spec_dyad_cells(*verb, a@, w@, a_cell_size as nat, w_cell_size as nat, al as nat, wl as nat, i as nat)
                == Ok::<Seq<ArrayView>, JErrorView>(views(results@)),
        decreases leading - i,
    {
        let ai = if al == 1 { 0 } else { i };
        let wi = if wl == 1 { 0 } else { i };
        proof {
            lemma_cell_bound(a@.count as nat, al as nat, ai as nat);
            lemma_cell_bound(w@.count as nat, wl as nat, wi as nat);
        }
        let ac = extract_cell(a, ai, a_cell_size);
        let wc = extract_cell(w, wi, w_cell_size);
        match verb.dyad(interp, &ac, &wc) {
            Ok(v) => {
                let ghost old_results = results@;
                results.push(v);
                proof {
                    assert(views(results@) =~= views(old_results).push(v@));
                }
            },
            Err(e) => {
                proof {
                    lemma_dyad_cells_err(*verb, a@, w@, a_cell_size as nat, w_cell_size as nat,
                        al as nat, wl as nat, (i + 1) as nat, leading as nat);
                }
                return Err(e);
            },
        }
        i += 1;
    }
    Ok(results)
}

/// The dyad of `verb` applied at ranks `lrank` and `rrank` (see
/// `spec_rank2ex`).
#[verifier::loop_isolation(false)]
pub fn rank2ex(verb: &Verb, interp: &Interpreter, a: &JVal, w: &JVal, lrank: i64, rrank: i64) -> (r: JResult<JVal>)
    requires
        wf(a@),
        wf(w@),
    ensures
        res_view(r) == spec_rank2ex(*verb, a@, w@, lrank, rrank),
        r matches Ok(v) ==> wf(v@),
    decreases verb, 2int, 0int,
{
    let a_ok = lrank == i64::MAX || (a.rank as i128) <= (lrank as i128);
    let w_ok = rrank == i64::MAX || (w.rank as i128) <= (rrank as i128);
    if a_ok && w_ok {
        return verb.dyad(interp, a, w);
    }
    let eff_l = effective_rank(a.rank, lrank);
    let eff_r = effective_rank(w.rank, rrank);
    let al: usize = if eff_l >= a.rank { 1 } else { a.shape[0] };
    let wl: usize = if eff_r >= w.rank { 1 } else { w.shape[0] };
    if al != wl && al != 1 && wl != 1 {
        return Err(frame_mismatch_error(al, wl));
    }
    if al == 0 || wl == 0 {
        return Err(shape_error());
    }
    let leading = if al >= wl { al } else { wl };
    let a_cell_size = a.count / al;
    let w_cell_size = w.count / wl;
    if !cells_ok_exec(a, a_cell_size) || !cells_ok_exec(w, w_cell_size) {
        return Err(shape_error());
    }
    proof {
        assert(al == 1 || al == leading);
        assert(wl == 1 || wl == leading);
    }
    let results = dyad_cells(verb, interp, a, w, a_cell_size, w_cell_size, al, wl, leading)?;
    let mut frame: Vec<usize> = Vec::new();
    frame.push(leading);
    proof {
        assert(frame@ =~= seq![leading]);
    }
    assemble_results(&results, leading, frame)
}


// ───────────────────────── laws ─────────────────────────

/// A fork applied to one argument: `(f g h) w` is `(f w) g (h w)`, each
/// tine at its own rank.
pub proof fn fork_monad_law(f: Verb, g: Verb, h: Verb, w: ArrayView)
    ensures
        spec_monad(Verb::Fork(Fork { f: Box::new(f), g: Box::new(g), h: Box::new(h) }), w) == match spec_rank1ex(f, w, verb_monad_rank(f)) {
            Err(e) => Err(e),
            Ok(fw) => match spec_rank1ex(h, w, verb_monad_rank(h)) {
                Err(e) => Err(e),
                Ok(hw) => spec_rank2ex(g, fw, hw, verb_dyad_rank(g).0, verb_dyad_rank(g).1),
            },
        },
{
}

/// Whether a verb takes an argument of rank `k` whole as a monad.
pub open spec fn monad_takes_whole(v: Verb, k: usize) -> bool {
    verb_monad_rank(v) == i64::MAX || k as int <= verb_monad_rank(v)
}

/// Whether a verb takes arguments of ranks `ka` and `kw` whole as a dyad.
pub open spec fn dyad_takes_whole(v: Verb, ka: usize, kw: usize) -> bool {
    &&& (verb_dyad_rank(v).0 == i64::MAX || ka as int <= verb_dyad_rank(v).0)
    &&& (verb_dyad_rank(v).1 == i64::MAX || kw as int <= verb_dyad_rank(v).1)
}

/// Where the tines take their arguments whole, `(f g h) w` is `(f w) g
/// (h w)` with each verb applied to the whole argument: `f` to `w`, then
/// `h` to `w`, then `g` to the two results, the first error winning.
pub proof fn fork_on_whole_arguments(f: Verb, g: Verb, h: Verb, w: ArrayView)
    requires
        monad_takes_whole(f, w.rank),
        monad_takes_whole(h, w.rank),
    ensures
        spec_monad(Verb::Fork(Fork { f: Box::new(f), g: Box::new(g), h: Box::new(h) }), w) == match spec_monad(f, w) {
            Err(e) => Err(e),
            Ok(fw) => match spec_monad(h, w) {
                Err(e) => Err(e),
                Ok(hw) => if dyad_takes_whole(g, fw.rank, hw.rank) {
                    spec_dyad(g, fw, hw)
                } else {
                    spec_rank2ex(g, fw, hw, verb_dyad_rank(g).0, verb_dyad_rank(g).1)
                },
            },
        },
{
    fork_monad_law(f, g, h, w);
    assert(spec_rank1ex(f, w, verb_monad_rank(f)) == spec_monad(f, w));
    assert(spec_rank1ex(h, w, verb_monad_rank(h)) == spec_monad(h, w));
    match spec_monad(f, w) {
        Ok(fw) => match spec_monad(h, w) {
            Ok(hw) => {
                if dyad_takes_whole(g, fw.rank, hw.rank) {
                    rank2ex_whole(g, fw, hw);
                }
            },
            Err(_) => {},
        },
        Err(_) => {},
    }
}

/// A dyad whose ranks admit both arguments takes them whole.
proof fn rank2ex_whole(v: Verb, a: ArrayView, w: ArrayView)
    requires
        dyad_takes_whole(v, a.rank, w.rank),
    ensures
        spec_rank2ex(v, a, w, verb_dyad_rank(v).0, verb_dyad_rank(v).1) == spec_dyad(v, a, w),
{
}

/// A fork applied to two arguments: `a (f g h) w` is `(a f w) g (a h w)`.
pub proof fn fork_dyad_law(f: Verb, g: Verb, h: Verb, a: ArrayView, w: ArrayView)
    ensures
        spec_dyad(Verb::Fork(Fork { f: Box::new(f), g: Box::new(g), h: Box::new(h) }), a, w) == match spec_rank2ex(f, a, w, verb_dyad_rank(f).0, verb_dyad_rank(f).1) {
            Err(e) => Err(e),
            Ok(fw) => match spec_rank2ex(h, a, w, verb_dyad_rank(h).0, verb_dyad_rank(h).1) {
                Err(e) => Err(e),
                Ok(hw) => spec_rank2ex(g, fw, hw, verb_dyad_rank(g).0, verb_dyad_rank(g).1),
            },
        },
{
}

/// `u t.` behaves as `u`, as a monad and as a dyad, with the same ranks.
pub proof fn task_is_transparent(u: Verb, a: ArrayView, w: ArrayView)
    ensures
        spec_monad(Verb::Tco(Tco { u: Box::new(u) }), w) == spec_monad(u, w),
        spec_dyad(Verb::Tco(Tco { u: Box::new(u) }), a, w) == spec_dyad(u, a, w),
        verb_monad_rank(Verb::Tco(Tco { u: Box::new(u) })) == verb_monad_rank(u),
        verb_dyad_rank(Verb::Tco(Tco { u: Box::new(u) })) == verb_dyad_rank(u),
{
}

/// `u/` over two atoms is `u` between them: `u/ x y` is `x u y`.
pub proof fn insert_two_atoms(u: Verb, x: i64, y: i64)
    ensures
        spec_slash(u, vector_view(seq![x, y])) == spec_dyad(u, scalar_view(x), scalar_view(y)),
{
    let w = vector_view(seq![x, y]);
    assert(tally_of(w) == 2);
    assert(w.count as nat / 2 == 1);
    assert(cell_shape(w).len() == 0);
    assert(ints(w).subrange(0, 1) =~= seq![x]);
    assert(ints(w).subrange(1, 2) =~= seq![y]);
    assert(spec_cell(w, 1, 1) == scalar_view(y));
    assert(spec_cell(w, 0, 1) == scalar_view(x));
    assert(spec_slash_from(u, w, 1, 1, 2) == Ok::<ArrayView, JErrorView>(scalar_view(y)));
}

/// The shape of a reshape is the shape asked for: `$ s $ y` is `s` for
/// dimensions `s` that are not negative (and fit in a size).
pub proof fn reshape_has_requested_shape(a: ArrayView, w: ArrayView)
    requires
        wf(a),
        a.rank == 1,
        forall|i: int| 0 <= i < ints(a).len() ==> 0 <= #[trigger] ints(a)[i] <= usize::MAX,
    ensures
        spec_reshape(a, w) matches Ok(r) ==> spec_shape_of(r) == vector_view(ints(a)),
{
    match spec_reshape(a, w) {
        Ok(r) => {
            let sv = ints(a);
            let ns = Seq::new(sv.len(), |i: int| dim_of(sv[i]));
            assert(r.shape == ns);
            if r.rank == 0 {
                assert(sv =~= Seq::<i64>::empty());
            } else {
                assert(Seq::new(r.shape.len(), |i: int| r.shape[i] as i64) =~= sv);
            }
        },
        Err(_) => {},
    }
}

/// `s $ y` fills its shape with the atoms of `y` repeated cyclically: it
/// holds as many atoms as the shape's product, atom `i` is atom `i mod #y`
/// of `y`, so the result starts with the atoms of `y` in order; it is given
/// for every integer shape whose product fits and every non-empty integer
/// source.
pub proof fn reshape_repeats_the_source(a: ArrayView, w: ArrayView)
    requires
        wf(a),
        wf(w),
    ensures
        spec_reshape(a, w) matches Ok(r) ==> {
            &&& is_int(r)
            &&& ints(r).len() == shape_product(r.shape)
            &&& forall|i: int| 0 <= i < ints(r).len()
                ==> #[trigger] ints(r)[i] == ints(w)[i % (ints(w).len() as int)]
            &&& forall|i: int| 0 <= i < ints(r).len() && i < ints(w).len()
                ==> #[trigger] ints(r)[i] == ints(w)[i]
        },
        (is_int(a) && is_int(w) && ints(w).len() > 0
            && product_ok(Seq::new(ints(a).len(), |i: int| dim_of(ints(a)[i]))))
            ==> spec_reshape(a, w) is Ok,
{
    match spec_reshape(a, w) {
        Ok(r) => {
            let n = ints(w).len() as int;
            assert forall|i: int| 0 <= i < ints(r).len() && i < n implies #[trigger] ints(r)[i] == ints(w)[i] by {
                vstd::arithmetic::div_mod::lemma_small_mod(i as nat, n as nat);
            }
        },
        Err(_) => {},
    }
}

/// `i.` of a list of dimensions has that shape: `$ i. s` is `s` for
/// dimensions that are not negative (and fit in a size).
pub proof fn iota_has_requested_shape(w: ArrayView)
    requires
        wf(w),
        w.rank == 1,
        forall|i: int| 0 <= i < ints(w).len() ==> 0 <= #[trigger] ints(w)[i] <= usize::MAX,
    ensures
        spec_iota(w) matches Ok(r) ==> spec_shape_of(r) == vector_view(ints(w)),
{
    match spec_iota(w) {
        Ok(r) => {
            let d = ints(w);
            if r.rank == 0 {
                assert(d =~= Seq::<i64>::empty());
            } else {
                assert(Seq::new(r.shape.len(), |i: int| r.shape[i] as i64) =~= d);
            }
        },
        Err(_) => {},
    }
}

/// `i. s` for a list of dimensions counts up through its shape: atom `k` is
/// `k`, for every one of the shape's atoms (none when a dimension is 0).
pub proof fn iota_counts_up_through_its_shape(w: ArrayView)
    requires
        wf(w),
        w.rank == 1,
    ensures
        spec_iota(w) matches Ok(r) ==> {
            &&& ints(r).len() == shape_product(r.shape)
            &&& forall|k: int| 0 <= k < ints(r).len() ==> #[trigger] ints(r)[k] == k
        },
{
}

/// `$ w` lists the dimensions of `w`, in order, and `# w` is the first of
/// them (1 for a scalar, whose shape is empty).
pub proof fn shape_lists_the_dimensions(w: ArrayView)
    requires
        wf(w),
    ensures
        ints(spec_shape_of(w)).len() == w.rank,
        forall|k: int| 0 <= k < w.rank ==> #[trigger] ints(spec_shape_of(w))[k] == w.shape[k] as i64,
        w.rank >= 1 ==> tally_of(w) == w.shape[0],
        w.rank == 0 ==> tally_of(w) == 1,
{
}

/// `i. n` has `n` items, `0 .. n-1`.
pub proof fn iota_counts_up(n: i64)
    ensures
        spec_iota(scalar_view(n)) matches Ok(r) ==> tally_of(r) == n && ints(r) == ramp(n as nat),
{
}

} // verus!

