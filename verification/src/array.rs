//! J arrays: the data that sentences compute with.
//!
//! An array is a flat vector of atoms with a shape, as in J's A block.  This
//! library holds integer atoms and verbs; the float and complex atoms of J's
//! numeric tower are not represented (the verified code holds no floats).
use vstd::prelude::*;
use std::sync::Arc;
use crate::text::{concat3, int_text, int_to_string, string_of};
use crate::verbs::{Verb, VerbBox, verb_name};

verus! {

broadcast use vstd::string::group_string_axioms;

/// J's numeric tower, Integer < Float < Complex.
#[derive(Debug, Clone, Copy, PartialEq, Eq, PartialOrd, Ord, Structural)]
pub enum NumericType {
    Integer,
    Float,
    Complex,
}

/// The type of an array (J's AT field).
#[derive(Debug, Clone, Copy, PartialEq, Eq, Structural)]
pub enum JType {
    Numeric(NumericType),
    Verb,
    Adverb,
}

/// A J array: type, rank, shape, number of atoms, and the flat data.
pub struct JArray {
    pub typ: JType,
    pub rank: usize,
    pub shape: Vec<usize>,
    pub count: usize,
    pub data: JData,
}

/// The atoms of an array.
pub enum JData {
    Integer(Vec<i64>),
    Verb(VerbBox),
}

/// Arrays are shared by reference counting, as in J.
pub type JVal = Arc<JArray>;

/// What an array's data holds.
pub enum DataView {
    Integer(Seq<i64>),
    Verb(Verb),
}

/// What an array holds, as mathematical values.
pub struct ArrayView {
    pub typ: JType,
    pub rank: usize,
    pub shape: Seq<usize>,
    pub count: usize,
    pub data: DataView,
}

impl View for JArray {
    type V = ArrayView;

    open spec fn view(&self) -> ArrayView {
        ArrayView {
            typ: self.typ,
            rank: self.rank,
            shape: self.shape@,
            count: self.count,
            data: match self.data {
                JData::Integer(v) => DataView::Integer(v@),
                JData::Verb(b) => DataView::Verb(*b),
            },
        }
    }
}

// ───────────────────────── shapes ─────────────────────────

/// The product of the dimensions of a shape.
pub open spec fn shape_product(s: Seq<usize>) -> nat
    decreases s.len(),
{
    if s.len() == 0 {
        1
    } else {
        shape_product(s.drop_last()) * (s.last() as nat)
    }
}

/// Whether every partial product of a shape (left to right) fits in a
/// machine size, so that `iter().product()` computes it without overflow.
pub open spec fn product_ok(s: Seq<usize>) -> bool
    decreases s.len(),
{
    s.len() == 0 || (product_ok(s.drop_last()) && shape_product(s) <= usize::MAX)
}

/// The product of a shape's dimensions, or `None` when a partial product
/// overflows.
pub fn checked_product(s: &Vec<usize>) -> (r: Option<usize>)
    ensures
        r is Some <==> product_ok(s@),
        r matches Some(p) ==> p == shape_product(s@),
{
    let mut p: usize = 1;
    let mut i: usize = 0;
    while i < s.len()
        invariant
            i <= s.len(),
            product_ok(s@.subrange(0, i as int)),
            p == shape_product(s@.subrange(0, i as int)),
        decreases s.len() - i,
    {
        proof {
            assert(s@.subrange(0, i + 1).drop_last() =~= s@.subrange(0, i as int));
        }
        match p.checked_mul(s[i]) {
            Some(q) => {
                p = q;
            },
            None => {
                proof {
                    if product_ok(s@) {
                        lemma_product_ok_prefix(s@, i as int + 1);
                        let q = s@.subrange(0, i as int + 1);
                        assert(q.drop_last() =~= s@.subrange(0, i as int));
                        assert(shape_product(q) == p * s@[i as int]);
                    }
                }
                return None;
            },
        }
        i += 1;
    }
    proof {
        assert(s@.subrange(0, s@.len() as int) =~= s@);
    }
    Some(p)
}

/// A shape whose partial products fit has prefixes whose partial products fit.
pub proof fn lemma_product_ok_prefix(s: Seq<usize>, k: int)
    requires
        0 <= k <= s.len(),
        product_ok(s),
    ensures
        product_ok(s.subrange(0, k)),
    decreases s.len() - k,
{
    if k < s.len() {
        assert(s.drop_last() =~= s.subrange(0, s.len() - 1));
        lemma_product_ok_prefix(s.drop_last(), k);
        assert(s.drop_last().subrange(0, k) =~= s.subrange(0, k));
    } else {
        assert(s.subrange(0, k) =~= s);
    }
}

// ───────────────────────── well-formed arrays ─────────────────────────

/// A well-formed array: the rank is the shape's length; integer data holds
/// `count` atoms, the product of the shape's dimensions (one for a scalar,
/// none when a dimension is zero); a verb is a scalar.
pub open spec fn wf(a: ArrayView) -> bool {
    &&& a.rank == a.shape.len()
    &&& match a.data {
        DataView::Integer(d) => {
            &&& a.typ == JType::Numeric(NumericType::Integer)
            &&& d.len() == a.count
            &&& product_ok(a.shape)
            &&& a.count == shape_product(a.shape)
        },
        DataView::Verb(_) => {
            &&& a.typ == JType::Verb
            &&& a.rank == 0
            &&& a.count == 1
        },
    }
}

/// The integer atoms of an array (empty for a verb).
pub open spec fn ints(a: ArrayView) -> Seq<i64> {
    match a.data {
        DataView::Integer(d) => d,
        DataView::Verb(_) => seq![],
    }
}

/// Whether an array holds integers.
pub open spec fn is_int(a: ArrayView) -> bool {
    a.data is Integer
}

/// An integer scalar.
pub open spec fn scalar_view(n: i64) -> ArrayView {
    ArrayView {
        typ: JType::Numeric(NumericType::Integer),
        rank: 0,
        shape: seq![],
        count: 1,
        data: DataView::Integer(seq![n]),
    }
}

/// An integer vector.
pub open spec fn vector_view(d: Seq<i64>) -> ArrayView {
    ArrayView {
        typ: JType::Numeric(NumericType::Integer),
        rank: 1,
        shape: seq![d.len() as usize],
        count: d.len() as usize,
        data: DataView::Integer(d),
    }
}

/// An integer array of the given shape.
pub open spec fn array_view(shape: Seq<usize>, d: Seq<i64>) -> ArrayView {
    ArrayView {
        typ: JType::Numeric(NumericType::Integer),
        rank: shape.len() as usize,
        shape: shape,
        count: d.len() as usize,
        data: DataView::Integer(d),
    }
}

/// A verb, as a scalar.
pub open spec fn verb_view(v: Verb) -> ArrayView {
    ArrayView { typ: JType::Verb, rank: 0, shape: seq![], count: 1, data: DataView::Verb(v) }
}

/// The number of items: the leading dimension, one for a scalar.
pub open spec fn tally_of(a: ArrayView) -> nat {
    if a.rank == 0 { 1 } else { a.shape[0] as nat }
}

proof fn lemma_vector_wf(d: Seq<i64>)
    requires
        d.len() <= usize::MAX,
    ensures
        wf(vector_view(d)),
{
    let s = seq![d.len() as usize];
    assert(s.drop_last() =~= Seq::<usize>::empty());
    assert(product_ok(s.drop_last()));
    assert(shape_product(s.drop_last()) == 1);
    assert(s.last() == d.len() as usize);
    assert(shape_product(s) == shape_product(s.drop_last()) * (s.last() as nat));
    assert(shape_product(s) == d.len());
    assert(product_ok(s));
}

/// A wrapper around `Arc::clone`: another handle to the same array.
///
/// Calls `Arc::clone`; the contract claims that the new handle holds the
/// same array.  That the two handles share one allocation (as
/// `Arc::ptr_eq` would report) is not stated: a handle's view is the array
/// it holds, and the contract speaks only of that.
#[verifier::external_body]
pub(crate) fn share(v: &JVal) -> (r: JVal)
    ensures
        r == *v,
{
    Arc::clone(v)
}

impl JArray {
    // ───────── constructors ─────────

    pub fn scalar_int(n: i64) -> (r: JVal)
        ensures
            r@ == scalar_view(n),
            wf(r@),
    {
        let mut d: Vec<i64> = Vec::new();
        d.push(n);
        proof {
            assert(d@ =~= seq![n]);
        }
        Arc::new(JArray {
            typ: JType::Numeric(NumericType::Integer),
            rank: 0,
            shape: Vec::new(),
            count: 1,
            data: JData::Integer(d),
        })
    }

    pub fn vector_int(v: Vec<i64>) -> (r: JVal)
        ensures
            r@ == vector_view(v@),
            wf(r@),
    {
        let n = v.len();
        let mut shape: Vec<usize> = Vec::new();
        shape.push(n);
        proof {
            assert(shape@ =~= seq![n]);
            lemma_vector_wf(v@);
        }
        Arc::new(JArray {
            typ: JType::Numeric(NumericType::Integer),
            rank: 1,
            shape,
            count: n,
            data: JData::Integer(v),
        })
    }

    /// An integer array of the given shape; the data must hold as many atoms
    /// as the product of its dimensions (none when a dimension is zero).
    pub fn array_int(shape: Vec<usize>, data: Vec<i64>) -> (r: JVal)
        requires
            product_ok(shape@),
            data@.len() == shape_product(shape@),
        ensures
            r@ == array_view(shape@, data@),
            wf(r@),
    {
        let count = data.len();
        let rank = shape.len();
        Arc::new(JArray {
            typ: JType::Numeric(NumericType::Integer),
            rank,
            shape,
            count,
            data: JData::Integer(data),
        })
    }

    /// A verb, as a scalar array.
    pub fn from_verb(verb: VerbBox) -> (r: JVal)
        ensures
            r@ == verb_view(*verb),
            wf(r@),
    {
        Arc::new(JArray {
            typ: JType::Verb,
            rank: 0,
            shape: Vec::new(),
            count: 1,
            data: JData::Verb(verb),
        })
    }

    // ───────── access ─────────

    pub fn as_int(&self) -> (r: Option<&Vec<i64>>)
        ensures
            r is Some <==> is_int(self@),
            r matches Some(v) ==> v@ == ints(self@),
    {
        match &self.data {
            JData::Integer(v) => Some(v),
            _ => None,
        }
    }

    pub fn as_verb(&self) -> (r: Option<&VerbBox>)
        ensures
            r is Some <==> self@.data is Verb,
            r matches Some(v) ==> self@.data == DataView::Verb(**v),
    {
        match &self.data {
            JData::Verb(v) => Some(v),
            _ => None,
        }
    }

    pub fn is_verb(&self) -> (r: bool)
        ensures
            r == (self.typ == JType::Verb),
    {
        self.typ == JType::Verb
    }

    pub fn is_scalar(&self) -> (r: bool)
        ensures
            r == (self.rank == 0),
    {
        self.rank == 0
    }

    pub fn numeric_type(&self) -> (r: Option<NumericType>)
        ensures
            r == (match self.typ {
                JType::Numeric(t) => Some(t),
                _ => None,
            }),
    {
        match &self.typ {
            JType::Numeric(t) => Some(*t),
            _ => None,
        }
    }

    /// Whether the data is on a GPU: never, in this build.
    pub fn is_on_gpu(&self) -> (r: bool)
        ensures
            !r,
    {
        false
    }

    /// The number of items: the leading dimension, one for a scalar.
    pub fn tally(&self) -> (r: usize)
        requires
            wf(self@),
        ensures
            r == tally_of(self@),
    {
        if self.rank == 0 { 1 } else { self.shape[0] }
    }

    /// The row-major offset of an index (the indices and the shape are
    /// paired up to the shorter of the two).
    pub fn flat_index(&self, indices: &Vec<usize>) -> (r: usize)
        requires
            flat_index_fits(indices@, self.shape@),
        ensures
            r == spec_flat_index(indices@, self.shape@),
    {
        let n = if indices.len() <= self.shape.len() { indices.len() } else { self.shape.len() };
        let mut acc: usize = 0;
        let mut i: usize = 0;
        while i < n
            invariant
                i <= n,
                n == min_len(indices@, self.shape@),
                flat_index_fits(indices@, self.shape@),
                acc == spec_flat_index(indices@.subrange(0, i as int), self.shape@),
            decreases n - i,
        {
            proof {
                lemma_flat_index_step(indices@, self.shape@, i as int);
            }
            acc = acc * self.shape[i] + indices[i];
            i += 1;
        }
        proof {
            lemma_flat_index_full(indices@, self.shape@);
        }
        acc
    }

    /// The multi-index of a row-major offset.
    pub fn multi_index(&self, flat: usize) -> (r: Vec<usize>)
        requires
            self.rank <= self.shape@.len(),
            forall|i: int| 0 <= i < self.rank ==> self.shape@[i] > 0,
        ensures
            r@ == spec_multi_index(flat as nat, self.shape@, self.rank as int),
    {
        let mut indices: Vec<usize> = Vec::new();
        let mut k: usize = 0;
        while k < self.rank
            invariant
                k <= self.rank,
                indices@.len() == k,
                forall|t: int| 0 <= t < k ==> indices@[t] == 0,
            decreases self.rank - k,
        {
            indices.push(0);
            k += 1;
        }
        let mut f = flat;
        let mut i = self.rank;
        while i > 0
            invariant
                i <= self.rank,
                self.rank <= self.shape@.len(),
                forall|t: int| 0 <= t < self.rank ==> self.shape@[t] > 0,
                indices@.len() == self.rank,
                forall|t: int| 0 <= t < i ==> indices@[t] == 0,
                f as nat == spec_multi_rest(flat as nat, self.shape@, i as int, self.rank as int),
                forall|t: int| i <= t < self.rank
                    ==> indices@[t] == spec_multi_digit(flat as nat, self.shape@, t, self.rank as int),
            decreases i,
        {
            i -= 1;
            indices.set(i, f % self.shape[i]);
            f = f / self.shape[i];
        }
        proof {
            assert(indices@ =~= spec_multi_index(flat as nat, self.shape@, self.rank as int));
        }
        indices
    }
}

// ───────────────────────── index arithmetic ─────────────────────────

/// The length of the shorter of two sequences.
pub open spec fn min_len(a: Seq<usize>, b: Seq<usize>) -> int {
    if a.len() <= b.len() { a.len() as int } else { b.len() as int }
}

/// The row-major offset of `idx` in `shape`: `acc * dim + idx` folded over
/// the pairs, up to the shorter of the two.
pub open spec fn spec_flat_index(idx: Seq<usize>, shape: Seq<usize>) -> nat
    decreases idx.len(),
{
    let n = min_len(idx, shape);
    if n == 0 {
        0
    } else {
        spec_flat_index(idx.subrange(0, n - 1), shape) * (shape[n - 1] as nat) + idx[n - 1] as nat
    }
}

/// Whether every step of the offset computation fits in a machine size.
pub open spec fn flat_index_fits(idx: Seq<usize>, shape: Seq<usize>) -> bool {
    forall|k: int| 0 <= k <= min_len(idx, shape)
        ==> #[trigger] spec_flat_index(idx.subrange(0, k), shape) <= usize::MAX
}

proof fn lemma_flat_index_step(idx: Seq<usize>, shape: Seq<usize>, i: int)
    requires
        0 <= i < min_len(idx, shape),
        flat_index_fits(idx, shape),
    ensures
        spec_flat_index(idx.subrange(0, i + 1), shape)
            == spec_flat_index(idx.subrange(0, i), shape) * (shape[i] as nat) + idx[i] as nat,
        spec_flat_index(idx.subrange(0, i + 1), shape) <= usize::MAX,
        spec_flat_index(idx.subrange(0, i), shape) * (shape[i] as nat) <= usize::MAX,
{
    let p = idx.subrange(0, i + 1);
    assert(min_len(p, shape) == i + 1);
    assert(p.subrange(0, i) =~= idx.subrange(0, i));
    assert(spec_flat_index(idx.subrange(0, i + 1), shape) <= usize::MAX);
}

proof fn lemma_flat_index_full(idx: Seq<usize>, shape: Seq<usize>)
    ensures
        spec_flat_index(idx.subrange(0, min_len(idx, shape)), shape) == spec_flat_index(idx, shape),
    decreases idx.len(),
{
    let n = min_len(idx, shape);
    if n < idx.len() {
        let p = idx.subrange(0, n);
        assert(min_len(p, shape) == n);
        if n > 0 {
            assert(p.subrange(0, n - 1) =~= idx.subrange(0, n - 1));
        }
    } else {
        assert(idx.subrange(0, n) =~= idx);
    }
}

/// What remains of `flat` after the digits at positions `i..rank` have been
/// taken off (dividing by those dimensions, last first).
pub open spec fn spec_multi_rest(flat: nat, shape: Seq<usize>, i: int, rank: int) -> nat
    decreases rank - i,
{
    if i >= rank {
        flat
    } else {
        spec_multi_rest(flat, shape, i + 1, rank) / (shape[i] as nat)
    }
}

/// The digit of `flat` at position `t` in the mixed radix of the shape.
pub open spec fn spec_multi_digit(flat: nat, shape: Seq<usize>, t: int, rank: int) -> nat {
    spec_multi_rest(flat, shape, t + 1, rank) % (shape[t] as nat)
}

/// The multi-index of a row-major offset: digit `t` is `flat` divided by the
/// dimensions after `t`, modulo dimension `t` (an offset past the end wraps
/// around in the first digit).
pub open spec fn spec_multi_index(flat: nat, shape: Seq<usize>, rank: int) -> Seq<usize> {
    Seq::new(rank as nat, |t: int| spec_multi_digit(flat, shape, t, rank) as usize)
}

// ───────────────────────── display ─────────────────────────

/// Numbers joined by single spaces.
pub open spec fn join_ints(s: Seq<i64>) -> Seq<char>
    decreases s.len(),
{
    if s.len() == 0 {
        seq![]
    } else if s.len() == 1 {
        int_text(s[0] as int)
    } else {
        join_ints(s.drop_last()) + seq![' '] + int_text(s.last() as int)
    }
}

/// Rows of `cols` numbers (the last one possibly shorter), one per line.
pub open spec fn rows_text(s: Seq<i64>, cols: nat) -> Seq<char>
    decreases s.len(),
{
    if cols == 0 || s.len() <= cols {
        join_ints(s)
    } else {
        join_ints(s.subrange(0, cols as int)) + seq!['\n'] + rows_text(s.subrange(cols as int, s.len() as int), cols)
    }
}

/// Matrices of `size` numbers, in rows of `cols`, separated by an empty line.
pub open spec fn matrices_text(s: Seq<i64>, size: nat, cols: nat) -> Seq<char>
    decreases s.len(),
{
    if size == 0 || s.len() <= size {
        rows_text(s, cols)
    } else {
        rows_text(s.subrange(0, size as int), cols) + seq!['\n', '\n']
            + matrices_text(s.subrange(size as int, s.len() as int), size, cols)
    }
}

/// Whether integer atoms of the given rank and shape can be shown: a scalar
/// has its atom, and rows and matrices are not empty.
pub open spec fn numeric_displayable(d: Seq<i64>, shape: Seq<usize>, rank: usize) -> bool {
    &&& rank == shape.len()
    &&& if rank == 0 {
        d.len() >= 1
    } else if rank == 1 {
        true
    } else if rank == 2 {
        shape[1] > 0
    } else {
        &&& shape[rank - 1] > 0
        &&& shape[rank - 2] > 0
        &&& shape[rank - 2] * shape[rank - 1] <= usize::MAX
    }
}

/// Whether an array can be shown (see `numeric_displayable`).
pub open spec fn displayable(a: ArrayView) -> bool {
    match a.data {
        DataView::Verb(_) => true,
        DataView::Integer(d) => numeric_displayable(d, a.shape, a.rank),
    }
}

/// How integer atoms are shown: a scalar as its number, a vector as numbers
/// separated by spaces, a matrix as one row per line, and a higher-rank
/// array as its matrices separated by an empty line.
pub open spec fn numeric_text(d: Seq<i64>, shape: Seq<usize>, rank: usize) -> Seq<char> {
    if rank == 0 {
        int_text(d[0] as int)
    } else if rank == 1 {
        join_ints(d)
    } else if rank == 2 {
        rows_text(d, shape[1] as nat)
    } else {
        matrices_text(d, (shape[rank - 2] * shape[rank - 1]) as nat, shape[rank - 1] as nat)
    }
}

/// How the REPL shows an array: its atoms (see `numeric_text`), or a verb
/// as `(verb:name)`.
pub open spec fn display_text(a: ArrayView) -> Seq<char> {
    match a.data {
        DataView::Verb(v) => "(verb:"@ + verb_name(v) + ")"@,
        DataView::Integer(d) => numeric_text(d, a.shape, a.rank),
    }
}

fn join_range(d: &Vec<i64>, lo: usize, hi: usize) -> (r: String)
    requires
        lo <= hi <= d@.len(),
    ensures
        r@ == join_ints(d@.subrange(lo as int, hi as int)),
{
    let mut r = string_of("");
    let mut i = lo;
    proof {
        reveal_strlit("");
        assert(d@.subrange(lo as int, lo as int) =~= Seq::<i64>::empty());
    }
    while i < hi
        invariant
            lo <= i <= hi <= d@.len(),
            r@ == join_ints(d@.subrange(lo as int, i as int)),
        decreases hi - i,
    {
        let t = int_to_string(d[i]);
        proof {
            assert(d@.subrange(lo as int, i + 1).drop_last() =~= d@.subrange(lo as int, i as int));
        }
        if i == lo {
            r = t;
        } else {
            r = concat3(r.as_str(), " ", t.as_str());
            proof {
                reveal_strlit(" ");
            }
        }
        i += 1;
    }
    r
}

fn rows_range(d: &Vec<i64>, lo: usize, hi: usize, cols: usize) -> (r: String)
    requires
        lo <= hi <= d@.len(),
        cols > 0,
    ensures
        r@ == rows_text(d@.subrange(lo as int, hi as int), cols as nat),
    decreases hi - lo,
{
    if hi - lo <= cols {
        join_range(d, lo, hi)
    } else {
        let first = join_range(d, lo, lo + cols);
        let rest = rows_range(d, lo + cols, hi, cols);
        proof {
            reveal_strlit("\n");
            let s = d@.subrange(lo as int, hi as int);
            assert(s.subrange(0, cols as int) =~= d@.subrange(lo as int, lo + cols));
            assert(s.subrange(cols as int, s.len() as int) =~= d@.subrange(lo + cols, hi as int));
        }
        concat3(first.as_str(), "\n", rest.as_str())
    }
}

fn matrices_range(d: &Vec<i64>, lo: usize, hi: usize, size: usize, cols: usize) -> (r: String)
    requires
        lo <= hi <= d@.len(),
        cols > 0,
        size > 0,
    ensures
        r@ == matrices_text(d@.subrange(lo as int, hi as int), size as nat, cols as nat),
    decreases hi - lo,
{
    if hi - lo <= size {
        rows_range(d, lo, hi, cols)
    } else {
        let first = rows_range(d, lo, lo + size, cols);
        let rest = matrices_range(d, lo + size, hi, size, cols);
        proof {
            reveal_strlit("\n\n");
            let s = d@.subrange(lo as int, hi as int);
            assert(s.subrange(0, size as int) =~= d@.subrange(lo as int, lo + size));
            assert(s.subrange(size as int, s.len() as int) =~= d@.subrange(lo + size, hi as int));
        }
        concat3(first.as_str(), "\n\n", rest.as_str())
    }
}

/// The text of integer atoms of the given shape (see `numeric_text`).
pub fn fmt_numeric(v: &Vec<i64>, shape: &Vec<usize>, rank: usize) -> (r: String)
    requires
        numeric_displayable(v@, shape@, rank),
    ensures
        r@ == numeric_text(v@, shape@, rank),
{
    let n = v.len();
    proof {
        assert(v@.subrange(0, n as int) =~= v@);
    }
    if rank == 0 {
        int_to_string(v[0])
    } else if rank == 1 {
        join_range(v, 0, n)
    } else if rank == 2 {
        rows_range(v, 0, n, shape[1])
    } else {
        let c = shape[rank - 1];
        let m = shape[rank - 2];
        proof {
            assert(m * c > 0) by (nonlinear_arith)
                requires
                    m > 0,
                    c > 0,
            ;
        }
        matrices_range(v, 0, n, m * c, c)
    }
}

impl JArray {
    /// Whether the array can be shown (see `displayable`).
    pub fn can_display(&self) -> (r: bool)
        requires
            wf(self@),
        ensures
            r == displayable(self@),
    {
        match &self.data {
            JData::Verb(_) => true,
            JData::Integer(d) => {
                if self.rank == 0 {
                    d.len() >= 1
                } else if self.rank == 1 {
                    true
                } else if self.rank == 2 {
                    self.shape[1] > 0
                } else {
                    let c = self.shape[self.rank - 1];
                    let m = self.shape[self.rank - 2];
                    c > 0 && m > 0 && m.checked_mul(c).is_some()
                }
            },
        }
    }

    /// The text that shows the array (J's display; see `display_text`).
    pub fn to_string(&self) -> (r: String)
        requires
            wf(self@),
            displayable(self@),
        ensures
            r@ == display_text(self@),
    {
        match &self.data {
            JData::Verb(v) => {
                let name = v.name();
                concat3("(verb:", name, ")")
            },
            JData::Integer(d) => fmt_numeric(d, &self.shape, self.rank),
        }
    }
}

} // verus!
