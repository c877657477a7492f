//! Top-k selection over typed columns: per-type fast paths, a slicing fast
//! path for pre-sorted input, and multi-key selection by auxiliary
//! columns.
//!
//! Selection here is deterministic: equal keys keep their original order
//! and the typed fast paths return their survivors in key order. Every
//! contract is an equality with a specification-level function, so the
//! exact output — order included — is pinned down.
use vstd::prelude::*;

verus! {

/// A typed column of the engine, modeled as plain optional values plus
/// the sortedness flag its statistics carry.
#[derive(Debug, PartialEq, Eq)]
pub enum Column {
    Int64 { name: String, values: Vec<Option<i64>>, sorted: IsSorted },
    Boolean { name: String, values: Vec<Option<bool>>, sorted: IsSorted },
    Binary { name: String, values: Vec<Option<Vec<u8>>>, sorted: IsSorted },
    Null { name: String, len: usize },
}

/// The sortedness statistic of a column.
#[derive(Clone, Copy, Debug, PartialEq, Eq, Structural)]
pub enum IsSorted {
    Ascending,
    Descending,
    Not,
}

/// Errors of the selection entry points.
#[derive(Debug, PartialEq, Eq)]
pub enum TopKError {
    /// The `k` column holds more or fewer than one value.
    KNotSingle { len: usize },
    /// The `k` column holds a null.
    KNotSet,
    /// The `k` value cannot index rows.
    KInvalid { value: i64 },
    /// The `k` column is not numeric.
    KNotNumeric,
    /// A `by` column's length differs from the source column's.
    ByLengthMismatch { name: String, by_len: usize, src_len: usize },
}

impl Column {
    /// The logical row count.
    pub fn len(&self) -> (r: usize)
        ensures
            r == self.spec_len(),
    {
        match self {
            Column::Int64 { values, .. } => values.len(),
            Column::Boolean { values, .. } => values.len(),
            Column::Binary { values, .. } => values.len(),
            Column::Null { len, .. } => *len,
        }
    }

    pub open spec fn spec_len(&self) -> nat {
        match self {
            Column::Int64 { values, .. } => values@.len(),
            Column::Boolean { values, .. } => values@.len(),
            Column::Binary { values, .. } => values@.len(),
            Column::Null { len, .. } => *len as nat,
        }
    }

    pub fn is_empty(&self) -> (r: bool)
        ensures
            r == (self.spec_len() == 0),
    {
        self.len() == 0
    }

    pub fn name(&self) -> (r: &String)
        ensures
            r@ == self.spec_name(),
    {
        match self {
            Column::Int64 { name, .. } => name,
            Column::Boolean { name, .. } => name,
            Column::Binary { name, .. } => name,
            Column::Null { name, .. } => name,
        }
    }

    pub open spec fn spec_name(&self) -> Seq<char> {
        match self {
            Column::Int64 { name, .. } => name@,
            Column::Boolean { name, .. } => name@,
            Column::Binary { name, .. } => name@,
            Column::Null { name, .. } => name@,
        }
    }

    pub fn sorted_flag(&self) -> (r: IsSorted)
        ensures
            r == self.spec_sorted(),
    {
        match self {
            Column::Int64 { sorted, .. } => *sorted,
            Column::Boolean { sorted, .. } => *sorted,
            Column::Binary { sorted, .. } => *sorted,
            Column::Null { .. } => IsSorted::Not,
        }
    }

    /// The row count is determined by the view.
    pub proof fn lemma_len_view(&self)
        ensures
            self.spec_len() == col_v_len(self@),
    {
        match self {
            Column::Int64 { .. } => {},
            Column::Boolean { .. } => {},
            Column::Binary { .. } => {},
            Column::Null { .. } => {},
        }
    }

    pub open spec fn spec_sorted(&self) -> IsSorted {
        match self {
            Column::Int64 { sorted, .. } => *sorted,
            Column::Boolean { sorted, .. } => *sorted,
            Column::Binary { sorted, .. } => *sorted,
            Column::Null { .. } => IsSorted::Not,
        }
    }

    /// Whether row `i` is null.
    pub fn is_null_at(&self, i: usize) -> (r: bool)
        requires
            i < self.spec_len(),
        ensures
            r == self.spec_is_null_at(i as int),
    {
        match self {
            Column::Int64 { values, .. } => values[i].is_none(),
            Column::Boolean { values, .. } => values[i].is_none(),
            Column::Binary { values, .. } => values[i].is_none(),
            Column::Null { .. } => true,
        }
    }

    pub open spec fn spec_is_null_at(&self, i: int) -> bool {
        match self {
            Column::Int64 { values, .. } => values@[i] is None,
            Column::Boolean { values, .. } => values@[i] is None,
            Column::Binary { values, .. } => values@[i] is None,
            Column::Null { .. } => true,
        }
    }

    pub open spec fn spec_null_count(&self) -> nat {
        match self {
            Column::Int64 { values, .. } => count_nones_i64(values@),
            Column::Boolean { values, .. } => count_nones_bool(values@),
            Column::Binary { values, .. } => count_nones_bin(values.deep_view()),
            Column::Null { len, .. } => *len as nat,
        }
    }

    /// The number of null rows.
    pub fn null_count(&self) -> (r: usize)
        ensures
            r == self.spec_null_count(),
    {
        let n = self.len();
        let mut cnt: usize = 0;
        let mut i: usize = 0;
        #[verifier::loop_isolation(false)]
        while i < n
            invariant
                i <= n,
                cnt <= i,
                cnt == self.spec_null_count_prefix(i as int),
            decreases n - i,
        {
            proof {
                self.lemma_null_count_prefix_step(i as int);
            }
            if self.is_null_at(i) {
                cnt = cnt + 1;
            }
            i = i + 1;
        }
        proof {
            self.lemma_null_count_prefix_full();
        }
        cnt
    }

    /// Nulls among the first `i` rows.
    pub open spec fn spec_null_count_prefix(&self, i: int) -> nat {
        match self {
            Column::Int64 { values, .. } => count_nones_i64(values@.take(i)),
            Column::Boolean { values, .. } => count_nones_bool(values@.take(i)),
            Column::Binary { values, .. } => count_nones_bin(values.deep_view().take(i)),
            Column::Null { len, .. } => i as nat,
        }
    }

    proof fn lemma_null_count_prefix_step(&self, i: int)
        requires
            0 <= i < self.spec_len(),
        ensures
            self.spec_null_count_prefix(i + 1) == self.spec_null_count_prefix(i) + (
            if self.spec_is_null_at(i) {
                1nat
            } else {
                0nat
            }),
    {
        match self {
            Column::Int64 { values, .. } => {
                assert(values@.take(i + 1).drop_last() =~= values@.take(i));
                assert(values@.take(i + 1).last() == values@[i]);
            },
            Column::Boolean { values, .. } => {
                assert(values@.take(i + 1).drop_last() =~= values@.take(i));
                assert(values@.take(i + 1).last() == values@[i]);
            },
            Column::Binary { values, .. } => {
                assert(values.deep_view().take(i + 1).drop_last() =~= values.deep_view().take(i));
                assert(values.deep_view().take(i + 1).last() == values.deep_view()[i]);
                assert(values.deep_view()[i] is None <==> values@[i] is None);
            },
            Column::Null { .. } => {},
        }
    }

    proof fn lemma_null_count_prefix_full(&self)
        ensures
            self.spec_null_count_prefix(self.spec_len() as int) == self.spec_null_count(),
    {
        match self {
            Column::Int64 { values, .. } => {
                assert(values@.take(values@.len() as int) =~= values@);
            },
            Column::Boolean { values, .. } => {
                assert(values@.take(values@.len() as int) =~= values@);
            },
            Column::Binary { values, .. } => {
                assert(values.deep_view().take(values.deep_view().len() as int)
                    =~= values.deep_view());
            },
            Column::Null { .. } => {},
        }
    }
}

pub open spec fn count_nones_i64(s: Seq<Option<i64>>) -> nat
    decreases s,
{
    if s.len() == 0 {
        0
    } else {
        count_nones_i64(s.drop_last()) + if s.last() is None {
            1nat
        } else {
            0nat
        }
    }
}

pub open spec fn count_nones_bool(s: Seq<Option<bool>>) -> nat
    decreases s,
{
    if s.len() == 0 {
        0
    } else {
        count_nones_bool(s.drop_last()) + if s.last() is None {
            1nat
        } else {
            0nat
        }
    }
}

pub open spec fn count_nones_bin(s: Seq<Option<Seq<u8>>>) -> nat
    decreases s,
{
    if s.len() == 0 {
        0
    } else {
        count_nones_bin(s.drop_last()) + if s.last() is None {
            1nat
        } else {
            0nat
        }
    }
}

/// The validity mask of an output whose first `num_valid` slots are valid:
/// present only when some slot is not.
pub open spec fn spec_first_n_valid_mask(num_valid: nat, out_len: nat) -> Option<Seq<bool>> {
    if num_valid < out_len {
        Some(Seq::new(out_len, |i: int| i < num_valid))
    } else {
        None
    }
}

/// Build the mask for an output with `num_valid` leading valid slots.
pub fn first_n_valid_mask(num_valid: usize, out_len: usize) -> (r: Option<Vec<bool>>)
    ensures
        match r {
            Some(m) => spec_first_n_valid_mask(num_valid as nat, out_len as nat) == Some(m@),
            None => spec_first_n_valid_mask(num_valid as nat, out_len as nat) is None,
        },
{
    if num_valid < out_len {
        let mut m: Vec<bool> = Vec::new();
        let mut i: usize = 0;
        #[verifier::loop_isolation(false)]
        while i < out_len
            invariant
                i <= out_len,
                m@.len() == i,
                forall|j: int| 0 <= j < i ==> m@[j] == (j < num_valid),
            decreases out_len - i,
        {
            m.push(i < num_valid);
            i = i + 1;
        }
        proof {
            assert(m@ =~= Seq::new(out_len as nat, |i: int| i < num_valid));
        }
        Some(m)
    } else {
        None
    }
}

pub open spec fn count_trues(s: Seq<Option<bool>>) -> nat
    decreases s,
{
    if s.len() == 0 {
        0
    } else {
        count_trues(s.drop_last()) + if s.last() == Some(true) {
            1nat
        } else {
            0nat
        }
    }
}

/// The limited effective output length of a selection.
pub open spec fn spec_min(a: nat, b: nat) -> nat {
    if a < b {
        a
    } else {
        b
    }
}

/// What boolean top-k yields: the input itself when nothing is cut,
/// otherwise runs of the surviving physical values — key order first —
/// with the null slots at the end.
pub open spec fn spec_top_k_bool(s: Seq<Option<bool>>, k: nat, descending: bool) -> Seq<
    Option<bool>,
> {
    if k >= s.len() && count_nones_bool(s) == 0 {
        s
    } else {
        let t = count_trues(s);
        let f = (s.len() - count_nones_bool(s) - t) as nat;
        let out_len = spec_min(k, s.len());
        Seq::new(
            out_len,
            |i: int|
                if descending {
                    if i < f {
                        Some(false)
                    } else if i < f + t {
                        Some(true)
                    } else {
                        None
                    }
                } else {
                    if i < t {
                        Some(true)
                    } else if i < t + f {
                        Some(false)
                    } else {
                        None
                    }
                },
        )
    }
}

fn clone_opt_bools(v: &Vec<Option<bool>>) -> (r: Vec<Option<bool>>)
    ensures
        r@ == v@,
{
    let mut out: Vec<Option<bool>> = Vec::new();
    let mut i: usize = 0;
    while i < v.len()
        invariant
            i <= v@.len(),
            out@ =~= v@.take(i as int),
        decreases v@.len() - i,
    {
        out.push(v[i]);
        i = i + 1;
    }
    proof {
        assert(v@.take(v@.len() as int) =~= v@);
    }
    out
}

fn count_nones_bool_vec(v: &Vec<Option<bool>>) -> (r: usize)
    ensures
        r == count_nones_bool(v@),
{
    let mut cnt: usize = 0;
    let mut i: usize = 0;
    #[verifier::loop_isolation(false)]
    while i < v.len()
        invariant
            i <= v@.len(),
            cnt <= i,
            cnt == count_nones_bool(v@.take(i as int)),
        decreases v@.len() - i,
    {
        proof {
            assert(v@.take(i + 1).drop_last() =~= v@.take(i as int));
            assert(v@.take(i + 1).last() == v@[i as int]);
        }
        if v[i].is_none() {
            cnt = cnt + 1;
        }
        i = i + 1;
    }
    proof {
        assert(v@.take(v@.len() as int) =~= v@);
    }
    cnt
}

fn count_trues_vec(v: &Vec<Option<bool>>) -> (r: usize)
    ensures
        r == count_trues(v@),
{
    let mut cnt: usize = 0;
    let mut i: usize = 0;
    #[verifier::loop_isolation(false)]
    while i < v.len()
        invariant
            i <= v@.len(),
            cnt <= i,
            cnt == count_trues(v@.take(i as int)),
        decreases v@.len() - i,
    {
        proof {
            assert(v@.take(i + 1).drop_last() =~= v@.take(i as int));
            assert(v@.take(i + 1).last() == v@[i as int]);
        }
        let is_true = match v[i] {
            Some(b) => b,
            None => false,
        };
        if is_true {
            cnt = cnt + 1;
        }
        i = i + 1;
    }
    proof {
        assert(v@.take(v@.len() as int) =~= v@);
    }
    cnt
}

proof fn lemma_counts_bound_bool(s: Seq<Option<bool>>)
    ensures
        count_trues(s) + count_nones_bool(s) <= s.len(),
    decreases s,
{
    if s.len() > 0 {
        lemma_counts_bound_bool(s.drop_last());
    }
}

/// Boolean top-k: counting alone decides the survivors.
pub fn top_k_bool_impl(values: &Vec<Option<bool>>, k: usize, descending: bool) -> (r: Vec<
    Option<bool>,
>)
    ensures
        r@ == spec_top_k_bool(values@, k as nat, descending),
{
    let n = values.len();
    let null_count = count_nones_bool_vec(values);
    if k >= n && null_count == 0 {
        return clone_opt_bools(values);
    }
    let true_count = count_trues_vec(values);
    proof {
        lemma_counts_bound_bool(values@);
    }
    let false_count = n - null_count - true_count;
    let out_len = if k < n {
        k
    } else {
        n
    };
    let mut out: Vec<Option<bool>> = Vec::new();
    let mut i: usize = 0;
    #[verifier::loop_isolation(false)]
    while i < out_len
        invariant
            i <= out_len,
            out@.len() == i,
            true_count == count_trues(values@),
            null_count == count_nones_bool(values@),
            false_count == values@.len() - null_count - true_count,
            forall|j: int|
                0 <= j < i ==> out@[j] == (if descending {
                    if j < false_count {
                        Some(false)
                    } else if j < false_count + true_count {
                        Some(true)
                    } else {
                        None
                    }
                } else {
                    if j < true_count {
                        Some(true)
                    } else if j < true_count + false_count {
                        Some(false)
                    } else {
                        None
                    }
                }),
        decreases out_len - i,
    {
        let v = if descending {
            if i < false_count {
                Some(false)
            } else if i < false_count + true_count {
                Some(true)
            } else {
                None
            }
        } else {
            if i < true_count {
                Some(true)
            } else if i < true_count + false_count {
                Some(false)
            } else {
                None
            }
        };
        out.push(v);
        i = i + 1;
    }
    proof {
        assert(out@ =~= spec_top_k_bool(values@, k as nat, descending));
    }
    out
}

/// Insertion into a descending-sorted sequence, before the first element
/// the value is not below.
pub open spec fn spec_insert_desc(s: Seq<i64>, x: i64) -> Seq<i64>
    decreases s,
{
    if s.len() == 0 {
        seq![x]
    } else if x >= s[0] {
        seq![x] + s
    } else {
        seq![s[0]] + spec_insert_desc(s.drop_first(), x)
    }
}

/// The descending insertion sort of a value sequence: the canonical order
/// the numeric selection returns its survivors in.
pub open spec fn spec_sort_desc(s: Seq<i64>) -> Seq<i64>
    decreases s,
{
    if s.len() == 0 {
        Seq::empty()
    } else {
        spec_insert_desc(spec_sort_desc(s.drop_last()), s.last())
    }
}

proof fn lemma_insert_desc_len(s: Seq<i64>, x: i64)
    ensures
        spec_insert_desc(s, x).len() == s.len() + 1,
    decreases s,
{
    if s.len() > 0 && !(x >= s[0]) {
        lemma_insert_desc_len(s.drop_first(), x);
    }
}

pub proof fn lemma_sort_desc_len(s: Seq<i64>)
    ensures
        spec_sort_desc(s).len() == s.len(),
    decreases s,
{
    if s.len() > 0 {
        lemma_sort_desc_len(s.drop_last());
        lemma_insert_desc_len(spec_sort_desc(s.drop_last()), s.last());
    }
}

proof fn lemma_insert_desc_at(s: Seq<i64>, x: i64, j: int)
    requires
        0 <= j <= s.len(),
        forall|i: int| 0 <= i < j ==> s[i] > x,
        j < s.len() ==> !(s[j] > x),
    ensures
        spec_insert_desc(s, x) == s.take(j) + seq![x] + s.skip(j),
    decreases s,
{
    if j == 0 {
        if s.len() == 0 {
            assert(seq![x] =~= s.take(0) + seq![x] + s.skip(0));
        } else {
            assert(x >= s[0]);
            assert(seq![x] + s =~= s.take(0) + seq![x] + s.skip(0));
        }
    } else {
        assert(s[0] > x);
        lemma_insert_desc_at(s.drop_first(), x, j - 1);
        assert(s.drop_first().take(j - 1) =~= s.take(j).drop_first());
        assert(seq![s[0]] + (s.drop_first().take(j - 1) + seq![x] + s.drop_first().skip(j - 1))
            =~= s.take(j) + seq![x] + s.skip(j));
    }
}

/// Sort values descending; the output is exactly the specification-level
/// insertion sort.
pub fn sort_desc_i64(v: &Vec<i64>) -> (r: Vec<i64>)
    ensures
        r@ == spec_sort_desc(v@),
{
    let mut out: Vec<i64> = Vec::new();
    let mut i: usize = 0;
    #[verifier::loop_isolation(false)]
    while i < v.len()
        invariant
            i <= v@.len(),
            out@ == spec_sort_desc(v@.take(i as int)),
            out@.len() == i,
        decreases v@.len() - i,
    {
        let x = v[i];
        let mut j: usize = 0;
        while j < out.len() && out[j] > x
            invariant
                j <= out@.len(),
                forall|l: int| 0 <= l < j ==> out@[l] > x,
            decreases out@.len() - j,
        {
            j = j + 1;
        }
        let ghost out_old = out@;
        out.insert(j, x);
        proof {
            lemma_insert_desc_at(out_old, x, j as int);
            assert(out@ =~= out_old.take(j as int) + seq![x] + out_old.skip(j as int));
            assert(v@.take(i + 1).drop_last() =~= v@.take(i as int));
            assert(v@.take(i + 1).last() == v@[i as int]);
            lemma_insert_desc_len(out_old, x);
        }
        i = i + 1;
    }
    proof {
        assert(v@.take(v@.len() as int) =~= v@);
    }
    out
}

/// The non-null values of a column, in order.
pub open spec fn somes_i64(s: Seq<Option<i64>>) -> Seq<i64>
    decreases s,
{
    if s.len() == 0 {
        Seq::empty()
    } else {
        somes_i64(s.drop_last()) + (match s.last() {
            Some(v) => seq![v],
            None => Seq::<i64>::empty(),
        })
    }
}

fn collect_somes_i64(v: &Vec<Option<i64>>) -> (r: Vec<i64>)
    ensures
        r@ == somes_i64(v@),
{
    let mut out: Vec<i64> = Vec::new();
    let mut i: usize = 0;
    #[verifier::loop_isolation(false)]
    while i < v.len()
        invariant
            i <= v@.len(),
            out@ == somes_i64(v@.take(i as int)),
        decreases v@.len() - i,
    {
        proof {
            assert(v@.take(i + 1).drop_last() =~= v@.take(i as int));
            assert(v@.take(i + 1).last() == v@[i as int]);
        }
        match v[i] {
            Some(x) => {
                out.push(x);
                proof {
                    assert(somes_i64(v@.take(i as int)) + seq![v@[i as int]->0] =~= out@);
                }
            },
            None => {
                proof {
                    assert(somes_i64(v@.take(i as int)) + Seq::<i64>::empty() =~= out@);
                }
            },
        }
        i = i + 1;
    }
    proof {
        assert(v@.take(v@.len() as int) =~= v@);
    }
    out
}

fn reverse_i64(v: &Vec<i64>) -> (r: Vec<i64>)
    ensures
        r@ == v@.reverse(),
{
    let n = v.len();
    let mut out: Vec<i64> = Vec::new();
    let mut i: usize = 0;
    #[verifier::loop_isolation(false)]
    while i < n
        invariant
            i <= n,
            n == v@.len(),
            out@.len() == i,
            forall|j: int| 0 <= j < i ==> out@[j] == v@[n - 1 - j],
        decreases n - i,
    {
        out.push(v[n - 1 - i]);
        i = i + 1;
    }
    proof {
        assert(out@ =~= v@.reverse());
    }
    out
}

fn clone_opt_i64s(v: &Vec<Option<i64>>) -> (r: Vec<Option<i64>>)
    ensures
        r@ == v@,
{
    let mut out: Vec<Option<i64>> = Vec::new();
    let mut i: usize = 0;
    while i < v.len()
        invariant
            i <= v@.len(),
            out@ =~= v@.take(i as int),
        decreases v@.len() - i,
    {
        out.push(v[i]);
        i = i + 1;
    }
    proof {
        assert(v@.take(v@.len() as int) =~= v@);
    }
    out
}

fn count_nones_i64_vec(v: &Vec<Option<i64>>) -> (r: usize)
    ensures
        r == count_nones_i64(v@),
{
    let mut cnt: usize = 0;
    let mut i: usize = 0;
    #[verifier::loop_isolation(false)]
    while i < v.len()
        invariant
            i <= v@.len(),
            cnt <= i,
            cnt == count_nones_i64(v@.take(i as int)),
        decreases v@.len() - i,
    {
        proof {
            assert(v@.take(i + 1).drop_last() =~= v@.take(i as int));
            assert(v@.take(i + 1).last() == v@[i as int]);
        }
        if v[i].is_none() {
            cnt = cnt + 1;
        }
        i = i + 1;
    }
    proof {
        assert(v@.take(v@.len() as int) =~= v@);
    }
    cnt
}

/// What numeric top-k yields: the input itself when nothing is cut,
/// otherwise the extreme values in key order — largest first by default,
/// smallest first when descending — with the null slots at the end.
pub open spec fn spec_top_k_num(s: Seq<Option<i64>>, k: nat, descending: bool) -> Seq<
    Option<i64>,
> {
    if k >= s.len() && count_nones_i64(s) == 0 {
        s
    } else {
        let nn = somes_i64(s);
        let sorted = if descending {
            spec_sort_desc(nn).reverse()
        } else {
            spec_sort_desc(nn)
        };
        let out_len = spec_min(k, s.len());
        let m = spec_min(k, nn.len());
        Seq::new(
            out_len,
            |i: int|
                if i < m {
                    Some(sorted[i])
                } else {
                    None
                },
        )
    }
}

/// Numeric top-k: drop the nulls, order the survivors, pad with nulls.
pub fn top_k_num_impl(values: &Vec<Option<i64>>, k: usize, descending: bool) -> (r: Vec<
    Option<i64>,
>)
    ensures
        r@ == spec_top_k_num(values@, k as nat, descending),
{
    let n = values.len();
    let null_count = count_nones_i64_vec(values);
    if k >= n && null_count == 0 {
        return clone_opt_i64s(values);
    }
    let nn = collect_somes_i64(values);
    let sorted_desc = sort_desc_i64(&nn);
    let sorted = if descending {
        reverse_i64(&sorted_desc)
    } else {
        sorted_desc
    };
    proof {
        lemma_sort_desc_len(nn@);
    }
    let out_len = if k < n {
        k
    } else {
        n
    };
    let m = if k < nn.len() {
        k
    } else {
        nn.len()
    };
    let mut out: Vec<Option<i64>> = Vec::new();
    let mut i: usize = 0;
    #[verifier::loop_isolation(false)]
    while i < out_len
        invariant
            i <= out_len,
            out@.len() == i,
            m <= sorted@.len(),
            forall|j: int|
                0 <= j < i ==> out@[j] == (if j < m {
                    Some(sorted@[j])
                } else {
                    None::<i64>
                }),
        decreases out_len - i,
    {
        let v = if i < m {
            Some(sorted[i])
        } else {
            None
        };
        out.push(v);
        i = i + 1;
    }
    proof {
        assert(out@ =~= spec_top_k_num(values@, k as nat, descending));
    }
    out
}

/// The mathematical view of a column.
pub enum ColumnV {
    Int64 { name: Seq<char>, values: Seq<Option<i64>>, sorted: IsSorted },
    Boolean { name: Seq<char>, values: Seq<Option<bool>>, sorted: IsSorted },
    Binary { name: Seq<char>, values: Seq<Option<Seq<u8>>>, sorted: IsSorted },
    Null { name: Seq<char>, len: nat },
}

impl View for Column {
    type V = ColumnV;

    open spec fn view(&self) -> ColumnV {
        match self {
            Column::Int64 { name, values, sorted } => ColumnV::Int64 {
                name: name@,
                values: values@,
                sorted: *sorted,
            },
            Column::Boolean { name, values, sorted } => ColumnV::Boolean {
                name: name@,
                values: values@,
                sorted: *sorted,
            },
            Column::Binary { name, values, sorted } => ColumnV::Binary {
                name: name@,
                values: values.deep_view(),
                sorted: *sorted,
            },
            Column::Null { name, len } => ColumnV::Null { name: name@, len: *len as nat },
        }
    }
}

/// The row count of a column view.
pub open spec fn col_v_len(v: ColumnV) -> nat {
    match v {
        ColumnV::Int64 { values, .. } => values.len(),
        ColumnV::Boolean { values, .. } => values.len(),
        ColumnV::Binary { values, .. } => values.len(),
        ColumnV::Null { len, .. } => len,
    }
}

/// The view of the contiguous slice `[start, start + length)` of a column;
/// slicing keeps the name and the sortedness flag.
pub open spec fn spec_col_slice(c: Column, start: int, length: int) -> ColumnV {
    match c {
        Column::Int64 { name, values, sorted } => ColumnV::Int64 {
            name: name@,
            values: values@.subrange(start, start + length),
            sorted,
        },
        Column::Boolean { name, values, sorted } => ColumnV::Boolean {
            name: name@,
            values: values@.subrange(start, start + length),
            sorted,
        },
        Column::Binary { name, values, sorted } => ColumnV::Binary {
            name: name@,
            values: values.deep_view().subrange(start, start + length),
            sorted,
        },
        Column::Null { name, .. } => ColumnV::Null { name: name@, len: length as nat },
    }
}

fn clone_opt_bytes(v: &Option<Vec<u8>>) -> (r: Option<Vec<u8>>)
    ensures
        r.deep_view() == v.deep_view(),
{
    match v {
        None => None,
        Some(b) => Some(crate::reader::clone_u8s(b)),
    }
}

impl Column {
    /// The contiguous slice `[offset, offset + length)` of the column.
    pub fn slice(&self, offset: usize, length: usize) -> (r: Column)
        requires
            offset + length <= self.spec_len(),
        ensures
            r@ == spec_col_slice(*self, offset as int, length as int),
    {
        match self {
            Column::Int64 { name, values, sorted } => {
                let vlen = values.len();
                let mut out: Vec<Option<i64>> = Vec::new();
                let mut i: usize = 0;
                #[verifier::loop_isolation(false)]
                while i < length
                    invariant
                        i <= length,
                        vlen == values@.len(),
                        offset + length <= vlen,
                        out@ =~= values@.subrange(offset as int, offset + i),
                    decreases length - i,
                {
                    out.push(values[offset + i]);
                    proof {
                        assert(out@ =~= values@.subrange(offset as int, offset + i + 1));
                    }
                    i = i + 1;
                }
                Column::Int64 {
                    name: crate::reader::clone_string(name),
                    values: out,
                    sorted: *sorted,
                }
            },
            Column::Boolean { name, values, sorted } => {
                let vlen = values.len();
                let mut out: Vec<Option<bool>> = Vec::new();
                let mut i: usize = 0;
                #[verifier::loop_isolation(false)]
                while i < length
                    invariant
                        i <= length,
                        vlen == values@.len(),
                        offset + length <= vlen,
                        out@ =~= values@.subrange(offset as int, offset + i),
                    decreases length - i,
                {
                    out.push(values[offset + i]);
                    proof {
                        assert(out@ =~= values@.subrange(offset as int, offset + i + 1));
                    }
                    i = i + 1;
                }
                Column::Boolean {
                    name: crate::reader::clone_string(name),
                    values: out,
                    sorted: *sorted,
                }
            },
            Column::Binary { name, values, sorted } => {
                let vlen = values.len();
                let mut out: Vec<Option<Vec<u8>>> = Vec::new();
                let mut i: usize = 0;
                #[verifier::loop_isolation(false)]
                while i < length
                    invariant
                        i <= length,
                        vlen == values@.len(),
                        offset + length <= vlen,
                        out.deep_view() =~= values.deep_view().subrange(offset as int, offset + i),
                    decreases length - i,
                {
                    let b = clone_opt_bytes(&values[offset + i]);
                    out.push(b);
                    proof {
                        assert(out.deep_view() =~~= values.deep_view().subrange(
                            offset as int,
                            offset + i + 1,
                        ));
                    }
                    i = i + 1;
                }
                Column::Binary {
                    name: crate::reader::clone_string(name),
                    values: out,
                    sorted: *sorted,
                }
            },
            Column::Null { name, .. } => Column::Null {
                name: crate::reader::clone_string(name),
                len: length,
            },
        }
    }

    /// A full copy of the column.
    pub fn clone_column(&self) -> (r: Column)
        ensures
            r@ == self@,
    {
        let n = self.len();
        let r = self.slice(0, n);
        proof {
            match self {
                Column::Int64 { values, .. } => {
                    assert(values@.subrange(0, values@.len() as int) =~= values@);
                },
                Column::Boolean { values, .. } => {
                    assert(values@.subrange(0, values@.len() as int) =~= values@);
                },
                Column::Binary { values, .. } => {
                    assert(values.deep_view().subrange(0, values.deep_view().len() as int)
                        =~= values.deep_view());
                },
                Column::Null { .. } => {},
            }
        }
        r
    }

    /// The rows of the column at the given positions, in that order. The
    /// gathered column makes no sortedness claim.
    pub fn take_rows(&self, idx: &Vec<usize>) -> (r: Column)
        requires
            forall|t: int| 0 <= t < idx@.len() ==> (#[trigger] idx@[t]) < self.spec_len(),
        ensures
            r@ == spec_col_take(*self, idx@),
    {
        match self {
            Column::Int64 { name, values, .. } => {
                let mut out: Vec<Option<i64>> = Vec::new();
                let mut t: usize = 0;
                #[verifier::loop_isolation(false)]
                while t < idx.len()
                    invariant
                        t <= idx@.len(),
                        out@.len() == t,
                        forall|l: int| 0 <= l < t ==> out@[l] == values@[idx@[l] as int],
                    decreases idx@.len() - t,
                {
                    out.push(values[idx[t]]);
                    t = t + 1;
                }
                proof {
                    assert(out@ =~= Seq::new(idx@.len(), |l: int| values@[idx@[l] as int]));
                }
                Column::Int64 {
                    name: crate::reader::clone_string(name),
                    values: out,
                    sorted: IsSorted::Not,
                }
            },
            Column::Boolean { name, values, .. } => {
                let mut out: Vec<Option<bool>> = Vec::new();
                let mut t: usize = 0;
                #[verifier::loop_isolation(false)]
                while t < idx.len()
                    invariant
                        t <= idx@.len(),
                        out@.len() == t,
                        forall|l: int| 0 <= l < t ==> out@[l] == values@[idx@[l] as int],
                    decreases idx@.len() - t,
                {
                    out.push(values[idx[t]]);
                    t = t + 1;
                }
                proof {
                    assert(out@ =~= Seq::new(idx@.len(), |l: int| values@[idx@[l] as int]));
                }
                Column::Boolean {
                    name: crate::reader::clone_string(name),
                    values: out,
                    sorted: IsSorted::Not,
                }
            },
            Column::Binary { name, values, .. } => {
                let mut out: Vec<Option<Vec<u8>>> = Vec::new();
                let mut t: usize = 0;
                #[verifier::loop_isolation(false)]
                while t < idx.len()
                    invariant
                        t <= idx@.len(),
                        out@.len() == t,
                        forall|l: int|
                            0 <= l < t ==> out.deep_view()[l] == values.deep_view()[idx@[l] as int],
                    decreases idx@.len() - t,
                {
                    let b = clone_opt_bytes(&values[idx[t]]);
                    let ghost bd = b.deep_view();
                    let ghost prev = out@;
                    let ghost prev_deep = out.deep_view();
                    out.push(b);
                    proof {
                        assert forall|l: int| 0 <= l < t + 1 implies out.deep_view()[l]
                            == values.deep_view()[idx@[l] as int] by {
                            assert(out.deep_view()[l] == out@[l].deep_view());
                            assert(values.deep_view()[idx@[l] as int] == values@[idx@[l] as int]
                                .deep_view());
                            if l < t {
                                assert(out@[l] == prev[l]);
                                assert(prev_deep[l] == prev[l].deep_view());
                            } else {
                                assert(out@[l] == out@.last());
                                assert(out@.last().deep_view() == bd);
                                assert(bd == values@[idx@[t as int] as int].deep_view());
                            }
                        }
                    }
                    t = t + 1;
                }
                proof {
                    assert(out.deep_view() =~~= Seq::new(
                        idx@.len(),
                        |l: int| values.deep_view()[idx@[l] as int],
                    ));
                }
                Column::Binary {
                    name: crate::reader::clone_string(name),
                    values: out,
                    sorted: IsSorted::Not,
                }
            },
            Column::Null { name, .. } => Column::Null {
                name: crate::reader::clone_string(name),
                len: idx.len(),
            },
        }
    }
}

/// Lexicographic byte order, as the engine orders binary keys.
pub open spec fn lex_ge(a: Seq<u8>, b: Seq<u8>) -> bool
    decreases a,
{
    if b.len() == 0 {
        true
    } else if a.len() == 0 {
        false
    } else if a[0] > b[0] {
        true
    } else if a[0] < b[0] {
        false
    } else {
        lex_ge(a.drop_first(), b.drop_first())
    }
}

pub open spec fn bytes_gt(a: Seq<u8>, b: Seq<u8>) -> bool {
    lex_ge(a, b) && a != b
}

/// Compare two byte keys.
pub fn bytes_ge(a: &Vec<u8>, b: &Vec<u8>) -> (r: bool)
    ensures
        r == lex_ge(a@, b@),
{
    let an = a.len();
    let bn = b.len();
    let mut i: usize = 0;
    proof {
        assert(a@.skip(0) =~= a@);
        assert(b@.skip(0) =~= b@);
    }
    #[verifier::loop_isolation(false)]
    while i < an && i < bn
        invariant
            i <= an,
            i <= bn,
            an == a@.len(),
            bn == b@.len(),
            lex_ge(a@, b@) == lex_ge(a@.skip(i as int), b@.skip(i as int)),
        decreases an - i,
    {
        proof {
            assert(a@.skip(i as int)[0] == a@[i as int]);
            assert(b@.skip(i as int)[0] == b@[i as int]);
            assert(a@.skip(i as int).drop_first() =~= a@.skip(i + 1));
            assert(b@.skip(i as int).drop_first() =~= b@.skip(i + 1));
        }
        if a[i] > b[i] {
            return true;
        }
        if a[i] < b[i] {
            return false;
        }
        i = i + 1;
    }
    proof {
        if i >= bn {
            assert(b@.skip(i as int).len() == 0);
        } else {
            assert(a@.skip(i as int).len() == 0);
            assert(b@.skip(i as int).len() > 0);
        }
    }
    bn <= an
}

/// Compare two byte keys for equality.
pub fn bytes_eq(a: &Vec<u8>, b: &Vec<u8>) -> (r: bool)
    ensures
        r == (a@ == b@),
{
    if a.len() != b.len() {
        return false;
    }
    let n = a.len();
    let mut i: usize = 0;
    #[verifier::loop_isolation(false)]
    while i < n
        invariant
            i <= n,
            n == a@.len() == b@.len(),
            forall|l: int| 0 <= l < i ==> a@[l] == b@[l],
        decreases n - i,
    {
        if a[i] != b[i] {
            return false;
        }
        i = i + 1;
    }
    proof {
        assert(a@ =~= b@);
    }
    true
}

/// Whether key row `i` comes strictly before row `j` in one key column's
/// output order: nulls sort last; by default the larger value comes first,
/// with `descending` the smaller one.
pub open spec fn spec_cell_before(c: ColumnV, descending: bool, i: int, j: int) -> bool {
    match c {
        ColumnV::Int64 { values, .. } => match (values[i], values[j]) {
            (None, _) => false,
            (Some(_), None) => true,
            (Some(a), Some(b)) => if descending {
                a < b
            } else {
                a > b
            },
        },
        ColumnV::Boolean { values, .. } => match (values[i], values[j]) {
            (None, _) => false,
            (Some(_), None) => true,
            (Some(a), Some(b)) => if descending {
                !a && b
            } else {
                a && !b
            },
        },
        ColumnV::Binary { values, .. } => match (values[i], values[j]) {
            (None, _) => false,
            (Some(_), None) => true,
            (Some(a), Some(b)) => if descending {
                bytes_gt(b, a)
            } else {
                bytes_gt(a, b)
            },
        },
        ColumnV::Null { .. } => false,
    }
}

/// Whether row `i` comes strictly before row `j` under the key columns in
/// order, with the original position as the final tie break (stability).
pub open spec fn spec_row_before(by: Seq<ColumnV>, desc: Seq<bool>, i: int, j: int) -> bool
    decreases by,
{
    if by.len() == 0 {
        i < j
    } else if spec_cell_before(by[0], desc[0], i, j) {
        true
    } else if spec_cell_before(by[0], desc[0], j, i) {
        false
    } else {
        spec_row_before(by.drop_first(), desc.drop_first(), i, j)
    }
}

pub open spec fn cols_views(s: Seq<Column>) -> Seq<ColumnV> {
    Seq::new(s.len(), |c: int| s[c]@)
}

fn cell_before(c: &Column, descending: bool, i: usize, j: usize) -> (r: bool)
    requires
        i < c.spec_len(),
        j < c.spec_len(),
    ensures
        r == spec_cell_before(c@, descending, i as int, j as int),
{
    match c {
        Column::Int64 { values, .. } => {
            let vi = values[i];
            let vj = values[j];
            match (vi, vj) {
                (None, _) => false,
                (Some(_), None) => true,
                (Some(a), Some(b)) => if descending {
                    a < b
                } else {
                    a > b
                },
            }
        },
        Column::Boolean { values, .. } => {
            let vi = values[i];
            let vj = values[j];
            match (vi, vj) {
                (None, _) => false,
                (Some(_), None) => true,
                (Some(a), Some(b)) => if descending {
                    !a && b
                } else {
                    a && !b
                },
            }
        },
        Column::Binary { values, .. } => match (&values[i], &values[j]) {
            (None, _) => {
                proof {
                    assert(c@->Binary_values[i as int] == values@[i as int].deep_view());
                }
                false
            },
            (Some(_), None) => {
                proof {
                    assert(c@->Binary_values[i as int] == values@[i as int].deep_view());
                    assert(c@->Binary_values[j as int] == values@[j as int].deep_view());
                }
                true
            },
            (Some(a), Some(b)) => {
                proof {
                    assert(c@->Binary_values[i as int] == values@[i as int].deep_view());
                    assert(c@->Binary_values[j as int] == values@[j as int].deep_view());
                    assert(values@[i as int].deep_view() == Some(a.deep_view()));
                    assert(values@[j as int].deep_view() == Some(b.deep_view()));
                    assert(a.deep_view() =~= a@);
                    assert(b.deep_view() =~= b@);
                }
                if descending {
                    bytes_ge(b, a) && !bytes_eq(b, a)
                } else {
                    bytes_ge(a, b) && !bytes_eq(a, b)
                }
            },
        },
        Column::Null { .. } => false,
    }
}

fn row_before(by: &Vec<Column>, desc: &Vec<bool>, i: usize, j: usize) -> (r: bool)
    requires
        by@.len() == desc@.len(),
        forall|c: int| 0 <= c < by@.len() ==> i < (#[trigger] by@[c]).spec_len(),
        forall|c: int| 0 <= c < by@.len() ==> j < (#[trigger] by@[c]).spec_len(),
    ensures
        r == spec_row_before(cols_views(by@), desc@, i as int, j as int),
{
    let ghost bv = cols_views(by@);
    let mut c: usize = 0;
    proof {
        assert(bv.skip(0) =~= bv);
        assert(desc@.skip(0) =~= desc@);
    }
    #[verifier::loop_isolation(false)]
    while c < by.len()
        invariant
            c <= by@.len(),
            bv.len() == by@.len(),
            spec_row_before(bv, desc@, i as int, j as int) == spec_row_before(
                bv.skip(c as int),
                desc@.skip(c as int),
                i as int,
                j as int,
            ),
        decreases by@.len() - c,
    {
        proof {
            assert(bv.skip(c as int)[0] == bv[c as int]);
            assert(desc@.skip(c as int)[0] == desc@[c as int]);
            assert(bv.skip(c as int).drop_first() =~= bv.skip(c + 1));
            assert(desc@.skip(c as int).drop_first() =~= desc@.skip(c + 1));
        }
        if cell_before(&by[c], desc[c], i, j) {
            return true;
        }
        if cell_before(&by[c], desc[c], j, i) {
            return false;
        }
        c = c + 1;
    }
    proof {
        assert(bv.skip(bv.len() as int).len() == 0);
    }
    i < j
}

/// Stable insertion of a row index into an already ordered index
/// sequence.
pub open spec fn spec_insert_row(
    by: Seq<ColumnV>,
    desc: Seq<bool>,
    s: Seq<usize>,
    x: usize,
) -> Seq<usize>
    decreases s,
{
    if s.len() == 0 {
        seq![x]
    } else if spec_row_before(by, desc, s[0] as int, x as int) {
        seq![s[0]] + spec_insert_row(by, desc, s.drop_first(), x)
    } else {
        seq![x] + s
    }
}

/// The stable ordering of row indices `0..n` under the key columns: the
/// canonical order multi-key selection takes its survivors from.
pub open spec fn spec_argsort(by: Seq<ColumnV>, desc: Seq<bool>, n: nat) -> Seq<usize>
    decreases n,
{
    if n == 0 {
        Seq::empty()
    } else {
        spec_insert_row(by, desc, spec_argsort(by, desc, (n - 1) as nat), (n - 1) as usize)
    }
}

proof fn lemma_insert_row_len(by: Seq<ColumnV>, desc: Seq<bool>, s: Seq<usize>, x: usize)
    ensures
        spec_insert_row(by, desc, s, x).len() == s.len() + 1,
    decreases s,
{
    if s.len() > 0 && spec_row_before(by, desc, s[0] as int, x as int) {
        lemma_insert_row_len(by, desc, s.drop_first(), x);
    }
}

pub proof fn lemma_argsort_len(by: Seq<ColumnV>, desc: Seq<bool>, n: nat)
    ensures
        spec_argsort(by, desc, n).len() == n,
    decreases n,
{
    if n > 0 {
        lemma_argsort_len(by, desc, (n - 1) as nat);
        lemma_insert_row_len(by, desc, spec_argsort(by, desc, (n - 1) as nat), (n - 1) as usize);
    }
}

proof fn lemma_insert_row_bounds(
    by: Seq<ColumnV>,
    desc: Seq<bool>,
    s: Seq<usize>,
    x: usize,
    n: nat,
)
    requires
        forall|t: int| 0 <= t < s.len() ==> (#[trigger] s[t]) < n,
        x < n,
    ensures
        forall|t: int|
            0 <= t < spec_insert_row(by, desc, s, x).len() ==> (#[trigger] spec_insert_row(
                by,
                desc,
                s,
                x,
            )[t]) < n,
    decreases s,
{
    lemma_insert_row_len(by, desc, s, x);
    if s.len() == 0 {
        assert(spec_insert_row(by, desc, s, x) == seq![x]);
    } else if spec_row_before(by, desc, s[0] as int, x as int) {
        lemma_insert_row_bounds(by, desc, s.drop_first(), x, n);
        let rest = spec_insert_row(by, desc, s.drop_first(), x);
        assert forall|t: int| 0 <= t < spec_insert_row(by, desc, s, x).len() implies (
        #[trigger] spec_insert_row(by, desc, s, x)[t]) < n by {
            if t == 0 {
                assert(spec_insert_row(by, desc, s, x)[0] == s[0]);
            } else {
                assert(spec_insert_row(by, desc, s, x)[t] == rest[t - 1]);
            }
        }
    } else {
        assert forall|t: int| 0 <= t < spec_insert_row(by, desc, s, x).len() implies (
        #[trigger] spec_insert_row(by, desc, s, x)[t]) < n by {
            if t == 0 {
                assert(spec_insert_row(by, desc, s, x)[0] == x);
            } else {
                assert(spec_insert_row(by, desc, s, x)[t] == s[t - 1]);
            }
        }
    }
}

pub proof fn lemma_argsort_bounds(by: Seq<ColumnV>, desc: Seq<bool>, n: nat)
    ensures
        forall|t: int|
            0 <= t < spec_argsort(by, desc, n).len() ==> (#[trigger] spec_argsort(by, desc, n)[t])
                < n,
    decreases n,
{
    if n > 0 {
        lemma_argsort_bounds(by, desc, (n - 1) as nat);
        assert forall|t: int|
            0 <= t < spec_argsort(by, desc, (n - 1) as nat).len() implies (#[trigger] spec_argsort(
            by,
            desc,
            (n - 1) as nat,
        )[t]) < n by {}
        lemma_insert_row_bounds(by, desc, spec_argsort(by, desc, (n - 1) as nat), (n - 1) as usize, n);
    }
}

proof fn lemma_insert_row_at(
    by: Seq<ColumnV>,
    desc: Seq<bool>,
    s: Seq<usize>,
    x: usize,
    j: int,
)
    requires
        0 <= j <= s.len(),
        forall|l: int| 0 <= l < j ==> spec_row_before(by, desc, (#[trigger] s[l]) as int, x as int),
        j < s.len() ==> !spec_row_before(by, desc, s[j] as int, x as int),
    ensures
        spec_insert_row(by, desc, s, x) == s.take(j) + seq![x] + s.skip(j),
    decreases s,
{
    if j == 0 {
        if s.len() == 0 {
            assert(seq![x] =~= s.take(0) + seq![x] + s.skip(0));
        } else {
            assert(seq![x] + s =~= s.take(0) + seq![x] + s.skip(0));
        }
    } else {
        assert(spec_row_before(by, desc, s[0] as int, x as int));
        lemma_insert_row_at(by, desc, s.drop_first(), x, j - 1);
        assert(s.drop_first().take(j - 1) =~= s.take(j).drop_first());
        assert(seq![s[0]] + (s.drop_first().take(j - 1) + seq![x] + s.drop_first().skip(j - 1))
            =~= s.take(j) + seq![x] + s.skip(j));
    }
}

/// Order the row indices of `n` rows by the key columns, stably.
#[verifier::loop_isolation(false)]
pub fn argsort_rows(by: &Vec<Column>, desc: &Vec<bool>, n: usize) -> (r: Vec<usize>)
    requires
        by@.len() == desc@.len(),
        forall|c: int| 0 <= c < by@.len() ==> (#[trigger] by@[c]).spec_len() == n,
    ensures
        r@ == spec_argsort(cols_views(by@), desc@, n as nat),
        r@.len() == n,
{
    let ghost bv = cols_views(by@);
    let mut out: Vec<usize> = Vec::new();
    let mut i: usize = 0;
    while i < n
        invariant
            i <= n,
            out@ == spec_argsort(bv, desc@, i as nat),
            out@.len() == i,
            forall|t: int| 0 <= t < out@.len() ==> (#[trigger] out@[t]) < i,
        decreases n - i,
    {
        let x = i;
        let mut j: usize = 0;
        while j < out.len() && row_before(by, desc, out[j], x)
            invariant
                j <= out@.len(),
                forall|l: int|
                    0 <= l < j ==> spec_row_before(bv, desc@, (#[trigger] out@[l]) as int, x as int),
            decreases out@.len() - j,
        {
            j = j + 1;
        }
        let ghost out_old = out@;
        out.insert(j, x);
        proof {
            lemma_insert_row_at(bv, desc@, out_old, x, j as int);
            assert(out@ =~= out_old.take(j as int) + seq![x] + out_old.skip(j as int));
            lemma_insert_row_len(bv, desc@, out_old, x);
            lemma_insert_row_bounds(bv, desc@, out_old, x, (i + 1) as nat);
        }
        i = i + 1;
    }
    out
}

/// The view of a gather of the column's rows at the given positions.
pub open spec fn spec_col_take(c: Column, idx: Seq<usize>) -> ColumnV {
    match c {
        Column::Int64 { name, values, .. } => ColumnV::Int64 {
            name: name@,
            values: Seq::new(idx.len(), |l: int| values@[idx[l] as int]),
            sorted: IsSorted::Not,
        },
        Column::Boolean { name, values, .. } => ColumnV::Boolean {
            name: name@,
            values: Seq::new(idx.len(), |l: int| values@[idx[l] as int]),
            sorted: IsSorted::Not,
        },
        Column::Binary { name, values, .. } => ColumnV::Binary {
            name: name@,
            values: Seq::new(idx.len(), |l: int| values.deep_view()[idx[l] as int]),
            sorted: IsSorted::Not,
        },
        Column::Null { name, .. } => ColumnV::Null { name: name@, len: idx.len() },
    }
}

/// The `k` argument extracted from its single-value column: a
/// non-negative count, clamped to the machine range.
pub open spec fn spec_extract_k(c: Column) -> Result<nat, TopKError> {
    if c.spec_len() != 1 {
        Err(TopKError::KNotSingle { len: c.spec_len() as usize })
    } else {
        match c {
            Column::Int64 { values, .. } => match values@[0] {
                None => Err(TopKError::KNotSet),
                Some(v) => if v < 0 {
                    Err(TopKError::KInvalid { value: v })
                } else {
                    Ok(spec_min(v as nat, usize::MAX as nat))
                },
            },
            Column::Boolean { values, .. } => match values@[0] {
                None => Err(TopKError::KNotSet),
                Some(b) => Ok(
                    if b {
                        1nat
                    } else {
                        0nat
                    },
                ),
            },
            Column::Binary { .. } => Err(TopKError::KNotNumeric),
            Column::Null { .. } => Err(TopKError::KNotSet),
        }
    }
}

/// Extract `k` from its column.
pub fn extract_k(c: &Column) -> (r: Result<usize, TopKError>)
    ensures
        match r {
            Ok(k) => spec_extract_k(*c) == Ok::<nat, TopKError>(k as nat),
            Err(e) => spec_extract_k(*c) == Err::<nat, TopKError>(e),
        },
{
    let n = c.len();
    if n != 1 {
        return Err(TopKError::KNotSingle { len: n });
    }
    match c {
        Column::Int64 { values, .. } => match values[0] {
            None => Err(TopKError::KNotSet),
            Some(v) => {
                if v < 0 {
                    Err(TopKError::KInvalid { value: v })
                } else if v as u64 > usize::MAX as u64 {
                    Ok(usize::MAX)
                } else {
                    Ok(v as usize)
                }
            },
        },
        Column::Boolean { values, .. } => match values[0] {
            None => Err(TopKError::KNotSet),
            Some(b) => Ok(
                if b {
                    1
                } else {
                    0
                },
            ),
        },
        Column::Binary { .. } => Err(TopKError::KNotNumeric),
        Column::Null { .. } => Err(TopKError::KNotSet),
    }
}

/// What binary top-k yields: the rows at the stably ordered positions,
/// extreme keys first, nulls last.
pub open spec fn spec_top_k_bin(vals: Seq<Option<Seq<u8>>>, k: nat, descending: bool) -> Seq<
    Option<Seq<u8>>,
> {
    let col = ColumnV::Binary { name: Seq::empty(), values: vals, sorted: IsSorted::Not };
    let idx = spec_argsort(seq![col], seq![descending], vals.len()).take(
        spec_min(k, vals.len()) as int,
    );
    Seq::new(idx.len(), |l: int| vals[idx[l] as int])
}

/// Binary top-k: order the row positions by key, keep the first `k`.
#[verifier::loop_isolation(false)]
pub fn top_k_binary_impl(values: &Vec<Option<Vec<u8>>>, k: usize, descending: bool) -> (r: Vec<
    Option<Vec<u8>>,
>)
    ensures
        r.deep_view() == spec_top_k_bin(values.deep_view(), k as nat, descending),
{
    let n = values.len();
    let mut anon_values: Vec<Option<Vec<u8>>> = Vec::new();
    let mut i: usize = 0;
    while i < n
        invariant
            i <= n,
            n == values@.len(),
            anon_values@.len() == i,
            forall|l: int|
                0 <= l < i ==> (#[trigger] anon_values@[l]).deep_view() == values@[l].deep_view(),
        decreases n - i,
    {
        let b = clone_opt_bytes(&values[i]);
        anon_values.push(b);
        i = i + 1;
    }
    proof {
        assert(anon_values.deep_view() =~~= values.deep_view());
    }
    let anon = Column::Binary { name: String::new(), values: anon_values, sorted: IsSorted::Not };
    let mut by: Vec<Column> = Vec::new();
    by.push(anon);
    let mut desc: Vec<bool> = Vec::new();
    desc.push(descending);
    let ghost anon_v = ColumnV::Binary {
        name: Seq::empty(),
        values: values.deep_view(),
        sorted: IsSorted::Not,
    };
    proof {
        assert(by@[0]@ == anon_v);
        assert(cols_views(by@) =~= seq![anon_v]);
        assert(desc@ =~= seq![descending]);
    }
    let idx = argsort_rows(&by, &desc, n);
    proof {
        lemma_argsort_bounds(cols_views(by@), desc@, n as nat);
    }
    let m = if k < n {
        k
    } else {
        n
    };
    let mut out: Vec<Option<Vec<u8>>> = Vec::new();
    let mut t: usize = 0;
    while t < m
        invariant
            t <= m,
            m <= idx@.len(),
            out@.len() == t,
            forall|l: int| 0 <= l < idx@.len() ==> (#[trigger] idx@[l]) < n,
            forall|l: int|
                0 <= l < t ==> (#[trigger] out@[l]).deep_view() == values@[idx@[l] as int]
                    .deep_view(),
        decreases m - t,
    {
        let b = clone_opt_bytes(&values[idx[t]]);
        out.push(b);
        t = t + 1;
    }
    proof {
        assert(idx@.take(m as int).len() == m);
        assert forall|l: int| 0 <= l < m implies out.deep_view()[l] == spec_top_k_bin(
            values.deep_view(),
            k as nat,
            descending,
        )[l] by {
            assert(out.deep_view()[l] == out@[l].deep_view());
            assert(idx@.take(m as int)[l] == idx@[l]);
            assert(values.deep_view()[idx@[l] as int] == values@[idx@[l] as int].deep_view());
        }
        assert(out.deep_view() =~~= spec_top_k_bin(values.deep_view(), k as nat, descending));
    }
    out
}

/// What selecting the top `k` rows of one column yields.
///
/// An empty column passes through. A column whose statistics say it is
/// already sorted is sliced: from whichever end holds the wanted extreme,
/// shifted past the nulls when they sit on that end. Otherwise the typed
/// selection runs: counting for booleans, value ordering for integers,
/// stable index ordering for binary keys, plain truncation for null
/// columns.
pub open spec fn spec_top_k_result(src: Column, k: nat, descending: bool) -> ColumnV {
    let len = src.spec_len();
    if len == 0 {
        src@
    } else if src.spec_sorted() is Ascending || src.spec_sorted() is Descending {
        let out_len = spec_min(k, len);
        let ignored = (len - out_len) as nat;
        let slice_at_start = (src.spec_sorted() is Ascending) == descending;
        let nulls_at_start = src.spec_is_null_at(0);
        let offset = if nulls_at_start == slice_at_start {
            spec_min(src.spec_null_count(), ignored)
        } else {
            0nat
        };
        if slice_at_start {
            spec_col_slice(src, offset as int, out_len as int)
        } else {
            spec_col_slice(src, len - offset - out_len, out_len as int)
        }
    } else {
        match src {
            Column::Int64 { name, values, .. } => ColumnV::Int64 {
                name: name@,
                values: spec_top_k_num(values@, k, descending),
                sorted: IsSorted::Not,
            },
            Column::Boolean { name, values, .. } => ColumnV::Boolean {
                name: name@,
                values: spec_top_k_bool(values@, k, descending),
                sorted: IsSorted::Not,
            },
            Column::Binary { name, values, .. } => ColumnV::Binary {
                name: name@,
                values: spec_top_k_bin(values.deep_view(), k, descending),
                sorted: IsSorted::Not,
            },
            Column::Null { name, .. } => ColumnV::Null { name: name@, len: spec_min(k, len) },
        }
    }
}

/// Select the top `k` rows of the source column. The first slot of `s` is
/// the source, the second the single-value `k` column.
#[verifier::loop_isolation(false)]
#[verifier::rlimit(60)]
pub fn top_k(s: &Vec<Column>, descending: bool) -> (r: Result<Column, TopKError>)
    requires
        s@.len() >= 2,
    ensures
        match r {
            Ok(c) => spec_extract_k(s@[1]) matches Ok(k) && c@ == spec_top_k_result(
                s@[0],
                k,
                descending,
            ),
            Err(e) => spec_extract_k(s@[1]) == Err::<nat, TopKError>(e),
        },
{
    let k = match extract_k(&s[1]) {
        Ok(k) => k,
        Err(e) => {
            return Err(e);
        },
    };
    let src = &s[0];
    let len = src.len();
    if len == 0 {
        return Ok(src.clone_column());
    }
    let flag = src.sorted_flag();
    let is_sorted = match flag {
        IsSorted::Ascending => true,
        IsSorted::Descending => true,
        IsSorted::Not => false,
    };
    if is_sorted {
        let out_len = if k < len {
            k
        } else {
            len
        };
        let ignored = len - out_len;
        let slice_at_start = (match flag {
            IsSorted::Ascending => true,
            _ => false,
        }) == descending;
        let nulls_at_start = src.is_null_at(0);
        let offset = if nulls_at_start == slice_at_start {
            let nc = src.null_count();
            if nc < ignored {
                nc
            } else {
                ignored
            }
        } else {
            0
        };
        let start = if slice_at_start {
            offset
        } else {
            len - offset - out_len
        };
        return Ok(src.slice(start, out_len));
    }
    match src {
        Column::Int64 { name, values, .. } => {
            let out = top_k_num_impl(values, k, descending);
            Ok(Column::Int64 {
                name: crate::reader::clone_string(name),
                values: out,
                sorted: IsSorted::Not,
            })
        },
        Column::Boolean { name, values, .. } => {
            let out = top_k_bool_impl(values, k, descending);
            Ok(Column::Boolean {
                name: crate::reader::clone_string(name),
                values: out,
                sorted: IsSorted::Not,
            })
        },
        Column::Binary { name, values, .. } => {
            let out = top_k_binary_impl(values, k, descending);
            Ok(Column::Binary {
                name: crate::reader::clone_string(name),
                values: out,
                sorted: IsSorted::Not,
            })
        },
        Column::Null { name, .. } => {
            let m = if k < len {
                k
            } else {
                len
            };
            Ok(Column::Null { name: crate::reader::clone_string(name), len: m })
        },
    }
}

/// Select the top `k` rows of the source, ordered by the key columns.
#[verifier::loop_isolation(false)]
pub fn top_k_by_impl(
    k: usize,
    src: &Column,
    by: &Vec<Column>,
    descending: &Vec<bool>,
) -> (r: Column)
    requires
        by@.len() == descending@.len(),
        forall|c: int| 0 <= c < by@.len() ==> (#[trigger] by@[c]).spec_len() == src.spec_len(),
    ensures
        src.spec_len() == 0 ==> r@ == src@,
        src.spec_len() > 0 ==> r@ == spec_col_take(
            *src,
            spec_argsort(cols_views(by@), descending@, src.spec_len()).take(
                spec_min(k as nat, src.spec_len()) as int,
            ),
        ),
{
    let len = src.len();
    if len == 0 {
        return src.clone_column();
    }
    let idx = argsort_rows(by, descending, len);
    proof {
        crate::topk::lemma_argsort_bounds(cols_views(by@), descending@, len as nat);
    }
    let m = if k < len {
        k
    } else {
        len
    };
    let mut keep: Vec<usize> = Vec::new();
    let mut t: usize = 0;
    while t < m
        invariant
            t <= m,
            m <= idx@.len(),
            keep@ =~= idx@.take(t as int),
            forall|l: int| 0 <= l < idx@.len() ==> (#[trigger] idx@[l]) < len,
        decreases m - t,
    {
        keep.push(idx[t]);
        proof {
            assert(keep@ =~= idx@.take(t + 1));
        }
        t = t + 1;
    }
    src.take_rows(&keep)
}

/// Select the top `k` rows of the source by auxiliary key columns. The
/// first slot of `s` is the source, the second the single-value `k`
/// column, the rest the key columns; `descending` flags each key.
#[verifier::loop_isolation(false)]
#[verifier::rlimit(60)]
pub fn top_k_by(s: &Vec<Column>, descending: Vec<bool>) -> (r: Result<Column, TopKError>)
    requires
        s@.len() >= 2,
        descending@.len() + 2 == s@.len(),
    ensures
        match r {
            Ok(c) => {
                &&& spec_extract_k(s@[1]) matches Ok(k)
                &&& ({
                    let src = s@[0];
                    let by = s@.skip(2);
                    if src.spec_len() == 0 {
                        c@ == src@
                    } else if by.len() > 0 && by[0].spec_len() == 0 {
                        c@ == src@
                    } else {
                        &&& (forall|ci: int|
                            0 <= ci < by.len() ==> (#[trigger] by[ci]).spec_len()
                                == src.spec_len())
                        &&& c@ == spec_col_take(
                            src,
                            spec_argsort(cols_views(by), descending@, src.spec_len()).take(
                                spec_min(k, src.spec_len()) as int,
                            ),
                        )
                    }
                })
            },
            Err(e) => {
                ||| spec_extract_k(s@[1]) == Err::<nat, TopKError>(e)
                ||| (spec_extract_k(s@[1]) is Ok && s@[0].spec_len() > 0 && !(s@.skip(2).len() > 0
                    && s@.skip(2)[0].spec_len() == 0) && (
                e matches TopKError::ByLengthMismatch { name, by_len, src_len } && (exists|ci: int|
                    0 <= ci < s@.skip(2).len() && (#[trigger] s@.skip(2)[ci]).spec_len()
                        != s@[0].spec_len() && by_len == s@.skip(2)[ci].spec_len() && src_len
                        == s@[0].spec_len() && name@ == s@.skip(2)[ci].spec_name())))
            },
        },
{
    let k = match extract_k(&s[1]) {
        Ok(k) => k,
        Err(e) => {
            return Err(e);
        },
    };
    let src = &s[0];
    let src_len = src.len();
    if src_len == 0 {
        return Ok(src.clone_column());
    }
    let nby = s.len() - 2;
    if nby > 0 && s[2].is_empty() {
        proof {
            assert(s@.skip(2)[0] == s@[2]);
        }
        return Ok(src.clone_column());
    }
    let mut by: Vec<Column> = Vec::new();
    let mut ci: usize = 0;
    while ci < nby
        invariant
            ci <= nby,
            nby + 2 == s@.len(),
            by@.len() == ci,
            forall|l: int| 0 <= l < ci ==> (#[trigger] by@[l])@ == s@.skip(2)[l]@,
            forall|l: int| 0 <= l < ci ==> (#[trigger] by@[l]).spec_len() == s@[0].spec_len(),
        decreases nby - ci,
    {
        let col = &s[2 + ci];
        let col_len = col.len();
        if col_len != src_len {
            proof {
                assert(s@.skip(2)[ci as int] == s@[2 + ci]);
            }
            return Err(TopKError::ByLengthMismatch {
                name: crate::reader::clone_string(col.name()),
                by_len: col_len,
                src_len,
            });
        }
        let cloned = col.clone_column();
        by.push(cloned);
        proof {
            assert(s@.skip(2)[ci as int] == s@[2 + ci]);
            assert(by@[ci as int]@ == s@[2 + ci]@);
            by@[ci as int].lemma_len_view();
            s@[2 + ci].lemma_len_view();
        }
        ci = ci + 1;
    }
    let out = top_k_by_impl(k, src, &by, &descending);
    proof {
        assert(cols_views(by@) =~= cols_views(s@.skip(2)));
        assert forall|l: int| 0 <= l < s@.skip(2).len() implies (#[trigger] s@.skip(2)[l])
            .spec_len() == s@[0].spec_len() by {
            assert(by@[l]@ == s@.skip(2)[l]@);
            by@[l].lemma_len_view();
            s@.skip(2)[l].lemma_len_view();
        }
    }
    Ok(out)
}

} // verus!
