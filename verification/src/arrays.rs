//! Decoded columnar arrays and their mathematical views.
//!
//! An array owns its optional validity bitmap and its physical values;
//! nested variants own their fully decoded child arrays. Arrays are created
//! fresh per record-batch decode and never mutated after construction.
use vstd::prelude::*;

use crate::bitmap::nulls_in;
use crate::errors::IpcError;

verus! {

/// A fully decoded array of one column or nested sub-column.
#[derive(Debug, PartialEq, Eq)]
pub enum Array {
    Int64 { validity: Option<Vec<bool>>, values: Vec<i64> },
    Boolean { validity: Option<Vec<bool>>, values: Vec<bool> },
    FixedSizeList { size: usize, len: usize, validity: Option<Vec<bool>>, child: Box<Array> },
    Struct { len: usize, validity: Option<Vec<bool>>, children: Vec<Array> },
    Dictionary { validity: Option<Vec<bool>>, keys: Vec<i64>, values: Box<Array> },
}

/// The mathematical view of an `Array`: the same shape over `Seq` and
/// `nat`. All contracts of the decoder speak about this view.
pub enum ArrayV {
    Int64 { validity: Option<Seq<bool>>, values: Seq<i64> },
    Boolean { validity: Option<Seq<bool>>, values: Seq<bool> },
    FixedSizeList { size: nat, len: nat, validity: Option<Seq<bool>>, child: Box<ArrayV> },
    Struct { len: nat, validity: Option<Seq<bool>>, children: Seq<ArrayV> },
    Dictionary { validity: Option<Seq<bool>>, keys: Seq<i64>, values: Box<ArrayV> },
}

pub open spec fn validity_view(v: Option<Vec<bool>>) -> Option<Seq<bool>> {
    match v {
        None => None,
        Some(bits) => Some(bits@),
    }
}

pub open spec fn array_view(a: Array) -> ArrayV
    decreases a,
{
    match a {
        Array::Int64 { validity, values } => ArrayV::Int64 {
            validity: validity_view(validity),
            values: values@,
        },
        Array::Boolean { validity, values } => ArrayV::Boolean {
            validity: validity_view(validity),
            values: values@,
        },
        Array::FixedSizeList { size, len, validity, child } => ArrayV::FixedSizeList {
            size: size as nat,
            len: len as nat,
            validity: validity_view(validity),
            child: Box::new(array_view(*child)),
        },
        Array::Struct { len, validity, children } => ArrayV::Struct {
            len: len as nat,
            validity: validity_view(validity),
            children: views_of(children@),
        },
        Array::Dictionary { validity, keys, values } => ArrayV::Dictionary {
            validity: validity_view(validity),
            keys: keys@,
            values: Box::new(array_view(*values)),
        },
    }
}

pub open spec fn views_of(s: Seq<Array>) -> Seq<ArrayV>
    decreases s,
{
    if s.len() == 0 {
        Seq::empty()
    } else {
        views_of(s.drop_last()).push(array_view(s.last()))
    }
}

pub broadcast proof fn lemma_views_of_len(s: Seq<Array>)
    ensures
        (#[trigger] views_of(s)).len() == s.len(),
    decreases s,
{
    if s.len() > 0 {
        lemma_views_of_len(s.drop_last());
    }
}

pub broadcast proof fn lemma_views_of_index(s: Seq<Array>, i: int)
    requires
        0 <= i < s.len(),
    ensures
        #[trigger] views_of(s)[i] == array_view(s[i]),
    decreases s,
{
    lemma_views_of_len(s);
    if i < s.len() - 1 {
        lemma_views_of_index(s.drop_last(), i);
    }
}

impl View for Array {
    type V = ArrayV;

    open spec fn view(&self) -> ArrayV {
        array_view(*self)
    }
}

/// The logical row count of an array view.
pub open spec fn len_v(a: ArrayV) -> nat {
    match a {
        ArrayV::Int64 { values, .. } => values.len(),
        ArrayV::Boolean { values, .. } => values.len(),
        ArrayV::FixedSizeList { len, .. } => len,
        ArrayV::Struct { len, .. } => len,
        ArrayV::Dictionary { keys, .. } => keys.len(),
    }
}

pub open spec fn validity_of(a: ArrayV) -> Option<Seq<bool>> {
    match a {
        ArrayV::Int64 { validity, .. } => validity,
        ArrayV::Boolean { validity, .. } => validity,
        ArrayV::FixedSizeList { validity, .. } => validity,
        ArrayV::Struct { validity, .. } => validity,
        ArrayV::Dictionary { validity, .. } => validity,
    }
}

/// A validity mask is canonical when it is present exactly for arrays that
/// really hold nulls, the form a matching writer emits.
pub open spec fn validity_wf(v: Option<Seq<bool>>, len: nat) -> bool {
    match v {
        None => true,
        Some(bits) => bits.len() == len && nulls_in(bits) > 0,
    }
}

/// Well-formedness of an array view: every validity mask is canonical and
/// sized to its level, every level's length is machine-representable,
/// nested widths are positive, and nested lengths agree with their parents.
pub open spec fn wf_v(a: ArrayV) -> bool
    decreases a,
{
    validity_wf(validity_of(a), len_v(a)) && len_v(a) <= usize::MAX && match a {
        ArrayV::Int64 { .. } => true,
        ArrayV::Boolean { .. } => true,
        ArrayV::FixedSizeList { size, len, child, .. } => {
            &&& size > 0
            &&& len_v(*child) == len * size
            &&& wf_v(*child)
        },
        ArrayV::Struct { len, children, .. } => wf_children(children, len),
        ArrayV::Dictionary { keys, values, .. } => {
            &&& wf_v(*values)
            &&& forall|i: int| 0 <= i < keys.len() ==> 0 <= #[trigger] keys[i] < len_v(*values)
        },
    }
}

pub open spec fn wf_children(s: Seq<ArrayV>, len: nat) -> bool
    decreases s,
{
    if s.len() == 0 {
        true
    } else {
        &&& len_v(s[0]) == len
        &&& wf_v(s[0])
        &&& wf_children(s.drop_first(), len)
    }
}

/// Truncation of a decoded array to at most `l` logical rows: what a
/// decoder with `limit = l` materializes.
pub open spec fn truncate_v(a: ArrayV, l: nat) -> ArrayV
    decreases a,
{
    let m = if l < len_v(a) {
        l
    } else {
        len_v(a)
    };
    match a {
        ArrayV::Int64 { validity, values } => ArrayV::Int64 {
            validity: truncate_validity(validity, m),
            values: values.take(m as int),
        },
        ArrayV::Boolean { validity, values } => ArrayV::Boolean {
            validity: truncate_validity(validity, m),
            values: values.take(m as int),
        },
        ArrayV::FixedSizeList { size, len, validity, child } => ArrayV::FixedSizeList {
            size,
            len: m,
            validity: truncate_validity(validity, m),
            child: Box::new(truncate_v(*child, m * size)),
        },
        ArrayV::Struct { len, validity, children } => ArrayV::Struct {
            len: m,
            validity: truncate_validity(validity, m),
            children: truncate_children(children, m),
        },
        ArrayV::Dictionary { validity, keys, values } => ArrayV::Dictionary {
            validity: truncate_validity(validity, m),
            keys: keys.take(m as int),
            values,
        },
    }
}

pub open spec fn truncate_validity(v: Option<Seq<bool>>, m: nat) -> Option<Seq<bool>> {
    match v {
        None => None,
        Some(bits) => Some(
            bits.take(
                if m < bits.len() {
                    m as int
                } else {
                    bits.len() as int
                },
            ),
        ),
    }
}

pub open spec fn truncate_children(s: Seq<ArrayV>, m: nat) -> Seq<ArrayV>
    decreases s,
{
    if s.len() == 0 {
        Seq::empty()
    } else {
        truncate_children(s.drop_last(), m).push(truncate_v(s.last(), m))
    }
}

pub broadcast proof fn lemma_truncate_children_len(s: Seq<ArrayV>, m: nat)
    ensures
        (#[trigger] truncate_children(s, m)).len() == s.len(),
    decreases s,
{
    if s.len() > 0 {
        lemma_truncate_children_len(s.drop_last(), m);
    }
}

pub broadcast proof fn lemma_truncate_children_index(s: Seq<ArrayV>, m: nat, i: int)
    requires
        0 <= i < s.len(),
    ensures
        #[trigger] truncate_children(s, m)[i] == truncate_v(s[i], m),
    decreases s,
{
    lemma_truncate_children_len(s, m);
    if i < s.len() - 1 {
        lemma_truncate_children_index(s.drop_last(), m, i);
    }
}

/// The dictionary registry: a process-scoped mapping from dictionary id to
/// a previously materialized dictionary array, populated by dictionary
/// batches before any dependent record batch is decoded.
#[derive(Debug)]
pub struct Dictionaries {
    pub entries: Vec<(u64, Array)>,
}

pub open spec fn dicts_view(s: Seq<(u64, Array)>) -> Seq<(u64, ArrayV)> {
    Seq::new(s.len(), |i: int| (s[i].0, array_view(s[i].1)))
}

/// The registered array for `id`: the earliest entry wins.
pub open spec fn spec_dict_lookup(dicts: Seq<(u64, ArrayV)>, id: u64) -> Option<ArrayV>
    decreases dicts,
{
    if dicts.len() == 0 {
        None
    } else if dicts[0].0 == id {
        Some(dicts[0].1)
    } else {
        spec_dict_lookup(dicts.drop_first(), id)
    }
}

impl View for Dictionaries {
    type V = Seq<(u64, ArrayV)>;

    open spec fn view(&self) -> Seq<(u64, ArrayV)> {
        dicts_view(self.entries@)
    }
}

impl Dictionaries {
    pub fn new() -> (r: Dictionaries)
        ensures
            r@ =~= Seq::<(u64, ArrayV)>::empty(),
    {
        Dictionaries { entries: Vec::new() }
    }

    /// Register a dictionary array under `id`. Later registrations of the
    /// same id do not shadow earlier ones.
    pub fn insert(&mut self, id: u64, values: Array)
        ensures
            final(self)@ =~= old(self)@.push((id, values@)),
    {
        self.entries.push((id, values));
    }

    /// Look up the dictionary registered under `id`.
    pub fn get(&self, id: u64) -> (r: Option<&Array>)
        ensures
            match r {
                Some(a) => spec_dict_lookup(self@, id) == Some(a@),
                None => spec_dict_lookup(self@, id) is None,
            },
    {
        let mut i: usize = 0;
        proof {
            assert(self@.skip(0) =~= self@);
        }
        while i < self.entries.len()
            invariant
                i <= self.entries@.len(),
                forall|k: int| 0 <= k < i ==> self.entries@[k].0 != id,
                spec_dict_lookup(self@, id) == spec_dict_lookup(self@.skip(i as int), id),
        decreases self.entries@.len() - i,
        {
            if self.entries[i].0 == id {
                proof {
                    assert(self@.skip(i as int)[0] == (self.entries@[i as int].0, array_view(
                        self.entries@[i as int].1,
                    )));
                }
                return Some(&self.entries[i].1);
            }
            proof {
                assert(self@.skip(i as int).drop_first() =~= self@.skip(i + 1));
            }
            i = i + 1;
        }
        proof {
            assert(self@.skip(i as int).len() == 0);
        }
        None
    }
}

/// Exact copy of a value vector; element types here are `Copy`, so the copy
/// is the value itself.
pub fn clone_bools(v: &Vec<bool>) -> (r: Vec<bool>)
    ensures
        r@ == v@,
{
    let mut out: Vec<bool> = Vec::new();
    let mut i: usize = 0;
    while i < v.len()
        invariant
            i <= v@.len(),
            out@ =~= v@.take(i as int),
        decreases v@.len() - i,
    {
        out.push(v[i]);
        i = i + 1;
    }
    proof {
        assert(v@.take(v@.len() as int) =~= v@);
    }
    out
}

pub fn clone_i64s(v: &Vec<i64>) -> (r: Vec<i64>)
    ensures
        r@ == v@,
{
    let mut out: Vec<i64> = Vec::new();
    let mut i: usize = 0;
    while i < v.len()
        invariant
            i <= v@.len(),
            out@ =~= v@.take(i as int),
        decreases v@.len() - i,
    {
        out.push(v[i]);
        i = i + 1;
    }
    proof {
        assert(v@.take(v@.len() as int) =~= v@);
    }
    out
}

pub fn clone_validity(v: &Option<Vec<bool>>) -> (r: Option<Vec<bool>>)
    ensures
        validity_view(r) == validity_view(*v),
{
    match v {
        None => None,
        Some(bits) => Some(clone_bools(bits)),
    }
}

/// Deep copy of an array; dictionary decoding hands out copies of the
/// registered values array.
#[verifier::loop_isolation(false)]
pub fn clone_array(a: &Array) -> (r: Array)
    ensures
        r@ == a@,
    decreases *a,
{
    match a {
        Array::Int64 { validity, values } => Array::Int64 {
            validity: clone_validity(validity),
            values: clone_i64s(values),
        },
        Array::Boolean { validity, values } => Array::Boolean {
            validity: clone_validity(validity),
            values: clone_bools(values),
        },
        Array::FixedSizeList { size, len, validity, child } => Array::FixedSizeList {
            size: *size,
            len: *len,
            validity: clone_validity(validity),
            child: Box::new(clone_array(child)),
        },
        Array::Struct { len, validity, children } => {
            let mut cs: Vec<Array> = Vec::new();
            let mut i: usize = 0;
            while i < children.len()
                invariant
                    i <= children@.len(),
                    cs@.len() == i,
                    views_of(cs@) =~= views_of(children@.take(i as int)),
                decreases children@.len() - i,
            {
                proof {
                    assert(children@.take(i + 1).drop_last() =~= children@.take(i as int));
                    assert(a->Struct_children == *children);
                    assert(decreases_to!(*a => a->Struct_children@[i as int]));
                }
                let c = clone_array(&children[i]);
                let ghost cs_old = cs@;
                cs.push(c);
                proof {
                    assert(cs@.drop_last() =~= cs_old);
                    assert(views_of(cs@.drop_last()) == views_of(cs_old));
                    assert(views_of(cs@) == views_of(cs@.drop_last()).push(array_view(
                        cs@.last(),
                    )));
                    assert(children@.take(i + 1).last() == children@[i as int]);
                    assert(views_of(children@.take(i + 1)) == views_of(
                        children@.take(i as int),
                    ).push(array_view(children@[i as int])));
                }
                i = i + 1;
            }
            proof {
                assert(children@.take(children@.len() as int) =~= children@);
            }
            Array::Struct { len: *len, validity: clone_validity(validity), children: cs }
        },
        Array::Dictionary { validity, keys, values } => Array::Dictionary {
            validity: clone_validity(validity),
            keys: clone_i64s(keys),
            values: Box::new(clone_array(values)),
        },
    }
}

impl Array {
    /// The logical row count.
    pub fn len(&self) -> (r: usize)
        ensures
            r == len_v(self@),
    {
        match self {
            Array::Int64 { values, .. } => values.len(),
            Array::Boolean { values, .. } => values.len(),
            Array::FixedSizeList { len, .. } => *len,
            Array::Struct { len, .. } => *len,
            Array::Dictionary { keys, .. } => keys.len(),
        }
    }

    /// The validity mask, if the array holds nulls.
    pub fn validity(&self) -> (r: &Option<Vec<bool>>)
        ensures
            validity_view(*r) == validity_of(self@),
    {
        match self {
            Array::Int64 { validity, .. } => validity,
            Array::Boolean { validity, .. } => validity,
            Array::FixedSizeList { validity, .. } => validity,
            Array::Struct { validity, .. } => validity,
            Array::Dictionary { validity, .. } => validity,
        }
    }
}

/// Errors never carry partial results; this alias keeps decoder signatures
/// readable.
pub type ArrayResult = Result<Array, IpcError>;

} // verus!
