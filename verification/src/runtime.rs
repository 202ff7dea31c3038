//! Constant values of the source program, as the emitter holds them.

use vstd::prelude::*;
use vstd::string::StringSliceAdditionalSpecFns;

verus! {

/// A constant value. Values of array type hold their elements; a value of
/// another kind is a scalar or a string that lives in the arena.
#[derive(Debug, PartialEq, Eq)]
pub enum TypedValue<'arena> {
    /// A value that was never set. It has no literal.
    Uninit,
    Int(i64),
    Bool(bool),
    /// A double, as the numeral that the assembler reads.
    Float(&'arena str),
    String(&'arena str),
    /// A class, by its name as the assembler reads it.
    LazyClass(&'arena str),
    Null,
    /// An array in serialized form. Its first character tells the kind of
    /// array.
    HhasAdata(&'arena str),
    VArray(Vec<TypedValue<'arena>>),
    DArray(Vec<DictEntry<'arena>>),
    Vec(Vec<TypedValue<'arena>>),
    Keyset(Vec<TypedValue<'arena>>),
    Dict(Vec<DictEntry<'arena>>),
}

/// A key of a dictionary with its value.
#[derive(Debug, PartialEq, Eq)]
pub struct DictEntry<'arena> {
    pub key: TypedValue<'arena>,
    pub value: TypedValue<'arena>,
}

/// What a constant value is in contracts: strings are their bytes, arrays
/// the sequences of their elements.
pub enum SpecTypedValue {
    Uninit,
    Int(i64),
    Bool(bool),
    Float(Seq<u8>),
    String(Seq<u8>),
    LazyClass(Seq<u8>),
    Null,
    HhasAdata(Seq<u8>),
    VArray(Seq<SpecTypedValue>),
    DArray(Seq<SpecDictEntry>),
    Vec(Seq<SpecTypedValue>),
    Keyset(Seq<SpecTypedValue>),
    Dict(Seq<SpecDictEntry>),
}

/// What a dictionary entry is in contracts.
pub struct SpecDictEntry {
    pub key: SpecTypedValue,
    pub value: SpecTypedValue,
}

/// The views of the values of `s`, in order.
pub open spec fn spec_values<'arena>(s: Seq<TypedValue<'arena>>) -> Seq<SpecTypedValue>
    decreases s,
{
    if s.len() == 0 {
        Seq::empty()
    } else {
        spec_values(s.drop_last()).push(s.last()@)
    }
}

/// The views of the entries of `s`, in order.
pub open spec fn spec_entries<'arena>(s: Seq<DictEntry<'arena>>) -> Seq<SpecDictEntry>
    decreases s,
{
    if s.len() == 0 {
        Seq::empty()
    } else {
        spec_entries(s.drop_last()).push(
            SpecDictEntry { key: s.last().key@, value: s.last().value@ },
        )
    }
}

impl<'arena> View for TypedValue<'arena> {
    type V = SpecTypedValue;

    open spec fn view(&self) -> SpecTypedValue
        decreases self,
    {
        match self {
            TypedValue::Uninit => SpecTypedValue::Uninit,
            TypedValue::Int(i) => SpecTypedValue::Int(*i),
            TypedValue::Bool(b) => SpecTypedValue::Bool(*b),
            TypedValue::Float(s) => SpecTypedValue::Float(s.spec_bytes()),
            TypedValue::String(s) => SpecTypedValue::String(s.spec_bytes()),
            TypedValue::LazyClass(s) => SpecTypedValue::LazyClass(s.spec_bytes()),
            TypedValue::Null => SpecTypedValue::Null,
            TypedValue::HhasAdata(s) => SpecTypedValue::HhasAdata(s.spec_bytes()),
            TypedValue::VArray(v) => SpecTypedValue::VArray(spec_values(v@)),
            TypedValue::DArray(v) => SpecTypedValue::DArray(spec_entries(v@)),
            TypedValue::Vec(v) => SpecTypedValue::Vec(spec_values(v@)),
            TypedValue::Keyset(v) => SpecTypedValue::Keyset(spec_values(v@)),
            TypedValue::Dict(v) => SpecTypedValue::Dict(spec_entries(v@)),
        }
    }
}

impl<'arena> View for DictEntry<'arena> {
    type V = SpecDictEntry;

    open spec fn view(&self) -> SpecDictEntry {
        SpecDictEntry { key: self.key@, value: self.value@ }
    }
}

/// The views of a sequence of values are as many as the values, and each is
/// the view of the value at its place.
pub proof fn lemma_spec_values<'arena>(s: Seq<TypedValue<'arena>>)
    ensures
        spec_values(s).len() == s.len(),
        forall|i: int| 0 <= i < s.len() ==> #[trigger] spec_values(s)[i] == s[i]@,
    decreases s.len(),
{
    reveal_with_fuel(spec_values, 2);
    if s.len() > 0 {
        lemma_spec_values(s.drop_last());
        assert(spec_values(s) == spec_values(s.drop_last()).push(s.last()@));
        assert forall|i: int| 0 <= i < s.len() implies #[trigger] spec_values(s)[i] == s[i]@ by {
            if i < s.len() - 1 {
                assert(s.drop_last()[i] == s[i]);
            }
        }
    } else {
        assert(spec_values(s) == Seq::<SpecTypedValue>::empty());
    }
}

/// The views of a sequence of entries are as many as the entries, and each
/// is the view of the entry at its place.
pub proof fn lemma_spec_entries<'arena>(s: Seq<DictEntry<'arena>>)
    ensures
        spec_entries(s).len() == s.len(),
        forall|i: int| 0 <= i < s.len() ==> #[trigger] spec_entries(s)[i] == s[i]@,
    decreases s.len(),
{
    reveal_with_fuel(spec_entries, 2);
    if s.len() > 0 {
        lemma_spec_entries(s.drop_last());
        assert(spec_entries(s) == spec_entries(s.drop_last()).push(
            SpecDictEntry { key: s.last().key@, value: s.last().value@ },
        ));
        assert forall|i: int| 0 <= i < s.len() implies #[trigger] spec_entries(s)[i] == s[i]@ by {
            if i < s.len() - 1 {
                assert(s.drop_last()[i] == s[i]);
            }
        }
    } else {
        assert(spec_entries(s) == Seq::<SpecDictEntry>::empty());
    }
}

/// Tells whether two strings have the same bytes.
pub fn same_str(a: &str, b: &str) -> (r: bool)
    ensures
        r == (a.spec_bytes() == b.spec_bytes()),
{
    let x = a.as_bytes();
    let y = b.as_bytes();
    if x.len() != y.len() {
        return false;
    }
    let mut i: usize = 0;
    while i < x.len()
        invariant
            i <= x.len(),
            x.len() == y.len(),
            x@ == a.spec_bytes(),
            y@ == b.spec_bytes(),
            forall|j: int| 0 <= j < i ==> x@[j] == y@[j],
        decreases x.len() - i,
    {
        if x[i] != y[i] {
            return false;
        }
        i += 1;
    }
    assert(x@ =~= y@);
    true
}

/// Tells whether the values of `a` and `b` from position `i` on are the
/// same, one by one.
fn same_values<'arena>(a: &Vec<TypedValue<'arena>>, b: &Vec<TypedValue<'arena>>, i: usize) -> (r:
    bool)
    requires
        i <= a.len(),
        a.len() == b.len(),
    ensures
        r == (forall|j: int| i <= j < a.len() ==> a@[j]@ == b@[j]@),
    decreases a, a.len() - i,
{
    if i == a.len() {
        true
    } else {
        proof {
            vstd::std_specs::vec::axiom_vec_index_decreases(*a, i as int);
        }
        if a[i].same(&b[i]) {
            same_values(a, b, i + 1)
        } else {
            false
        }
    }
}

/// Tells whether the entries of `a` and `b` from position `i` on are the
/// same, one by one.
fn same_entries<'arena>(a: &Vec<DictEntry<'arena>>, b: &Vec<DictEntry<'arena>>, i: usize) -> (r:
    bool)
    requires
        i <= a.len(),
        a.len() == b.len(),
    ensures
        r == (forall|j: int| i <= j < a.len() ==> a@[j]@ == b@[j]@),
    decreases a, a.len() - i,
{
    if i == a.len() {
        true
    } else {
        proof {
            vstd::std_specs::vec::axiom_vec_index_decreases(*a, i as int);
        }
        if a[i].key.same(&b[i].key) && a[i].value.same(&b[i].value) {
            same_entries(a, b, i + 1)
        } else {
            false
        }
    }
}

/// Adds a copy of each value of `a` from position `i` on to `acc`.
fn duplicate_values<'arena>(
    a: &Vec<TypedValue<'arena>>,
    i: usize,
    acc: &mut Vec<TypedValue<'arena>>,
)
    requires
        i <= a.len(),
        old(acc).len() == i,
        forall|j: int| 0 <= j < i ==> old(acc)@[j]@ == a@[j]@,
    ensures
        final(acc).len() == a.len(),
        forall|j: int| 0 <= j < a.len() ==> final(acc)@[j]@ == a@[j]@,
    decreases a, a.len() - i,
{
    if i < a.len() {
        proof {
            vstd::std_specs::vec::axiom_vec_index_decreases(*a, i as int);
        }
        let copy = a[i].duplicate();
        acc.push(copy);
        duplicate_values(a, i + 1, acc);
    }
}

/// Adds a copy of each entry of `a` from position `i` on to `acc`.
fn duplicate_entries<'arena>(
    a: &Vec<DictEntry<'arena>>,
    i: usize,
    acc: &mut Vec<DictEntry<'arena>>,
)
    requires
        i <= a.len(),
        old(acc).len() == i,
        forall|j: int| 0 <= j < i ==> old(acc)@[j]@ == a@[j]@,
    ensures
        final(acc).len() == a.len(),
        forall|j: int| 0 <= j < a.len() ==> final(acc)@[j]@ == a@[j]@,
    decreases a, a.len() - i,
{
    if i < a.len() {
        proof {
            vstd::std_specs::vec::axiom_vec_index_decreases(*a, i as int);
        }
        let key = a[i].key.duplicate();
        let value = a[i].value.duplicate();
        acc.push(DictEntry { key, value });
        duplicate_entries(a, i + 1, acc);
    }
}

/// A copy of the values of `a`.
fn copy_values<'arena>(a: &Vec<TypedValue<'arena>>) -> (r: Vec<TypedValue<'arena>>)
    ensures
        spec_values(r@) == spec_values(a@),
    decreases a, a.len() + 1,
{
    let mut r: Vec<TypedValue<'arena>> = Vec::new();
    duplicate_values(a, 0, &mut r);
    proof {
        lemma_spec_values(a@);
        lemma_spec_values(r@);
        assert(spec_values(r@) =~= spec_values(a@));
    }
    r
}

/// A copy of the entries of `a`.
fn copy_entries<'arena>(a: &Vec<DictEntry<'arena>>) -> (r: Vec<DictEntry<'arena>>)
    ensures
        spec_entries(r@) == spec_entries(a@),
    decreases a, a.len() + 1,
{
    let mut r: Vec<DictEntry<'arena>> = Vec::new();
    duplicate_entries(a, 0, &mut r);
    proof {
        lemma_spec_entries(a@);
        lemma_spec_entries(r@);
        assert(spec_entries(r@) =~= spec_entries(a@));
    }
    r
}

/// Tells whether the values of `a` and `b` are the same, one by one.
fn eq_values<'arena>(a: &Vec<TypedValue<'arena>>, b: &Vec<TypedValue<'arena>>) -> (r: bool)
    ensures
        r == (spec_values(a@) == spec_values(b@)),
    decreases a, a.len() + 1,
{
    proof {
        lemma_spec_values(a@);
        lemma_spec_values(b@);
    }
    if a.len() != b.len() {
        false
    } else {
        let r = same_values(a, b, 0);
        proof {
            if r {
                assert(spec_values(a@) =~= spec_values(b@));
            } else {
                let j = choose|j: int| 0 <= j < a.len() && a@[j]@ != b@[j]@;
                assert(spec_values(a@)[j] != spec_values(b@)[j]);
            }
        }
        r
    }
}

/// Tells whether the entries of `a` and `b` are the same, one by one.
fn eq_entries<'arena>(a: &Vec<DictEntry<'arena>>, b: &Vec<DictEntry<'arena>>) -> (r: bool)
    ensures
        r == (spec_entries(a@) == spec_entries(b@)),
    decreases a, a.len() + 1,
{
    proof {
        lemma_spec_entries(a@);
        lemma_spec_entries(b@);
    }
    if a.len() != b.len() {
        false
    } else {
        let r = same_entries(a, b, 0);
        proof {
            if r {
                assert(spec_entries(a@) =~= spec_entries(b@));
            } else {
                let j = choose|j: int| 0 <= j < a.len() && a@[j]@ != b@[j]@;
                assert(spec_entries(a@)[j] != spec_entries(b@)[j]);
            }
        }
        r
    }
}

impl<'arena> TypedValue<'arena> {
    /// Tells whether two values are the same: of one kind, with the same
    /// scalar, the same bytes, or the same elements in the same order.
    pub fn same(&self, other: &TypedValue<'arena>) -> (r: bool)
        ensures
            r == (self@ == other@),
        decreases self, 0nat,
    {
        match (self, other) {
            (TypedValue::Uninit, TypedValue::Uninit) => true,
            (TypedValue::Null, TypedValue::Null) => true,
            (TypedValue::Int(a), TypedValue::Int(b)) => *a == *b,
            (TypedValue::Bool(a), TypedValue::Bool(b)) => *a == *b,
            (TypedValue::Float(a), TypedValue::Float(b)) => same_str(a, b),
            (TypedValue::String(a), TypedValue::String(b)) => same_str(a, b),
            (TypedValue::LazyClass(a), TypedValue::LazyClass(b)) => same_str(a, b),
            (TypedValue::HhasAdata(a), TypedValue::HhasAdata(b)) => same_str(a, b),
            (TypedValue::VArray(a), TypedValue::VArray(b)) => eq_values(a, b),
            (TypedValue::Vec(a), TypedValue::Vec(b)) => eq_values(a, b),
            (TypedValue::Keyset(a), TypedValue::Keyset(b)) => eq_values(a, b),
            (TypedValue::DArray(a), TypedValue::DArray(b)) => eq_entries(a, b),
            (TypedValue::Dict(a), TypedValue::Dict(b)) => eq_entries(a, b),
            _ => false,
        }
    }

    /// A copy of the value. The copy shares the strings of the value.
    pub fn duplicate(&self) -> (r: TypedValue<'arena>)
        ensures
            r@ == self@,
        decreases self, 0nat,
    {
        match self {
            TypedValue::Uninit => TypedValue::Uninit,
            TypedValue::Null => TypedValue::Null,
            TypedValue::Int(i) => TypedValue::Int(*i),
            TypedValue::Bool(b) => TypedValue::Bool(*b),
            TypedValue::Float(s) => TypedValue::Float(*s),
            TypedValue::String(s) => TypedValue::String(*s),
            TypedValue::LazyClass(s) => TypedValue::LazyClass(*s),
            TypedValue::HhasAdata(s) => TypedValue::HhasAdata(*s),
            TypedValue::VArray(v) => TypedValue::VArray(copy_values(v)),
            TypedValue::Vec(v) => TypedValue::Vec(copy_values(v)),
            TypedValue::Keyset(v) => TypedValue::Keyset(copy_values(v)),
            TypedValue::DArray(v) => TypedValue::DArray(copy_entries(v)),
            TypedValue::Dict(v) => TypedValue::Dict(copy_entries(v)),
        }
    }
}

} // verus!
