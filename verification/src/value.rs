//! A tracing field value: a tagged primitive.
//!
//! Floating-point values are carried as their raw 64-bit pattern. Equality
//! over them is therefore bit-exact, so two NaNs with the same pattern
//! compare equal (convenient when diffing logs); this is the only equality
//! the wire model needs.
use vstd::prelude::*;

verus! {

/// The mathematical model of a field value. Strings are sequences of
/// characters; floats are their raw bit pattern.
pub enum ValueModel {
    Bool(bool),
    Int(i64),
    Float(u64),
    Str(Seq<char>),
}

/// A tracing value. Debug-formatted values are stored as `Str`; unsigned
/// 64-bit values are stored as `Int` with a wrapping cast; floats are stored
/// as their raw 64-bit pattern (`f64::to_bits`). Equality and hashing go
/// over that pattern, so two NaNs with the same bits compare and hash
/// alike.
#[derive(Debug, Clone, Hash)]
pub enum FieldValue {
    Bool(bool),
    Int(i64),
    Float(u64),
    Str(String),
}

impl View for FieldValue {
    type V = ValueModel;

    open spec fn view(&self) -> ValueModel {
        match self {
            FieldValue::Bool(b) => ValueModel::Bool(*b),
            FieldValue::Int(i) => ValueModel::Int(*i),
            FieldValue::Float(bits) => ValueModel::Float(*bits),
            FieldValue::Str(s) => ValueModel::Str(s@),
        }
    }
}

impl PartialEq for FieldValue {
    fn eq(&self, other: &FieldValue) -> (r: bool) {
        self.same_as(other)
    }
}

impl Eq for FieldValue {

}

impl vstd::std_specs::cmp::PartialEqSpecImpl for FieldValue {
    open spec fn obeys_eq_spec() -> bool {
        true
    }

    open spec fn eq_spec(&self, other: &FieldValue) -> bool {
        self@ == other@
    }
}

impl FieldValue {
    /// The value an unsigned 64-bit datum is recorded as: a signed value
    /// with the same 64 bits, wrapping around above the signed maximum.
    pub fn from_u64(v: u64) -> (r: FieldValue)
        ensures
            r@ == ValueModel::Int(v as i64),
    {
        FieldValue::Int(v as i64)
    }

    /// Bit-exact equality: two values are equal when they have the same tag
    /// and the same payload, floats compared by their raw bit pattern.
    pub fn same_as(&self, other: &FieldValue) -> (r: bool)
        ensures
            r == (self@ == other@),
    {
        match (self, other) {
            (FieldValue::Bool(a), FieldValue::Bool(b)) => a == b,
            (FieldValue::Int(a), FieldValue::Int(b)) => a == b,
            (FieldValue::Float(a), FieldValue::Float(b)) => a == b,
            (FieldValue::Str(a), FieldValue::Str(b)) => a.eq(b),
            _ => false,
        }
    }
}

/// One named field: the model of an entry in a field list.
pub type FieldModel = (Seq<char>, ValueModel);

/// An ordered list of named fields. Insertion order is preserved on the
/// wire, and duplicate names are kept, so the model is a sequence of pairs
/// rather than a map.
pub type FieldList = Vec<(String, FieldValue)>;

/// The model of a field list.
pub open spec fn fields_view(fields: FieldList) -> Seq<FieldModel> {
    fields@.map_values(|f: (String, FieldValue)| (f.0@, f.1@))
}

/// Bit-exact equality of two field lists: same length, same names and
/// values in the same order.
pub fn same_fields(a: &FieldList, b: &FieldList) -> (r: bool)
    ensures
        r == (fields_view(*a) == fields_view(*b)),
{
    if a.len() != b.len() {
        proof {
            assert(fields_view(*a).len() != fields_view(*b).len());
        }
        return false;
    }
    let n = a.len();
    for i in 0..n
        invariant
            n == a.len() == b.len(),
            forall|j: int| 0 <= j < i ==> fields_view(*a)[j] == fields_view(*b)[j],
    {
        let name_eq = a[i].0 == b[i].0;
        if !(name_eq && a[i].1.same_as(&b[i].1)) {
            proof {
                assert(fields_view(*a)[i as int] != fields_view(*b)[i as int]);
            }
            return false;
        }
    }
    proof {
        assert(fields_view(*a) =~= fields_view(*b));
    }
    true
}

} // verus!
