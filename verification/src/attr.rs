//! The schemaless attribute model: a tagged value type and a record
//! mapping field names to tagged values. This is the generic
//! representation that the codec targets; a key-value table stores one
//! record per key.

use vstd::prelude::*;
use vstd::string::StringSliceAdditionalSpecFns;

verus! {

/// A tagged attribute value: UTF-8 string, opaque byte blob, decimal
/// numeric string, or an ordered heterogeneous list.
pub enum AttrValue {
    S(String),
    B(Vec<u8>),
    N(String),
    L(Vec<AttrValue>),
}

/// The mathematical model of an [`AttrValue`]: the views of the scalar
/// payloads, and the element-wise model of a list.
pub enum AttrV {
    S(Seq<char>),
    B(Seq<u8>),
    N(Seq<char>),
    L(Seq<AttrV>),
}

impl AttrValue {
    /// The model of this value.
    pub open spec fn dv(self) -> AttrV
        decreases self,
    {
        match self {
            AttrValue::S(s) => AttrV::S(s@),
            AttrValue::B(b) => AttrV::B(b@),
            AttrValue::N(n) => AttrV::N(n@),
            AttrValue::L(vs) => AttrV::L(seq_dv(vs@)),
        }
    }
}

/// The models of a sequence of attribute values, element by element.
pub open spec fn seq_dv(vs: Seq<AttrValue>) -> Seq<AttrV>
    decreases vs,
{
    Seq::new(
        vs.len(),
        |i: int|
            if 0 <= i < vs.len() {
                vs[i].dv()
            } else {
                arbitrary()
            },
    )
}

/// One named field of a record.
pub struct Field {
    pub name: String,
    pub value: AttrValue,
}

/// The model of one field: the field name and the model of its value.
pub struct FieldV {
    pub name: Seq<char>,
    pub value: AttrV,
}

/// A record: an ordered collection of named, tagged values, the unit
/// that the key-value table stores and the codec produces and consumes.
pub struct AttributeRecord {
    fields: Vec<Field>,
}

impl View for AttributeRecord {
    type V = Seq<FieldV>;

    closed spec fn view(&self) -> Seq<FieldV> {
        Seq::new(
            self.fields@.len(),
            |i: int|
                if 0 <= i < self.fields@.len() {
                    FieldV { name: self.fields@[i].name@, value: self.fields@[i].value.dv() }
                } else {
                    arbitrary()
                },
        )
    }
}

/// The value stored under `name` in `fields`: the first field of that
/// name, or `None` when no field carries it.
pub open spec fn record_get(fields: Seq<FieldV>, name: Seq<char>) -> Option<AttrV>
    decreases fields.len(),
{
    if fields.len() == 0 {
        None
    } else if fields[0].name == name {
        Some(fields[0].value)
    } else {
        record_get(fields.drop_first(), name)
    }
}

/// Equality of two string slices, decided by comparing their UTF-8 bytes.
pub fn str_eq(a: &str, b: &str) -> (r: bool)
    ensures
        r == (a@ == b@),
{
    let ab = a.as_bytes();
    let bb = b.as_bytes();
    proof {
        vstd::utf8::encode_utf8_decode_utf8(a@);
        vstd::utf8::encode_utf8_decode_utf8(b@);
    }
    if ab.len() != bb.len() {
        proof {
            assert(a@ != b@) by {
                if a@ == b@ {
                    assert(ab@ == bb@);
                }
            }
        }
        return false;
    }
    let n: usize = ab.len();
    let mut i: usize = 0;
    while i < n
        invariant
            n == ab@.len() == bb@.len(),
            0 <= i <= n,
            forall|j: int| 0 <= j < i ==> ab@[j] == bb@[j],
            ab@ == a.spec_bytes(),
            bb@ == b.spec_bytes(),
        decreases n - i,
    {
        if ab[i] != bb[i] {
            proof {
                assert(a@ != b@) by {
                    if a@ == b@ {
                        assert(ab@ == bb@);
                    }
                }
            }
            return false;
        }
        i = i + 1;
    }
    proof {
        assert(ab@ =~= bb@);
        assert(a@ == b@);
    }
    true
}

impl AttributeRecord {
    /// An empty record.
    pub fn new() -> (r: AttributeRecord)
        ensures
            r@ =~= Seq::<FieldV>::empty(),
    {
        AttributeRecord { fields: Vec::new() }
    }

    /// Appends a field named `name` holding `value` at the end of the
    /// record.
    pub fn push_field(&mut self, name: &str, value: AttrValue)
        ensures
            final(self)@ =~= old(self)@.push(FieldV { name: name@, value: value.dv() }),
    {
        let owned: String = name.to_owned();
        self.fields.push(Field { name: owned, value });
    }

    /// The fields of the record, in the order they were appended.
    pub fn fields(&self) -> (r: &Vec<Field>)
        ensures
            r@.len() == self@.len(),
            forall|i: int|
                0 <= i < r@.len() ==> (#[trigger] r@[i]).name@ == self@[i].name && r@[i].value.dv()
                    == self@[i].value,
    {
        &self.fields
    }

    /// The value stored under `name`, or `None` when the record has no
    /// field of that name.
    pub fn get(&self, name: &str) -> (r: Option<&AttrValue>)
        ensures
            match record_get(self@, name@) {
                Option::None => r is None,
                Option::Some(v) => r matches Some(a) && a.dv() == v,
            },
    {
        let n: usize = self.fields.len();
        let mut i: usize = 0;
        while i < n
            invariant
                n == self.fields@.len(),
                0 <= i <= n,
                forall|j: int| 0 <= j < i ==> self@[j].name != name@,
            decreases n - i,
        {
            if str_eq(self.fields[i].name.as_str(), name) {
                proof {
                    lemma_record_get_first_match(self@, name@, i as int);
                }
                return Some(&self.fields[i].value);
            }
            i = i + 1;
        }
        proof {
            lemma_record_get_no_match(self@, name@);
        }
        None
    }
}

/// When every field before index `i` has another name and the field at
/// `i` is named `name`, the lookup finds the field at `i`.
proof fn lemma_record_get_first_match(fields: Seq<FieldV>, name: Seq<char>, i: int)
    requires
        0 <= i < fields.len(),
        forall|j: int| 0 <= j < i ==> fields[j].name != name,
        fields[i].name == name,
    ensures
        record_get(fields, name) == Some(fields[i].value),
    decreases i,
{
    if i > 0 {
        lemma_record_get_first_match(fields.drop_first(), name, i - 1);
    }
}

/// When no field carries `name`, the lookup finds nothing.
proof fn lemma_record_get_no_match(fields: Seq<FieldV>, name: Seq<char>)
    requires
        forall|j: int| 0 <= j < fields.len() ==> fields[j].name != name,
    ensures
        record_get(fields, name) is None,
    decreases fields.len(),
{
    if fields.len() > 0 {
        lemma_record_get_no_match(fields.drop_first(), name);
    }
}

} // verus!
