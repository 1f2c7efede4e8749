//! The message model.
//!
//! A decoded BUFR message is an ordered sequence of six sections,
//! indexed 0 through 5; each section is an ordered list of named
//! fields carrying typed simple values, the unexpanded descriptor
//! list of section 3, or the payload bits of section 4. Fields keep
//! the exact order in which they were read.

use vstd::prelude::*;

verus! {

/// One simple value: an unsigned integer of at most 32 bits, a byte
/// string, a flag (value plus bit width), a boolean, or a raw bit run
/// (packed bytes plus exact bit count).
#[derive(Debug)]
pub enum SimpleData {
    U32(u32),
    BYTES(String),
    FLAG(u32, u8),
    BOOL(bool),
    RAW(Vec<u8>, usize),
}

impl SimpleData {
    /// The unsigned integer held; the caller must know the kind.
    pub fn get_u32(&self) -> (r: u32)
        requires
            self matches SimpleData::U32(_),
        ensures
            self matches SimpleData::U32(v) && r == v,
    {
        if let SimpleData::U32(v) = self {
            *v
        } else {
            proof {
                assert(false);
            }
            0
        }
    }

    /// The byte string held; the caller must know the kind.
    pub fn get_bytes(&self) -> (r: &str)
        requires
            self matches SimpleData::BYTES(_),
        ensures
            self matches SimpleData::BYTES(v) && r@ == v@,
    {
        if let SimpleData::BYTES(v) = self {
            v.as_str()
        } else {
            proof {
                assert(false);
            }
            ""
        }
    }

    /// The boolean held; the caller must know the kind.
    pub fn get_bool(&self) -> (r: bool)
        requires
            self matches SimpleData::BOOL(_),
        ensures
            self matches SimpleData::BOOL(v) && r == v,
    {
        if let SimpleData::BOOL(v) = self {
            *v
        } else {
            proof {
                assert(false);
            }
            false
        }
    }
}

/// A named simple value.
#[derive(Debug)]
pub struct FieldSimple {
    pub name: String,
    pub value: SimpleData,
}

impl FieldSimple {
    pub fn new(name: &str, value: SimpleData) -> (r: FieldSimple)
        ensures
            r.name@ == name@,
            r.value == value,
    {
        FieldSimple { name: name.to_owned(), value }
    }
}

/// The named unexpanded descriptor list of section 3.
#[derive(Debug)]
pub struct FieldUED {
    pub name: String,
    pub value: Vec<isize>,
}

impl FieldUED {
    pub fn new(name: &str, value: Vec<isize>) -> (r: FieldUED)
        ensures
            r.name@ == name@,
            r.value == value,
    {
        FieldUED { name: name.to_owned(), value }
    }
}

/// A named ordered run of simple values: the structured payload form
/// of section 4.
#[derive(Debug)]
pub struct FieldPayload {
    pub name: String,
    pub value: Vec<SimpleData>,
}

impl FieldPayload {
    pub fn new(name: &str, value: Vec<SimpleData>) -> (r: FieldPayload)
        ensures
            r.name@ == name@,
            r.value == value,
    {
        FieldPayload { name: name.to_owned(), value }
    }
}

/// One field of a section.
#[derive(Debug)]
pub enum Field {
    SIMPLE(FieldSimple),
    UED(FieldUED),
    PAYLOAD(FieldPayload),
}

/// The name of a field.
pub open spec fn spec_field_name(f: Field) -> Seq<char> {
    match f {
        Field::SIMPLE(fs) => fs.name@,
        Field::UED(fu) => fu.name@,
        Field::PAYLOAD(fp) => fp.name@,
    }
}

/// True iff the field holds an unsigned integer value.
pub open spec fn is_u32_field(f: Field) -> bool {
    f matches Field::SIMPLE(fs) && fs.value matches SimpleData::U32(_)
}

/// The unsigned integer a field holds, where `is_u32_field`.
pub open spec fn spec_field_u32(f: Field) -> u32 {
    match f {
        Field::SIMPLE(fs) => match fs.value {
            SimpleData::U32(v) => v,
            _ => 0,
        },
        _ => 0,
    }
}

/// True iff the field holds a boolean value.
pub open spec fn is_bool_field(f: Field) -> bool {
    f matches Field::SIMPLE(fs) && fs.value matches SimpleData::BOOL(_)
}

/// The boolean a field holds, where `is_bool_field`.
pub open spec fn spec_field_bool(f: Field) -> bool {
    match f {
        Field::SIMPLE(fs) => match fs.value {
            SimpleData::BOOL(v) => v,
            _ => false,
        },
        _ => false,
    }
}

/// True iff the field holds a byte string.
pub open spec fn is_bytes_field(f: Field) -> bool {
    f matches Field::SIMPLE(fs) && fs.value matches SimpleData::BYTES(_)
}

/// The characters of the byte string a field holds, where
/// `is_bytes_field`.
pub open spec fn spec_field_bytes(f: Field) -> Seq<char> {
    match f {
        Field::SIMPLE(fs) => match fs.value {
            SimpleData::BYTES(v) => v@,
            _ => Seq::empty(),
        },
        _ => Seq::empty(),
    }
}

impl Field {
    pub fn name(&self) -> (r: &str)
        ensures
            r@ == spec_field_name(*self),
    {
        match self {
            Field::SIMPLE(f) => f.name.as_str(),
            Field::UED(f) => f.name.as_str(),
            Field::PAYLOAD(f) => f.name.as_str(),
        }
    }

    /// The simple value held; the caller must know the field kind.
    pub fn get_simple_data(&self) -> (r: &SimpleData)
        requires
            self matches Field::SIMPLE(_),
        ensures
            self matches Field::SIMPLE(fs) && *r == fs.value,
    {
        if let Field::SIMPLE(f) = self {
            &f.value
        } else {
            proof {
                assert(false);
            }
            &SimpleData::BOOL(false)
        }
    }

    /// The unexpanded descriptor list held; the caller must know the
    /// field kind.
    pub fn get_unexpanded_descriptors(&self) -> (r: &Vec<isize>)
        requires
            self matches Field::UED(_),
        ensures
            self matches Field::UED(fu) && *r == fu.value,
    {
        if let Field::UED(f) = self {
            &f.value
        } else {
            vstd::pervasive::unreached()
        }
    }

    pub fn get_u32(&self) -> (r: u32)
        requires
            is_u32_field(*self),
        ensures
            r == spec_field_u32(*self),
    {
        self.get_simple_data().get_u32()
    }

    pub fn get_bytes(&self) -> (r: &str)
        requires
            is_bytes_field(*self),
        ensures
            r@ == spec_field_bytes(*self),
    {
        self.get_simple_data().get_bytes()
    }

    pub fn get_bool(&self) -> (r: bool)
        requires
            is_bool_field(*self),
        ensures
            r == spec_field_bool(*self),
    {
        self.get_simple_data().get_bool()
    }
}

/// The last field with the given name, as a map from name to field
/// built in field order would hold it.
pub open spec fn spec_field_by_name(fields: Seq<Field>, name: Seq<char>) -> Option<Field>
    decreases fields.len(),
{
    if fields.len() == 0 {
        Option::None
    } else if spec_field_name(fields.last()) == name {
        Option::Some(fields.last())
    } else {
        spec_field_by_name(fields.drop_last(), name)
    }
}

/// One section: a small index and its fields in the exact order read.
#[derive(Debug)]
pub struct BufrSection {
    index: u8,
    fields: Vec<Field>,
}

/// The declared byte length of a section as its fields carry it: the
/// second field for section 0, zero for an absent section 2, the
/// first field otherwise.
pub open spec fn spec_section_length(s: BufrSection) -> u32 {
    if s.spec_index() == 0 {
        spec_field_u32(s.spec_fields()[1])
    } else if s.spec_index() == 2 && s.spec_fields().len() == 0 {
        0
    } else {
        spec_field_u32(s.spec_fields()[0])
    }
}

/// True iff the length-bearing field of the section is present and an
/// unsigned integer.
pub open spec fn section_length_wf(s: BufrSection) -> bool {
    if s.spec_index() == 0 {
        s.spec_fields().len() >= 2 && is_u32_field(s.spec_fields()[1])
    } else if s.spec_index() == 2 && s.spec_fields().len() == 0 {
        true
    } else {
        s.spec_fields().len() >= 1 && is_u32_field(s.spec_fields()[0])
    }
}

impl BufrSection {
    pub closed spec fn spec_index(&self) -> u8 {
        self.index
    }

    pub closed spec fn spec_fields(&self) -> Seq<Field> {
        self.fields@
    }

    pub fn new(index: u8, fields: Vec<Field>) -> (r: BufrSection)
        ensures
            r.spec_index() == index,
            r.spec_fields() == fields@,
    {
        BufrSection { index, fields }
    }

    /// The declared byte length of the section.
    pub fn length(&self) -> (r: u32)
        requires
            section_length_wf(*self),
        ensures
            r == spec_section_length(*self),
    {
        if self.index == 0 {
            self.fields[1].get_u32()
        } else if self.index == 2 && self.fields.len() == 0 {
            0
        } else {
            self.fields[0].get_u32()
        }
    }

    /// The last field carrying `name`, if any.
    pub fn field_by_name(&self, name: &str) -> (r: Option<&Field>)
        ensures
            match r {
                Some(f) => spec_field_by_name(self.spec_fields(), name@) == Option::Some(*f),
                None => spec_field_by_name(self.spec_fields(), name@) == Option::None::<Field>,
            },
    {
        let mut i: usize = self.fields.len();
        while i > 0
            invariant
                i <= self.fields@.len(),
                forall|j: int|
                    i <= j < self.fields@.len() ==> spec_field_name(#[trigger] self.fields@[j])
                        != name@,
            decreases i,
        {
            i = i - 1;
            let fname = self.fields[i].name();
            if str_eq(fname, name) {
                proof {
                    lemma_field_by_name_at(self.fields@, name@, i as int);
                }
                return Some(&self.fields[i]);
            }
        }
        proof {
            lemma_field_by_name_none(self.fields@, name@);
        }
        None
    }

    pub fn field(&self, i: usize) -> (r: &Field)
        requires
            i < self.spec_fields().len(),
        ensures
            *r == self.spec_fields()[i as int],
    {
        &self.fields[i]
    }

    /// How many fields the section holds.
    pub fn field_count(&self) -> (r: usize)
        ensures
            r == self.spec_fields().len(),
    {
        self.fields.len()
    }
}

/// Whether two string slices hold the same characters.
fn str_eq(a: &str, b: &str) -> (r: bool)
    ensures
        r == (a@ == b@),
{
    let sa = a.to_owned();
    let sb = b.to_owned();
    sa.eq(&sb)
}

/// If the field at `i` carries the name and no later field does, it
/// is the one found.
pub proof fn lemma_field_by_name_at(fields: Seq<Field>, name: Seq<char>, i: int)
    requires
        0 <= i < fields.len(),
        spec_field_name(fields[i]) == name,
        forall|j: int| i < j < fields.len() ==> spec_field_name(#[trigger] fields[j]) != name,
    ensures
        spec_field_by_name(fields, name) == Option::Some(fields[i]),
    decreases fields.len(),
{
    if i + 1 < fields.len() {
        lemma_field_by_name_at(fields.drop_last(), name, i);
    }
}

/// If no field carries the name, none is found.
pub proof fn lemma_field_by_name_none(fields: Seq<Field>, name: Seq<char>)
    requires
        forall|j: int| 0 <= j < fields.len() ==> spec_field_name(#[trigger] fields[j]) != name,
    ensures
        spec_field_by_name(fields, name) == Option::None::<Field>,
    decreases fields.len(),
{
    if fields.len() > 0 {
        lemma_field_by_name_none(fields.drop_last(), name);
    }
}

/// A decoded message: its six sections in order.
#[derive(Debug)]
pub struct BufrMessage {
    sections: Vec<BufrSection>,
}

impl BufrMessage {
    pub closed spec fn spec_sections(&self) -> Seq<BufrSection> {
        self.sections@
    }

    pub fn new(sections: Vec<BufrSection>) -> (r: BufrMessage)
        ensures
            r.spec_sections() == sections@,
    {
        BufrMessage { sections }
    }

    /// How many sections the message holds.
    pub fn section_count(&self) -> (r: usize)
        ensures
            r == self.spec_sections().len(),
    {
        self.sections.len()
    }

    /// The section at `i`.
    pub fn section(&self, i: usize) -> (r: &BufrSection)
        requires
            i < self.spec_sections().len(),
        ensures
            *r == self.spec_sections()[i as int],
    {
        &self.sections[i]
    }

    /// The total message length from section 0.
    pub fn length(&self) -> (r: u32)
        requires
            self.spec_sections().len() >= 1,
            section_length_wf(self.spec_sections()[0]),
        ensures
            r == spec_section_length(self.spec_sections()[0]),
    {
        self.sections[0].length()
    }

    /// The edition number from section 0: its third field.
    pub fn edition(&self) -> (r: u32)
        requires
            self.spec_sections().len() >= 1,
            self.spec_sections()[0].spec_fields().len() >= 3,
            is_u32_field(self.spec_sections()[0].spec_fields()[2]),
        ensures
            r == spec_field_u32(self.spec_sections()[0].spec_fields()[2]),
    {
        self.sections[0].field(2).get_u32()
    }
}

} // verus!
