//! The descriptor model.
//!
//! A descriptor id is a non-negative integer whose six-digit decimal
//! form FXXYYY packs three fields: F in 0..=3 selects the kind, X is a
//! class in 0..=99, Y a detail in 0..=255. The model is closed: any id
//! in 0..=399999 resolves to exactly one of four kinds, and ids with
//! F >= 4 are malformed.

use vstd::prelude::*;
use vstd::arithmetic::div_mod::{
    lemma_fundamental_div_mod,
    lemma_div_denominator,
    lemma_div_pos_is_pos,
};
use crate::digits::{dec_digits, zero_pad, u64_to_padded_string};

verus! {

/// A descriptor id in its integer form.
pub type ID = isize;

/// The kind selector F: the leading decimal digit pair of weight 100000.
pub open spec fn spec_f(id: int) -> int {
    id / 100000
}

/// The class X: decimal digits of weight 1000, two wide.
pub open spec fn spec_x(id: int) -> int {
    (id / 1000) % 100
}

/// The detail Y: the last three decimal digits.
pub open spec fn spec_y(id: int) -> int {
    id % 1000
}

/// F and X together: the id with its last three digits removed.
pub open spec fn spec_fx(id: int) -> int {
    id / 1000
}

/// The canonical six-digit zero-padded decimal form of an id.
pub open spec fn spec_id_string(id: int) -> Seq<char> {
    zero_pad(dec_digits(id as nat), 6)
}

/// The F/X/Y derivation is a decomposition: the three fields weigh
/// back to the id, and FX is the id without its last three digits.
pub proof fn lemma_fxy_decomposition(id: int)
    requires
        0 <= id <= 399999,
    ensures
        100000 * spec_f(id) + 1000 * spec_x(id) + spec_y(id) == id,
        spec_fx(id) == id / 1000,
{
    let q = id / 1000;
    lemma_fundamental_div_mod(id, 1000);
    lemma_fundamental_div_mod(q, 100);
    lemma_div_denominator(id, 1000, 100);
    lemma_div_pos_is_pos(id, 1000);
}

/// Shared id arithmetic over everything that carries a descriptor id.
pub trait Fxy {
    /// The id this value stands for.
    spec fn spec_id(&self) -> int;

    fn id(&self) -> (r: ID)
        ensures
            r as int == self.spec_id(),
    ;

    /// The kind selector F.
    fn f(&self) -> (r: isize)
        requires
            0 <= self.spec_id(),
        ensures
            r as int == spec_f(self.spec_id()),
    {
        let v = self.id() as usize / 100000;
        v as isize
    }

    /// The class X.
    fn x(&self) -> (r: isize)
        requires
            0 <= self.spec_id(),
        ensures
            r as int == spec_x(self.spec_id()),
    {
        let v = (self.id() as usize / 1000) % 100;
        v as isize
    }

    /// The detail Y.
    fn y(&self) -> (r: isize)
        requires
            0 <= self.spec_id(),
        ensures
            r as int == spec_y(self.spec_id()),
    {
        let v = self.id() as usize % 1000;
        v as isize
    }

    /// F and X together.
    fn fx(&self) -> (r: isize)
        requires
            0 <= self.spec_id(),
        ensures
            r as int == spec_fx(self.spec_id()),
    {
        let v = self.id() as usize / 1000;
        v as isize
    }

    /// The canonical six-digit zero-padded decimal form.
    fn as_string(&self) -> (r: String)
        requires
            0 <= self.spec_id(),
        ensures
            r@ == spec_id_string(self.spec_id()),
    {
        u64_to_padded_string(self.id() as u64, 6)
    }
}

impl Fxy for ID {
    open spec fn spec_id(&self) -> int {
        *self as int
    }

    fn id(&self) -> (r: ID)
        ensures
            r as int == self.spec_id(),
    {
        *self
    }
}

/// An atomic value; its layout details come from Table B.
#[derive(Debug, Clone)]
pub struct ElementDescriptor {
    pub id: ID,
    pub name: String,
    pub unit: String,
    pub scale: isize,
    pub refval: isize,
    pub nbits: isize,
}

/// A meta-descriptor that repeats the following X members Y times;
/// Y = 0 marks delayed replication, whose actual count is read at
/// decode time from the replication factor element.
#[derive(Debug, Clone)]
pub struct ReplicationDescriptor {
    pub id: ID,
}

/// A modifier of subsequent decoding semantics; carries no expansion
/// children.
#[derive(Debug, Clone)]
pub struct OperatorDescriptor {
    pub id: ID,
    pub name: String,
}

/// A named alias expanding to an ordered member list from Table D.
#[derive(Debug, Clone)]
pub struct SequenceDescriptor {
    pub id: ID,
    pub name: String,
}

/// A descriptor of one of the four kinds, selected by F.
#[derive(Debug, Clone)]
pub enum Descriptor {
    Element(ElementDescriptor),
    Replication(ReplicationDescriptor),
    Operator(OperatorDescriptor),
    Sequence(SequenceDescriptor),
}

impl Fxy for ReplicationDescriptor {
    open spec fn spec_id(&self) -> int {
        self.id as int
    }

    fn id(&self) -> (r: ID)
        ensures
            r as int == self.spec_id(),
    {
        self.id
    }
}

impl Fxy for ElementDescriptor {
    open spec fn spec_id(&self) -> int {
        self.id as int
    }

    fn id(&self) -> (r: ID)
        ensures
            r as int == self.spec_id(),
    {
        self.id
    }
}

impl Fxy for OperatorDescriptor {
    open spec fn spec_id(&self) -> int {
        self.id as int
    }

    fn id(&self) -> (r: ID)
        ensures
            r as int == self.spec_id(),
    {
        self.id
    }
}

impl Fxy for SequenceDescriptor {
    open spec fn spec_id(&self) -> int {
        self.id as int
    }

    fn id(&self) -> (r: ID)
        ensures
            r as int == self.spec_id(),
    {
        self.id
    }
}

impl Descriptor {
    /// The id of whichever kind this is, as a spec value.
    pub open spec fn spec_descriptor_id(&self) -> int {
        match self {
            Descriptor::Element(d) => d.id as int,
            Descriptor::Replication(d) => d.id as int,
            Descriptor::Operator(d) => d.id as int,
            Descriptor::Sequence(d) => d.id as int,
        }
    }

    /// True iff the kind tag agrees with the F field of the id.
    pub open spec fn kind_matches_id(&self) -> bool {
        &&& 0 <= self.spec_descriptor_id() <= 399999
        &&& match self {
            Descriptor::Element(d) => spec_f(d.id as int) == 0,
            Descriptor::Replication(d) => spec_f(d.id as int) == 1,
            Descriptor::Operator(d) => spec_f(d.id as int) == 2,
            Descriptor::Sequence(d) => spec_f(d.id as int) == 3,
        }
    }
}

impl Descriptor {
    /// The textual form of a descriptor: its six-digit id, followed
    /// for the named kinds by the name; a replication shows the bare
    /// id.
    pub fn display_string(&self) -> (r: String)
        requires
            0 <= self.spec_descriptor_id(),
        ensures
            r@ == match self {
                Descriptor::Element(d) => spec_id_string(d.id as int) + " "@ + d.name@,
                Descriptor::Replication(d) => spec_id_string(d.id as int),
                Descriptor::Operator(d) => spec_id_string(d.id as int) + " "@ + d.name@,
                Descriptor::Sequence(d) => spec_id_string(d.id as int) + " "@ + d.name@,
            },
    {
        proof {
            reveal_strlit(" ");
        }
        match self {
            Descriptor::Element(d) => {
                let mut s = d.id.as_string();
                s.append(" ");
                s.append(d.name.as_str());
                assert(s@ =~= spec_id_string(d.id as int) + " "@ + d.name@);
                s
            },
            Descriptor::Replication(d) => d.id.as_string(),
            Descriptor::Operator(d) => {
                let mut s = d.id.as_string();
                s.append(" ");
                s.append(d.name.as_str());
                assert(s@ =~= spec_id_string(d.id as int) + " "@ + d.name@);
                s
            },
            Descriptor::Sequence(d) => {
                let mut s = d.id.as_string();
                s.append(" ");
                s.append(d.name.as_str());
                assert(s@ =~= spec_id_string(d.id as int) + " "@ + d.name@);
                s
            },
        }
    }
}

impl Fxy for Descriptor {
    open spec fn spec_id(&self) -> int {
        self.spec_descriptor_id()
    }

    fn id(&self) -> (r: ID)
        ensures
            r as int == self.spec_id(),
    {
        match self {
            Descriptor::Element(d) => d.id,
            Descriptor::Replication(d) => d.id,
            Descriptor::Operator(d) => d.id,
            Descriptor::Sequence(d) => d.id,
        }
    }
}

} // verus!
