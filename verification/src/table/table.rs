//! The versioned table bundle and its cache.
//!
//! A bundle owns one loaded copy of tables B and D, the code-and-flag
//! table, and the four metadata tables, for one `TableGroupId`. The
//! tables are built from plain rows (the caller reads and deserializes
//! the JSON table files) and are immutable after construction. Each
//! table is a key-to-value mapping in which a later row for the same
//! key replaces an earlier one.

use vstd::prelude::*;
use crate::BufrKitError;
use crate::digits::{
    dec_string,
    parse_decimal_spec,
    parse_isize,
    isize_to_string,
};
use crate::table::descriptor::{ID, Fxy, spec_f, spec_fx, spec_id_string};

verus! {

/// The value for key `k` in an association list in which the last
/// entry for a key wins, as a map built by repeated insertion would
/// hold it.
pub open spec fn assoc_find<K, V>(s: Seq<(K, V)>, k: K) -> Option<V>
    decreases s.len(),
{
    if s.len() == 0 {
        Option::None
    } else if s.last().0 == k {
        Option::Some(s.last().1)
    } else {
        assoc_find(s.drop_last(), k)
    }
}

/// If no entry carries key `k`, there is no value for it.
pub proof fn lemma_assoc_find_none<K, V>(s: Seq<(K, V)>, k: K)
    requires
        forall|i: int| 0 <= i < s.len() ==> s[i].0 != k,
    ensures
        assoc_find(s, k) == Option::None::<V>,
    decreases s.len(),
{
    if s.len() > 0 {
        lemma_assoc_find_none(s.drop_last(), k);
    }
}

/// If the entry at `i` carries key `k` and no later entry does, it is
/// the one found.
pub proof fn lemma_assoc_find_at<K, V>(s: Seq<(K, V)>, k: K, i: int)
    requires
        0 <= i < s.len(),
        s[i].0 == k,
        forall|j: int| i < j < s.len() ==> s[j].0 != k,
    ensures
        assoc_find(s, k) == Option::Some(s[i].1),
    decreases s.len(),
{
    if i + 1 < s.len() {
        lemma_assoc_find_at(s.drop_last(), k, i);
    }
}

/// A Table B entry: layout of one element descriptor. The CREX
/// fields are preserved as uninterpreted metadata.
#[derive(Debug, Clone)]
pub struct BEntry {
    pub name: String,
    pub unit: String,
    pub scale: isize,
    pub refval: isize,
    pub nbits: isize,
    pub unit_crex: String,
    pub scale_crex: isize,
    pub nchars_crex: isize,
}

/// A synthetic replication entry: replication descriptors have no
/// stored table row, only the id arithmetic.
pub struct REntry {
    id: ID,
}

impl REntry {
    pub fn new(id: ID) -> (r: REntry)
        ensures
            r.spec_id() == id as int,
    {
        REntry { id }
    }

    pub closed spec fn spec_id(&self) -> int {
        self.id as int
    }

    /// How many following members the replication covers.
    pub fn n_members(&self) -> (r: isize)
        requires
            0 <= self.spec_id(),
        ensures
            r as int == crate::table::descriptor::spec_x(self.spec_id()),
    {
        self.id.x()
    }

    /// How many times they repeat; 0 marks delayed replication.
    pub fn n_repeats(&self) -> (r: isize)
        requires
            0 <= self.spec_id(),
        ensures
            r as int == crate::table::descriptor::spec_y(self.spec_id()),
    {
        self.id.y()
    }
}

/// An operator metadata entry: name and definition text.
#[derive(Debug, Clone)]
pub struct CEntry {
    pub name: String,
    pub definition: String,
}

/// A Table D entry: a named ordered member list.
#[derive(Debug, Clone)]
pub struct DEntry {
    pub name: String,
    pub members: Vec<isize>,
}

/// The entry a descriptor id resolves to, selected by its F field.
pub enum Entry<'a> {
    B(&'a BEntry),
    R(REntry),
    C(&'a CEntry),
    D(&'a DEntry),
}

/// Table B: element descriptor id to its entry.
pub struct TableB {
    entries: Vec<(isize, BEntry)>,
}

impl TableB {
    pub closed spec fn spec_map(&self) -> Seq<(isize, BEntry)> {
        self.entries@
    }

    /// Build the table from rows, later rows replacing earlier ones.
    pub fn from_entries(rows: Vec<(isize, BEntry)>) -> (r: TableB)
        ensures
            r.spec_map() == rows@,
    {
        TableB { entries: rows }
    }

    pub fn lookup(&self, id: ID) -> (r: Result<&BEntry, BufrKitError>)
        ensures
            match r {
                Ok(e) => assoc_find(self.spec_map(), id) == Option::Some(*e),
                Err(_) => assoc_find(self.spec_map(), id) == Option::None::<BEntry>,
            },
    {
        let mut i: usize = self.entries.len();
        while i > 0
            invariant
                i <= self.entries@.len(),
                forall|j: int| i <= j < self.entries@.len() ==> self.entries@[j].0 != id,
            decreases i,
        {
            i = i - 1;
            if self.entries[i].0 == id {
                proof {
                    lemma_assoc_find_at(self.entries@, id, i as int);
                }
                return Ok(&self.entries[i].1);
            }
        }
        proof {
            lemma_assoc_find_none(self.entries@, id);
        }
        Err(not_found_error(id))
    }
}

/// Table D: sequence descriptor id to its member list.
pub struct TableD {
    entries: Vec<(isize, DEntry)>,
}

/// True iff a member string parses as an `isize`.
pub open spec fn member_ok(s: Seq<char>) -> bool {
    match parse_decimal_spec(s) {
        Option::Some(v) => isize::MIN <= v <= isize::MAX,
        Option::None => false,
    }
}

/// The parsed value of a member string.
pub open spec fn member_value(s: Seq<char>) -> isize {
    match parse_decimal_spec(s) {
        Option::Some(v) => v as isize,
        Option::None => 0 as isize,
    }
}

/// True iff every member string of the row parses as an `isize`.
pub open spec fn d_row_ok(members: Seq<String>) -> bool {
    forall|i: int| 0 <= i < members.len() ==> #[trigger] member_ok(members[i]@)
}

/// The parsed member values of a well-formed row.
pub open spec fn d_row_values(members: Seq<String>) -> Seq<isize> {
    Seq::new(members.len(), |i: int| member_value(members[i]@))
}

impl TableD {
    pub closed spec fn spec_map(&self) -> Seq<(isize, DEntry)> {
        self.entries@
    }

    /// Build the table from rows of raw text members, parsing each
    /// member id. Fails iff some member is not a decimal number in
    /// range.
    #[verifier::loop_isolation(false)]
    pub fn load(rows: Vec<(isize, String, Vec<String>)>) -> (r: Result<TableD, BufrKitError>)
        ensures
            match r {
                Ok(t) => {
                    &&& t.spec_map().len() == rows@.len()
                    &&& forall|i: int|
                        0 <= i < rows@.len() ==> {
                            &&& #[trigger] t.spec_map()[i].0 == rows@[i].0
                            &&& t.spec_map()[i].1.name@ == rows@[i].1@
                            &&& d_row_ok(rows@[i].2@)
                            &&& t.spec_map()[i].1.members@ == d_row_values(rows@[i].2@)
                        }
                },
                Err(_) => exists|i: int| 0 <= i < rows@.len() && !d_row_ok(rows@[i].2@),
            },
    {
        let mut entries: Vec<(isize, DEntry)> = Vec::new();
        let mut i: usize = 0;
        while i < rows.len()
            invariant
                i <= rows@.len(),
                entries@.len() == i,
                forall|j: int|
                    0 <= j < i ==> {
                        &&& #[trigger] entries@[j].0 == rows@[j].0
                        &&& entries@[j].1.name@ == rows@[j].1@
                        &&& d_row_ok(rows@[j].2@)
                        &&& entries@[j].1.members@ == d_row_values(rows@[j].2@)
                    },
            decreases rows@.len() - i,
        {
            let row = &rows[i];
            let mut members: Vec<isize> = Vec::new();
            let mut m: usize = 0;
            while m < row.2.len()
                invariant
                    0 <= i < rows@.len(),
                    row == &rows@[i as int],
                    m <= row.2@.len(),
                    members@.len() == m,
                    forall|j: int| 0 <= j < m ==> #[trigger] member_ok(row.2@[j]@),
                    forall|j: int|
                        0 <= j < m ==> #[trigger] members@[j] == member_value(row.2@[j]@),
                decreases row.2@.len() - m,
            {
                match parse_isize(row.2[m].as_str()) {
                    Ok(v) => {
                        members.push(v);
                    },
                    Err(e) => {
                        assert(!member_ok(row.2@[m as int]@));
                        assert(!d_row_ok(rows@[i as int].2@));
                        return Err(e);
                    },
                }
                m = m + 1;
            }
            assert(members@ =~= d_row_values(row.2@));
            let name = row.1.clone();
            assert(name@ == rows@[i as int].1@);
            let key = row.0;
            entries.push((key, DEntry { name, members }));
            i = i + 1;
        }
        Ok(TableD { entries })
    }

    pub fn lookup(&self, id: ID) -> (r: Result<&DEntry, BufrKitError>)
        ensures
            match r {
                Ok(e) => assoc_find(self.spec_map(), id) == Option::Some(*e),
                Err(_) => assoc_find(self.spec_map(), id) == Option::None::<DEntry>,
            },
    {
        let mut i: usize = self.entries.len();
        while i > 0
            invariant
                i <= self.entries@.len(),
                forall|j: int| i <= j < self.entries@.len() ==> self.entries@[j].0 != id,
            decreases i,
        {
            i = i - 1;
            if self.entries[i].0 == id {
                proof {
                    lemma_assoc_find_at(self.entries@, id, i as int);
                }
                return Ok(&self.entries[i].1);
            }
        }
        proof {
            lemma_assoc_find_none(self.entries@, id);
        }
        Err(not_found_error(id))
    }
}

/// The pairs of `entries` with their `String` keys abstracted to
/// character sequences, so that a freshly built key with the same
/// characters finds the same value.
pub open spec fn str_keyed<V>(entries: Seq<(String, V)>) -> Seq<(Seq<char>, V)> {
    entries.map_values(|p: (String, V)| (p.0@, p.1))
}

/// Look a string key up in an association list, last entry winning.
fn assoc_get_str<'a, V>(entries: &'a Vec<(String, V)>, k: &String) -> (r: Option<&'a V>)
    ensures
        match r {
            Some(v) => assoc_find(str_keyed(entries@), k@) == Option::Some(*v),
            None => assoc_find(str_keyed(entries@), k@) == Option::None::<V>,
        },
{
    let mut i: usize = entries.len();
    while i > 0
        invariant
            i <= entries@.len(),
            forall|j: int| i <= j < entries@.len() ==> entries@[j].0@ != k@,
        decreases i,
    {
        i = i - 1;
        if entries[i].0 == *k {
            proof {
                lemma_assoc_find_at(str_keyed(entries@), k@, i as int);
            }
            return Some(&entries[i].1);
        }
    }
    proof {
        lemma_assoc_find_none(str_keyed(entries@), k@);
    }
    None
}

/// The code-and-flag table: element descriptor id to a mapping from
/// encoded value to human label.
pub struct CodeAndFlag {
    entries: Vec<(isize, Vec<(isize, String)>)>,
}

impl CodeAndFlag {
    pub closed spec fn spec_map(&self) -> Seq<(isize, Vec<(isize, String)>)> {
        self.entries@
    }

    /// Build the table from rows, later rows replacing earlier ones,
    /// inside each value list as well.
    pub fn from_entries(rows: Vec<(isize, Vec<(isize, String)>)>) -> (r: CodeAndFlag)
        ensures
            r.spec_map() == rows@,
    {
        CodeAndFlag { entries: rows }
    }

    #[verifier::loop_isolation(false)]
    pub fn lookup(&self, id: ID, val: isize) -> (r: Result<&str, BufrKitError>)
        ensures
            match r {
                Ok(s) => match assoc_find(self.spec_map(), id) {
                    Option::Some(inner) => match assoc_find(inner@, val) {
                        Option::Some(lbl) => s@ == lbl@,
                        Option::None => false,
                    },
                    Option::None => false,
                },
                Err(_) => match assoc_find(self.spec_map(), id) {
                    Option::Some(inner) => assoc_find(inner@, val) == Option::None::<String>,
                    Option::None => true,
                },
            },
    {
        let mut i: usize = self.entries.len();
        while i > 0
            invariant
                i <= self.entries@.len(),
                forall|j: int| i <= j < self.entries@.len() ==> self.entries@[j].0 != id,
            decreases i,
        {
            i = i - 1;
            if self.entries[i].0 == id {
                proof {
                    lemma_assoc_find_at(self.entries@, id, i as int);
                }
                let inner = &self.entries[i].1;
                let mut m: usize = inner.len();
                while m > 0
                    invariant
                        m <= inner@.len(),
                        forall|j: int| m <= j < inner@.len() ==> inner@[j].0 != val,
                    decreases m,
                {
                    m = m - 1;
                    if inner[m].0 == val {
                        proof {
                            lemma_assoc_find_at(inner@, val, m as int);
                        }
                        return Ok(inner[m].1.as_str());
                    }
                }
                proof {
                    lemma_assoc_find_none(inner@, val);
                }
                return Err(cnf_not_found_error(id, val));
            }
        }
        proof {
            lemma_assoc_find_none(self.entries@, id);
        }
        Err(cnf_not_found_error(id, val))
    }
}

/// The three-digit zero-padded FX key of an id, as the metadata
/// tables key their entries.
pub open spec fn spec_fx_key(id: int) -> Seq<char> {
    crate::digits::zero_pad(crate::digits::dec_digits(spec_fx(id) as nat), 3)
}

/// The wildcard key of an operator id: its FX key followed by "YYY".
pub open spec fn spec_wild_key(id: int) -> Seq<char> {
    spec_fx_key(id) + seq!['Y', 'Y', 'Y']
}

/// The three-digit zero-padded FX key of `id`, as an owned string.
fn fx_key(id: ID) -> (r: String)
    requires
        0 <= id,
    ensures
        r@ == spec_fx_key(id as int),
{
    crate::digits::u64_to_padded_string((id as usize / 1000) as u64, 3)
}

/// Metadata table B: element class descriptions, keyed by the
/// concatenated F and X column text.
pub struct MetaB {
    entries: Vec<(String, String)>,
}

impl MetaB {
    pub closed spec fn spec_map(&self) -> Seq<(Seq<char>, String)> {
        str_keyed(self.entries@)
    }

    /// Build the table from rows of (F, X, name, description) text:
    /// the key is F and X concatenated, the value "name: description".
    pub fn load(rows: Vec<(String, String, String, String)>) -> (r: MetaB)
        ensures
            r.spec_map().len() == rows@.len(),
            forall|i: int|
                0 <= i < rows@.len() ==> {
                    &&& (#[trigger] r.spec_map()[i]).0 == rows@[i].0@ + rows@[i].1@
                    &&& r.spec_map()[i].1@ == rows@[i].2@ + ": "@ + rows@[i].3@
                },
    {
        let mut entries: Vec<(String, String)> = Vec::new();
        let mut i: usize = 0;
        proof {
            reveal_strlit(": ");
        }
        while i < rows.len()
            invariant
                i <= rows@.len(),
                entries@.len() == i,
                forall|j: int|
                    0 <= j < i ==> {
                        &&& (#[trigger] entries@[j]).0@ == rows@[j].0@ + rows@[j].1@
                        &&& entries@[j].1@ == rows@[j].2@ + ": "@ + rows@[j].3@
                    },
                ": "@ == seq![':', ' '],
            decreases rows@.len() - i,
        {
            let mut key = rows[i].0.clone();
            key.append(rows[i].1.as_str());
            let mut val = rows[i].2.clone();
            val.append(": ");
            val.append(rows[i].3.as_str());
            entries.push((key, val));
            i = i + 1;
        }
        MetaB { entries }
    }

    /// The description for the FX class of `id`.
    pub fn lookup(&self, id: ID) -> (r: Result<&str, BufrKitError>)
        requires
            0 <= id,
        ensures
            match r {
                Ok(s) => match assoc_find(self.spec_map(), spec_fx_key(id as int)) {
                    Option::Some(v) => s@ == v@,
                    Option::None => false,
                },
                Err(_) => assoc_find(self.spec_map(), spec_fx_key(id as int))
                    == Option::None::<String>,
            },
    {
        let key = fx_key(id);
        match assoc_get_str(&self.entries, &key) {
            Some(v) => Ok(v.as_str()),
            None => Err(meta_not_found_error(id)),
        }
    }
}

/// Metadata table D: sequence class descriptions, keyed by the
/// concatenated F and X column text.
pub struct MetaD {
    entries: Vec<(String, String)>,
}

impl MetaD {
    pub closed spec fn spec_map(&self) -> Seq<(Seq<char>, String)> {
        str_keyed(self.entries@)
    }

    /// Build the table from rows of (F, X, text).
    pub fn load(rows: Vec<(String, String, String)>) -> (r: MetaD)
        ensures
            r.spec_map().len() == rows@.len(),
            forall|i: int|
                0 <= i < rows@.len() ==> {
                    &&& (#[trigger] r.spec_map()[i]).0 == rows@[i].0@ + rows@[i].1@
                    &&& r.spec_map()[i].1@ == rows@[i].2@
                },
    {
        let mut entries: Vec<(String, String)> = Vec::new();
        let mut i: usize = 0;
        while i < rows.len()
            invariant
                i <= rows@.len(),
                entries@.len() == i,
                forall|j: int|
                    0 <= j < i ==> {
                        &&& (#[trigger] entries@[j]).0@ == rows@[j].0@ + rows@[j].1@
                        &&& entries@[j].1@ == rows@[j].2@
                    },
            decreases rows@.len() - i,
        {
            let mut key = rows[i].0.clone();
            key.append(rows[i].1.as_str());
            let val = rows[i].2.clone();
            entries.push((key, val));
            i = i + 1;
        }
        MetaD { entries }
    }

    /// The description for the FX class of `id`.
    pub fn lookup(&self, id: ID) -> (r: Result<&str, BufrKitError>)
        requires
            0 <= id,
        ensures
            match r {
                Ok(s) => match assoc_find(self.spec_map(), spec_fx_key(id as int)) {
                    Option::Some(v) => s@ == v@,
                    Option::None => false,
                },
                Err(_) => assoc_find(self.spec_map(), spec_fx_key(id as int))
                    == Option::None::<String>,
            },
    {
        let key = fx_key(id);
        match assoc_get_str(&self.entries, &key) {
            Some(v) => Ok(v.as_str()),
            None => Err(not_found_error(id)),
        }
    }
}

/// Metadata table C: operator name and definition, keyed by the
/// concatenated F, X and Y column text; Y may be the literal "YYY"
/// for a wildcard over the whole class.
pub struct MetaC {
    entries: Vec<(String, CEntry)>,
}

impl MetaC {
    pub closed spec fn spec_map(&self) -> Seq<(Seq<char>, CEntry)> {
        str_keyed(self.entries@)
    }

    /// Build the table from rows of (F, X, Y, name, definition).
    pub fn load(rows: Vec<(String, String, String, String, String)>) -> (r: MetaC)
        ensures
            r.spec_map().len() == rows@.len(),
            forall|i: int|
                0 <= i < rows@.len() ==> {
                    &&& (#[trigger] r.spec_map()[i]).0 == rows@[i].0@ + rows@[i].1@ + rows@[i].2@
                    &&& r.spec_map()[i].1.name@ == rows@[i].3@
                    &&& r.spec_map()[i].1.definition@ == rows@[i].4@
                },
    {
        let mut entries: Vec<(String, CEntry)> = Vec::new();
        let mut i: usize = 0;
        while i < rows.len()
            invariant
                i <= rows@.len(),
                entries@.len() == i,
                forall|j: int|
                    0 <= j < i ==> {
                        &&& (#[trigger] entries@[j]).0@ == rows@[j].0@ + rows@[j].1@ + rows@[j].2@
                        &&& entries@[j].1.name@ == rows@[j].3@
                        &&& entries@[j].1.definition@ == rows@[j].4@
                    },
            decreases rows@.len() - i,
        {
            let mut key = rows[i].0.clone();
            key.append(rows[i].1.as_str());
            key.append(rows[i].2.as_str());
            let entry = CEntry { name: rows[i].3.clone(), definition: rows[i].4.clone() };
            entries.push((key, entry));
            i = i + 1;
        }
        MetaC { entries }
    }

    /// The entry for `id`: an exact six-digit match wins, else the
    /// wildcard entry of its FX class.
    pub fn lookup(&self, id: ID) -> (r: Result<&CEntry, BufrKitError>)
        requires
            0 <= id,
        ensures
            match r {
                Ok(e) => match assoc_find(self.spec_map(), spec_id_string(id as int)) {
                    Option::Some(x) => *e == x,
                    Option::None => assoc_find(self.spec_map(), spec_wild_key(id as int))
                        == Option::Some(*e),
                },
                Err(_) => assoc_find(self.spec_map(), spec_id_string(id as int))
                    == Option::None::<CEntry> && assoc_find(
                    self.spec_map(),
                    spec_wild_key(id as int),
                ) == Option::None::<CEntry>,
            },
    {
        let exact = id.as_string();
        if let Some(e) = assoc_get_str(&self.entries, &exact) {
            return Ok(e);
        }
        let mut wild = fx_key(id);
        proof {
            reveal_strlit("YYY");
        }
        wild.append("YYY");
        assert(wild@ =~= spec_wild_key(id as int));
        match assoc_get_str(&self.entries, &wild) {
            Some(e) => Ok(e),
            None => Err(not_found_error(id)),
        }
    }
}

/// The range-key separator of metadata table A.
pub open spec fn spec_range_sep() -> Seq<char> {
    seq![' ', '-', ' ']
}

/// The entries an inclusive range contributes: one per code, in
/// ascending order, all carrying the same text.
pub open spec fn spec_range_entries(lo: int, hi: int, text: Seq<char>) -> Seq<(isize, Seq<char>)>
    decreases (if lo <= hi { hi - lo + 1 } else { 0 }),
{
    if lo > hi {
        Seq::empty()
    } else {
        seq![(lo as isize, text)] + spec_range_entries(lo + 1, hi, text)
    }
}

/// A range extends one entry at a time at its upper end.
pub proof fn lemma_range_entries_snoc(lo: int, hi: int, text: Seq<char>)
    requires
        lo <= hi,
    ensures
        spec_range_entries(lo, hi, text) == spec_range_entries(lo, hi - 1, text) + seq![
            (hi as isize, text),
        ],
    decreases hi - lo,
{
    if lo == hi {
        assert(spec_range_entries(lo + 1, hi, text) =~= Seq::<(isize, Seq<char>)>::empty());
        assert(spec_range_entries(lo, hi - 1, text) =~= Seq::<(isize, Seq<char>)>::empty());
        assert(spec_range_entries(lo, hi, text) =~= spec_range_entries(lo, hi - 1, text) + seq![
            (hi as isize, text),
        ]);
    } else {
        lemma_range_entries_snoc(lo + 1, hi, text);
        assert(spec_range_entries(lo, hi, text) == seq![(lo as isize, text)]
            + spec_range_entries(lo + 1, hi, text));
        assert(spec_range_entries(lo, hi - 1, text) == seq![(lo as isize, text)]
            + spec_range_entries(lo + 1, hi - 1, text));
        assert(spec_range_entries(lo, hi, text) =~= spec_range_entries(lo, hi - 1, text) + seq![
            (hi as isize, text),
        ]);
    }
}

/// True iff a table A key is well formed: either a decimal code, or
/// two decimal codes joined by " - ", each within machine range.
pub open spec fn meta_a_key_ok(key: Seq<char>) -> bool {
    match crate::scan::find_first(key, spec_range_sep()) {
        Option::Some(i) => {
            &&& match parse_decimal_spec(key.take(i)) {
                Option::Some(lo) => isize::MIN <= lo <= isize::MAX,
                Option::None => false,
            }
            &&& match parse_decimal_spec(key.skip(i + 3)) {
                Option::Some(hi) => isize::MIN <= hi <= isize::MAX,
                Option::None => false,
            }
        },
        Option::None => match parse_decimal_spec(key) {
            Option::Some(v) => isize::MIN <= v <= isize::MAX,
            Option::None => false,
        },
    }
}

/// The entries one table A row contributes.
pub open spec fn meta_a_row_entries(key: Seq<char>, text: Seq<char>) -> Seq<(isize, Seq<char>)> {
    match crate::scan::find_first(key, spec_range_sep()) {
        Option::Some(i) => {
            let lo = match parse_decimal_spec(key.take(i)) {
                Option::Some(v) => v,
                Option::None => 0,
            };
            let hi = match parse_decimal_spec(key.skip(i + 3)) {
                Option::Some(v) => v,
                Option::None => 0,
            };
            spec_range_entries(lo, hi, text)
        },
        Option::None => {
            let v = match parse_decimal_spec(key) {
                Option::Some(v) => v,
                Option::None => 0,
            };
            seq![(v as isize, text)]
        },
    }
}

/// The entries of all rows, in row order.
pub open spec fn meta_a_entries(rows: Seq<(String, String)>) -> Seq<(isize, Seq<char>)>
    decreases rows.len(),
{
    if rows.len() == 0 {
        Seq::empty()
    } else {
        meta_a_entries(rows.drop_last()) + meta_a_row_entries(rows.last().0@, rows.last().1@)
    }
}

/// Metadata table A: data category code to its description, with
/// inclusive ranges expanded at load time.
pub struct MetaA {
    entries: Vec<(isize, String)>,
}

impl MetaA {
    pub closed spec fn spec_map(&self) -> Seq<(isize, Seq<char>)> {
        self.entries@.map_values(|p: (isize, String)| (p.0, p.1@))
    }

    /// Build the table from rows of (code or range, text). Fails iff
    /// some key is neither a decimal code nor a "lo - hi" range of
    /// two decimal codes.
    #[verifier::loop_isolation(false)]
    pub fn load(rows: Vec<(String, String)>) -> (r: Result<MetaA, BufrKitError>)
        ensures
            match r {
                Ok(t) => {
                    &&& forall|i: int| 0 <= i < rows@.len() ==> meta_a_key_ok(#[trigger] rows@[i].0@)
                    &&& t.spec_map() == meta_a_entries(rows@)
                },
                Err(_) => exists|i: int| 0 <= i < rows@.len() && !meta_a_key_ok(#[trigger] rows@[i].0@),
            },
    {
        proof {
            reveal_strlit(" - ");
        }
        let sep = " - ";
        assert(sep@ =~= spec_range_sep());
        let mut entries: Vec<(isize, String)> = Vec::new();
        let mut i: usize = 0;
        assert(rows@.take(0) =~= Seq::<(String, String)>::empty());
        while i < rows.len()
            invariant
                i <= rows@.len(),
                forall|j: int| 0 <= j < i ==> meta_a_key_ok(#[trigger] rows@[j].0@),
                entries@.map_values(|p: (isize, String)| (p.0, p.1@)) == meta_a_entries(
                    rows@.take(i as int),
                ),
            decreases rows@.len() - i,
        {
            let ghost entries0 = entries@.map_values(|p: (isize, String)| (p.0, p.1@));
            let key = &rows[i].0;
            let text = &rows[i].1;
            let klen = key.as_str().unicode_len();
            match crate::scan::find_chars(key.as_str(), sep) {
                Some(ix) => {
                    proof {
                        crate::scan::lemma_find_first_characterises(key@, spec_range_sep());
                    }
                    let lo_str = key.as_str().substring_char(0, ix);
                    let hi_str = key.as_str().substring_char(ix + 3, klen);
                    assert(lo_str@ =~= key@.take(ix as int));
                    assert(hi_str@ =~= key@.skip(ix + 3));
                    let lo = match parse_isize(lo_str) {
                        Ok(v) => v,
                        Err(e) => {
                            assert(!meta_a_key_ok(rows@[i as int].0@));
                            return Err(e);
                        },
                    };
                    let hi = match parse_isize(hi_str) {
                        Ok(v) => v,
                        Err(e) => {
                            assert(!meta_a_key_ok(rows@[i as int].0@));
                            return Err(e);
                        },
                    };
                    if lo <= hi {
                        let mut v = lo;
                        assert(entries0 + spec_range_entries(lo as int, lo - 1, text@) =~= entries0);
                        while v < hi
                            invariant
                                lo <= v <= hi,
                                entries@.map_values(|p: (isize, String)| (p.0, p.1@)) == entries0
                                    + spec_range_entries(lo as int, v - 1, text@),
                            decreases hi - v,
                        {
                            let ghost prev = entries@.map_values(
                                |p: (isize, String)| (p.0, p.1@),
                            );
                            entries.push((v, text.clone()));
                            proof {
                                lemma_range_entries_snoc(lo as int, v as int, text@);
                                assert(entries@.map_values(|p: (isize, String)| (p.0, p.1@))
                                    =~= prev.push((v, text@)));
                                assert(entries0 + spec_range_entries(lo as int, v as int, text@)
                                    =~= (entries0 + spec_range_entries(lo as int, v - 1, text@)).push(
                                    (v, text@),
                                ));
                            }
                            v = v + 1;
                        }
                        let ghost prev = entries@.map_values(|p: (isize, String)| (p.0, p.1@));
                        entries.push((v, text.clone()));
                        proof {
                            lemma_range_entries_snoc(lo as int, hi as int, text@);
                            assert(entries@.map_values(|p: (isize, String)| (p.0, p.1@))
                                =~= prev.push((hi, text@)));
                            assert(entries0 + spec_range_entries(lo as int, hi as int, text@)
                                =~= (entries0 + spec_range_entries(lo as int, hi - 1, text@)).push(
                                (hi, text@),
                            ));
                        }
                    } else {
                        assert(entries@.map_values(|p: (isize, String)| (p.0, p.1@)) =~= entries0
                            + spec_range_entries(lo as int, hi as int, text@));
                    }
                },
                None => {
                    let v = match parse_isize(key.as_str()) {
                        Ok(v) => v,
                        Err(e) => {
                            assert(!meta_a_key_ok(rows@[i as int].0@));
                            return Err(e);
                        },
                    };
                    entries.push((v, text.clone()));
                    assert(entries@.map_values(|p: (isize, String)| (p.0, p.1@)) =~= entries0
                        + seq![(v, text@)]);
                },
            }
            proof {
                assert(rows@.take(i + 1).drop_last() =~= rows@.take(i as int));
                assert(entries@.map_values(|p: (isize, String)| (p.0, p.1@)) =~= meta_a_entries(
                    rows@.take(i + 1),
                ));
            }
            i = i + 1;
        }
        assert(rows@.take(i as int) =~= rows@);
        Ok(MetaA { entries })
    }

    /// The description of a data category code.
    pub fn lookup(&self, code: isize) -> (r: Result<&str, BufrKitError>)
        ensures
            match r {
                Ok(s) => match assoc_find(self.spec_map(), code) {
                    Option::Some(v) => s@ == v,
                    Option::None => false,
                },
                Err(_) => assoc_find(self.spec_map(), code) == Option::None::<Seq<char>>,
            },
    {
        let mut i: usize = self.entries.len();
        while i > 0
            invariant
                i <= self.entries@.len(),
                forall|j: int| i <= j < self.entries@.len() ==> self.entries@[j].0 != code,
            decreases i,
        {
            i = i - 1;
            if self.entries[i].0 == code {
                proof {
                    lemma_assoc_find_at(self.spec_map(), code, i as int);
                }
                return Ok(self.entries[i].1.as_str());
            }
        }
        proof {
            lemma_assoc_find_none(self.spec_map(), code);
        }
        let mut msg = isize_to_string(code);
        proof {
            reveal_strlit(": data category not found");
        }
        msg.append(": data category not found");
        Err(BufrKitError::new(msg))
    }
}

/// The "<id>: metadata not found" error.
fn meta_not_found_error(id: ID) -> (r: BufrKitError) {
    let mut msg = if id >= 0 {
        id.as_string()
    } else {
        isize_to_string(id)
    };
    proof {
        reveal_strlit(": metadata not found");
    }
    msg.append(": metadata not found");
    BufrKitError::new(msg)
}

/// The "Entry not found for <id> with value <val>" error.
fn cnf_not_found_error(id: ID, val: isize) -> (r: BufrKitError) {
    proof {
        reveal_strlit("Entry not found for ");
        reveal_strlit(" with value ");
    }
    let mut msg = String::from_str("Entry not found for ");
    let id_text = if id >= 0 {
        id.as_string()
    } else {
        isize_to_string(id)
    };
    msg.append(id_text.as_str());
    msg.append(" with value ");
    let val_text = isize_to_string(val);
    msg.append(val_text.as_str());
    BufrKitError::new(msg)
}

/// A value just inserted is the one every later find of its key
/// returns, and no other key's value moves: the cache-and-share law
/// behind `TableGroupManager::insert` and `get_table_group`.
pub proof fn lemma_assoc_insert_find<K, V>(s: Seq<(K, V)>, k: K, v: V)
    ensures
        assoc_find(s.push((k, v)), k) == Option::Some(v),
        forall|k2: K| k2 != k ==> #[trigger] assoc_find(s.push((k, v)), k2) == assoc_find(s, k2),
{
    assert forall|k2: K| k2 != k implies #[trigger] assoc_find(s.push((k, v)), k2) == assoc_find(
        s,
        k2,
    ) by {
        assert(s.push((k, v)).drop_last() =~= s);
    }
    assert(s.push((k, v)).last() == (k, v));
}

/// The names of the seven table files of a bundle.
#[derive(Debug, Clone, Copy)]
pub enum Name {
    TableB,
    TableD,
    CodeAndFlag,
    MetaA,
    MetaB,
    MetaC,
    MetaD,
}

impl Name {
    /// The file stem the name stands for.
    pub open spec fn spec_stem(&self) -> Seq<char> {
        match self {
            Name::TableB => "TableB"@,
            Name::TableD => "TableD"@,
            Name::CodeAndFlag => "code_and_flag"@,
            Name::MetaA => "MetaA"@,
            Name::MetaB => "MetaB"@,
            Name::MetaC => "MetaC"@,
            Name::MetaD => "MetaD"@,
        }
    }

    pub fn stem(&self) -> (r: &'static str)
        ensures
            r@ == self.spec_stem(),
    {
        match self {
            Name::TableB => "TableB",
            Name::TableD => "TableD",
            Name::CodeAndFlag => "code_and_flag",
            Name::MetaA => "MetaA",
            Name::MetaB => "MetaB",
            Name::MetaC => "MetaC",
            Name::MetaD => "MetaD",
        }
    }
}

/// The lookup key of the table cache: where a bundle's files live and
/// which master table, centre, subcentre and version they belong to.
/// Two ids with identical fields compare equal.
#[derive(Debug, Clone, Hash, Default)]
pub struct TableGroupId {
    pub base_dir: String,
    pub master_table_number: isize,
    pub centre_number: isize,
    pub sub_centre_number: isize,
    pub version_number: isize,
}

impl View for TableGroupId {
    type V = (Seq<char>, int, int, int, int);

    open spec fn view(&self) -> (Seq<char>, int, int, int, int) {
        (
            self.base_dir@,
            self.master_table_number as int,
            self.centre_number as int,
            self.sub_centre_number as int,
            self.version_number as int,
        )
    }
}

impl PartialEq for TableGroupId {
    fn eq(&self, other: &TableGroupId) -> (r: bool) {
        self.base_dir == other.base_dir && self.master_table_number == other.master_table_number
            && self.centre_number == other.centre_number && self.sub_centre_number
            == other.sub_centre_number && self.version_number == other.version_number
    }
}

impl vstd::std_specs::cmp::PartialEqSpecImpl for TableGroupId {
    open spec fn obeys_eq_spec() -> bool {
        true
    }

    open spec fn eq_spec(&self, other: &TableGroupId) -> bool {
        self@ == other@
    }
}

impl Eq for TableGroupId {}

impl TableGroupId {
    /// The textual form "base/master/centre_subcentre/version".
    pub open spec fn spec_display(&self) -> Seq<char> {
        self.base_dir@ + "/"@ + dec_string(self.master_table_number as int) + "/"@ + dec_string(
            self.centre_number as int,
        ) + "_"@ + dec_string(self.sub_centre_number as int) + "/"@ + dec_string(
            self.version_number as int,
        )
    }

    /// A copy of the id with the same abstract value.
    pub fn duplicate(&self) -> (r: TableGroupId)
        ensures
            r@ == self@,
    {
        TableGroupId {
            base_dir: self.base_dir.clone(),
            master_table_number: self.master_table_number,
            centre_number: self.centre_number,
            sub_centre_number: self.sub_centre_number,
            version_number: self.version_number,
        }
    }

    /// The textual form of the id, its fields joined by the path
    /// separator.
    pub fn display_string(&self) -> (r: String)
        ensures
            r@ == self.spec_display(),
    {
        proof {
            reveal_strlit("/");
            reveal_strlit("_");
        }
        let mut s = self.base_dir.clone();
        s.append("/");
        let t = isize_to_string(self.master_table_number);
        s.append(t.as_str());
        s.append("/");
        let t = isize_to_string(self.centre_number);
        s.append(t.as_str());
        s.append("_");
        let t = isize_to_string(self.sub_centre_number);
        s.append(t.as_str());
        s.append("/");
        let t = isize_to_string(self.version_number);
        s.append(t.as_str());
        assert(s@ =~= self.spec_display());
        s
    }

    /// The version-specific path of a table file:
    /// "base/master/centre_subcentre/version/stem.json".
    pub open spec fn spec_versioned_path(&self, name: Name) -> Seq<char> {
        self.spec_display() + "/"@ + name.spec_stem() + ".json"@
    }

    /// The shared fallback path: "base/common/stem.json".
    pub open spec fn spec_common_path(&self, name: Name) -> Seq<char> {
        self.base_dir@ + "/common/"@ + name.spec_stem() + ".json"@
    }

    /// The default-centre fallback path:
    /// "base/master/0_0/version/stem.json".
    pub open spec fn spec_default_path(&self, name: Name) -> Seq<char> {
        self.base_dir@ + "/"@ + dec_string(self.master_table_number as int) + "/0_0/"@
            + dec_string(self.version_number as int) + "/"@ + name.spec_stem() + ".json"@
    }

    /// The candidate paths of a table file, in the order they are to
    /// be tried: the version-specific directory, the shared "common"
    /// directory, then the default-centre directory of the version.
    pub fn get_table_file(&self, name: Name) -> (r: Vec<String>)
        ensures
            r@.len() == 3,
            r@[0]@ == self.spec_versioned_path(name),
            r@[1]@ == self.spec_common_path(name),
            r@[2]@ == self.spec_default_path(name),
    {
        proof {
            reveal_strlit("/");
            reveal_strlit(".json");
            reveal_strlit("/common/");
            reveal_strlit("/0_0/");
        }
        let mut p0 = self.display_string();
        p0.append("/");
        p0.append(name.stem());
        p0.append(".json");
        assert(p0@ =~= self.spec_versioned_path(name));

        let mut p1 = self.base_dir.clone();
        p1.append("/common/");
        p1.append(name.stem());
        p1.append(".json");
        assert(p1@ =~= self.spec_common_path(name));

        let mut p2 = self.base_dir.clone();
        p2.append("/");
        let t = isize_to_string(self.master_table_number);
        p2.append(t.as_str());
        p2.append("/0_0/");
        let t = isize_to_string(self.version_number);
        p2.append(t.as_str());
        p2.append("/");
        p2.append(name.stem());
        p2.append(".json");
        assert(p2@ =~= self.spec_default_path(name));

        let mut r: Vec<String> = Vec::new();
        r.push(p0);
        r.push(p1);
        r.push(p2);
        r
    }
}

/// One loaded bundle of the seven tables for a `TableGroupId`.
/// Immutable after construction.
pub struct TableGroup {
    id: TableGroupId,
    b: TableB,
    d: TableD,
    cnf: CodeAndFlag,
    ma: MetaA,
    mb: MetaB,
    mc: MetaC,
    md: MetaD,
}

impl TableGroup {
    pub closed spec fn spec_id(&self) -> TableGroupId {
        self.id
    }

    pub closed spec fn spec_b(&self) -> Seq<(isize, BEntry)> {
        self.b.spec_map()
    }

    pub closed spec fn spec_d(&self) -> Seq<(isize, DEntry)> {
        self.d.spec_map()
    }

    pub closed spec fn spec_cnf(&self) -> Seq<(isize, Vec<(isize, String)>)> {
        self.cnf.spec_map()
    }

    pub closed spec fn spec_ma(&self) -> Seq<(isize, Seq<char>)> {
        self.ma.spec_map()
    }

    pub closed spec fn spec_mb(&self) -> Seq<(Seq<char>, String)> {
        self.mb.spec_map()
    }

    pub closed spec fn spec_mc(&self) -> Seq<(Seq<char>, CEntry)> {
        self.mc.spec_map()
    }

    pub closed spec fn spec_md(&self) -> Seq<(Seq<char>, String)> {
        self.md.spec_map()
    }

    /// Assemble a bundle from its seven loaded tables.
    pub fn load(
        id: TableGroupId,
        b: TableB,
        d: TableD,
        cnf: CodeAndFlag,
        ma: MetaA,
        mb: MetaB,
        mc: MetaC,
        md: MetaD,
    ) -> (r: TableGroup)
        ensures
            r.spec_id() == id,
            r.spec_b() == b.spec_map(),
            r.spec_d() == d.spec_map(),
            r.spec_cnf() == cnf.spec_map(),
            r.spec_ma() == ma.spec_map(),
            r.spec_mb() == mb.spec_map(),
            r.spec_mc() == mc.spec_map(),
            r.spec_md() == md.spec_map(),
    {
        TableGroup { id, b, d, cnf, ma, mb, mc, md }
    }

    pub fn id(&self) -> (r: &TableGroupId)
        ensures
            *r == self.spec_id(),
    {
        &self.id
    }

    /// The textual form "id=base/master/centre_subcentre/version".
    pub fn display_string(&self) -> (r: String)
        ensures
            r@ == "id="@ + self.spec_id().spec_display(),
    {
        proof {
            reveal_strlit("id=");
        }
        let mut s = String::from_str("id=");
        let t = self.id.display_string();
        s.append(t.as_str());
        assert(s@ =~= "id="@ + self.spec_id().spec_display());
        s
    }

    /// Resolve a descriptor id to its entry: F = 0 routes to Table B,
    /// F = 1 to a synthetic replication entry, F = 2 to metadata
    /// table C, F = 3 to Table D. Ids outside 0..=399999 are
    /// malformed; a valid F with no table row is not found.
    pub fn lookup(&self, id: ID) -> (r: Result<Entry<'_>, BufrKitError>)
        ensures
            match r {
                Ok(e) => match e {
                    Entry::B(be) => spec_f(id as int) == 0 && assoc_find(self.spec_b(), id)
                        == Option::Some(*be),
                    Entry::R(re) => spec_f(id as int) == 1 && re.spec_id() == id as int,
                    Entry::C(ce) => spec_f(id as int) == 2 && (match assoc_find(
                        self.spec_mc(),
                        spec_id_string(id as int),
                    ) {
                        Option::Some(x) => *ce == x,
                        Option::None => assoc_find(self.spec_mc(), spec_wild_key(id as int))
                            == Option::Some(*ce),
                    }),
                    Entry::D(de) => spec_f(id as int) == 3 && assoc_find(self.spec_d(), id)
                        == Option::Some(*de),
                },
                Err(_) => {
                    ||| id < 0
                    ||| spec_f(id as int) >= 4
                    ||| (spec_f(id as int) == 0 && assoc_find(self.spec_b(), id)
                        == Option::None::<BEntry>)
                    ||| (spec_f(id as int) == 2 && assoc_find(
                        self.spec_mc(),
                        spec_id_string(id as int),
                    ) == Option::None::<CEntry> && assoc_find(
                        self.spec_mc(),
                        spec_wild_key(id as int),
                    ) == Option::None::<CEntry>)
                    ||| (spec_f(id as int) == 3 && assoc_find(self.spec_d(), id)
                        == Option::None::<DEntry>)
                },
            },
    {
        if id < 0 {
            return Err(invalid_form_error(id));
        }
        let f = id.f();
        if f == 0 {
            match self.b.lookup(id) {
                Ok(e) => Ok(Entry::B(e)),
                Err(e) => Err(e),
            }
        } else if f == 1 {
            Ok(Entry::R(REntry::new(id)))
        } else if f == 2 {
            match self.mc.lookup(id) {
                Ok(e) => Ok(Entry::C(e)),
                Err(e) => Err(e),
            }
        } else if f == 3 {
            match self.d.lookup(id) {
                Ok(e) => Ok(Entry::D(e)),
                Err(e) => Err(e),
            }
        } else {
            Err(invalid_form_error(id))
        }
    }

    /// The code-and-flag label of `val` for the element descriptor
    /// `id`; requires F = 0.
    pub fn lookup_cnf(&self, id: ID, val: isize) -> (r: Result<&str, BufrKitError>)
        ensures
            match r {
                Ok(s) => {
                    &&& 0 <= id
                    &&& spec_f(id as int) == 0
                    &&& match assoc_find(self.spec_cnf(), id) {
                        Option::Some(inner) => match assoc_find(inner@, val) {
                            Option::Some(lbl) => s@ == lbl@,
                            Option::None => false,
                        },
                        Option::None => false,
                    }
                },
                Err(_) => {
                    ||| id < 0
                    ||| spec_f(id as int) != 0
                    ||| match assoc_find(self.spec_cnf(), id) {
                        Option::Some(inner) => assoc_find(inner@, val) == Option::None::<String>,
                        Option::None => true,
                    }
                },
            },
    {
        if id < 0 || id.f() != 0 {
            return Err(invalid_element_error(id));
        }
        self.cnf.lookup(id, val)
    }

    /// The metadata description of `id`: F = 0 routes to metadata
    /// table B keyed by FX, F = 2 to metadata table C, F = 3 to
    /// metadata table D keyed by FX.
    pub fn lookup_meta(&self, id: ID) -> (r: Result<&str, BufrKitError>)
        ensures
            match r {
                Ok(s) => {
                    ||| (spec_f(id as int) == 0 && match assoc_find(
                        self.spec_mb(),
                        spec_fx_key(id as int),
                    ) {
                        Option::Some(v) => s@ == v@,
                        Option::None => false,
                    })
                    ||| (spec_f(id as int) == 2 && match assoc_find(
                        self.spec_mc(),
                        spec_id_string(id as int),
                    ) {
                        Option::Some(x) => s@ == x.name@,
                        Option::None => match assoc_find(self.spec_mc(), spec_wild_key(id as int)) {
                            Option::Some(x) => s@ == x.name@,
                            Option::None => false,
                        },
                    })
                    ||| (spec_f(id as int) == 3 && match assoc_find(
                        self.spec_md(),
                        spec_fx_key(id as int),
                    ) {
                        Option::Some(v) => s@ == v@,
                        Option::None => false,
                    })
                },
                Err(_) => {
                    ||| id < 0
                    ||| spec_f(id as int) == 1
                    ||| spec_f(id as int) >= 4
                    ||| (spec_f(id as int) == 0 && assoc_find(self.spec_mb(), spec_fx_key(id as int))
                        == Option::None::<String>)
                    ||| (spec_f(id as int) == 2 && assoc_find(
                        self.spec_mc(),
                        spec_id_string(id as int),
                    ) == Option::None::<CEntry> && assoc_find(
                        self.spec_mc(),
                        spec_wild_key(id as int),
                    ) == Option::None::<CEntry>)
                    ||| (spec_f(id as int) == 3 && assoc_find(self.spec_md(), spec_fx_key(id as int))
                        == Option::None::<String>)
                },
            },
    {
        if id < 0 {
            return Err(meta_not_found_error(id));
        }
        let f = id.f();
        if f == 0 {
            self.mb.lookup(id)
        } else if f == 2 {
            match self.mc.lookup(id) {
                Ok(centry) => Ok(centry.name.as_str()),
                Err(e) => Err(e),
            }
        } else if f == 3 {
            self.md.lookup(id)
        } else {
            Err(meta_not_found_error(id))
        }
    }

    /// The description of a data category code from metadata table A.
    pub fn data_category_of(&self, code: isize) -> (r: Result<&str, BufrKitError>)
        ensures
            match r {
                Ok(s) => match assoc_find(self.spec_ma(), code) {
                    Option::Some(v) => s@ == v,
                    Option::None => false,
                },
                Err(_) => assoc_find(self.spec_ma(), code) == Option::None::<Seq<char>>,
            },
    {
        self.ma.lookup(code)
    }
}

/// The "<id>: not a valid form of descriptor ID" error.
fn invalid_form_error(id: ID) -> (r: BufrKitError) {
    let mut msg = if id >= 0 {
        id.as_string()
    } else {
        isize_to_string(id)
    };
    proof {
        reveal_strlit(": not a valid form of descriptor ID");
    }
    msg.append(": not a valid form of descriptor ID");
    BufrKitError::new(msg)
}

/// The "<id>: not a valid element descriptor ID" error.
fn invalid_element_error(id: ID) -> (r: BufrKitError) {
    let mut msg = if id >= 0 {
        id.as_string()
    } else {
        isize_to_string(id)
    };
    proof {
        reveal_strlit(": not a valid element descriptor ID");
    }
    msg.append(": not a valid element descriptor ID");
    BufrKitError::new(msg)
}

/// The process-wide registry of loaded bundles: a mapping from
/// `TableGroupId` to its `TableGroup`, filled as bundles are loaded
/// and never evicted. Loading does input, so the caller loads a
/// missing bundle and hands it to `insert`; `get_table_group` then
/// serves every later request for the same id from the cache.
pub struct TableGroupManager {
    cache: Vec<(TableGroupId, TableGroup)>,
}

impl TableGroupManager {
    /// The cache contents, keyed by the id's abstract value.
    pub closed spec fn spec_cache(&self) -> Seq<((Seq<char>, int, int, int, int), TableGroup)> {
        self.cache@.map_values(|p: (TableGroupId, TableGroup)| (p.0@, p.1))
    }

    /// Every cached bundle sits under its own id: what `get` hands
    /// out for a key is a bundle made for that key.
    pub open spec fn wf(&self) -> bool {
        forall|i: int|
            0 <= i < self.spec_cache().len() ==> (#[trigger] self.spec_cache()[i]).1.spec_id()@
                == self.spec_cache()[i].0
    }

    pub fn new() -> (r: TableGroupManager)
        ensures
            r.spec_cache() == Seq::<((Seq<char>, int, int, int, int), TableGroup)>::empty(),
            r.wf(),
    {
        let r = TableGroupManager { cache: Vec::new() };
        proof {
            assert(r.spec_cache() =~= Seq::<((Seq<char>, int, int, int, int), TableGroup)>::empty());
        }
        r
    }

    /// The bundle cached for `table_group_id`, if one has been
    /// inserted; the cache itself is untouched either way.
    pub fn get_table_group(&self, table_group_id: &TableGroupId) -> (r: Result<
        &TableGroup,
        BufrKitError,
    >)
        ensures
            match r {
                Ok(g) => assoc_find(self.spec_cache(), table_group_id@) == Option::Some(*g) && (
                self.wf() ==> g.spec_id()@ == table_group_id@),
                Err(_) => assoc_find(self.spec_cache(), table_group_id@) == Option::None::<
                    TableGroup,
                >,
            },
    {
        let mut i: usize = self.cache.len();
        while i > 0
            invariant
                i <= self.cache@.len(),
                forall|j: int| i <= j < self.cache@.len() ==> self.cache@[j].0@ != table_group_id@,
            decreases i,
        {
            i = i - 1;
            if self.cache[i].0 == *table_group_id {
                proof {
                    lemma_assoc_find_at(self.spec_cache(), table_group_id@, i as int);
                }
                return Ok(&self.cache[i].1);
            }
        }
        proof {
            lemma_assoc_find_none(self.spec_cache(), table_group_id@);
        }
        let mut msg = table_group_id.display_string();
        proof {
            reveal_strlit(": table group not loaded");
        }
        msg.append(": table group not loaded");
        Err(BufrKitError::new(msg))
    }

    /// Publish a loaded bundle under its own id. A later entry for
    /// the same id wins, so re-inserting replaces what lookups see.
    pub fn insert(&mut self, table_group_id: TableGroupId, group: TableGroup)
        requires
            group.spec_id()@ == table_group_id@,
        ensures
            final(self).spec_cache() == old(self).spec_cache().push((table_group_id@, group)),
            old(self).wf() ==> final(self).wf(),
    {
        let ghost before = self.spec_cache();
        self.cache.push((table_group_id, group));
        proof {
            assert(self.spec_cache() =~= before.push((self.cache@.last().0@, self.cache@.last().1)));
        }
    }

    /// How many bundles the cache holds.
    pub fn size(&self) -> (r: usize)
        ensures
            r == self.spec_cache().len(),
    {
        self.cache.len()
    }
}

/// The "<id> not found" error, with the id in six-digit form where it
/// is a well-formed descriptor id.
fn not_found_error(id: ID) -> (r: BufrKitError)
{
    let mut msg = if id >= 0 {
        id.as_string()
    } else {
        isize_to_string(id)
    };
    proof {
        reveal_strlit(" not found");
    }
    msg.append(" not found");
    BufrKitError::new(msg)
}

} // verus!
