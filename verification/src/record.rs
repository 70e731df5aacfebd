//! Structured variable records: an ordered list of (id, value) pairs, one per
//! decoded 8-byte chunk of a frame's inner data part. Consumers may read the
//! record as a string-keyed mapping in which a duplicate id overwrites an
//! earlier one.

use vstd::prelude::*;
use crate::codec::FixedValue;

verus! {

/// Mathematical model of one record entry: a display id and its value.
pub struct EntryModel {
    pub id: Seq<char>,
    pub value: FixedValue,
}

/// One (id, value) pair of a record: a short ASCII-derived display id and a
/// decoded Q16.15 value.
pub struct VariableEntry {
    pub id: String,
    pub value: FixedValue,
}

impl View for VariableEntry {
    type V = EntryModel;

    open spec fn view(&self) -> EntryModel {
        EntryModel { id: self.id@, value: self.value }
    }
}

impl Clone for VariableEntry {
    fn clone(&self) -> (r: Self)
        ensures
            r@ == self@,
    {
        VariableEntry { id: self.id.clone(), value: self.value }
    }
}

/// The sequence of entry models that a sequence of entries denotes.
pub open spec fn entry_models(s: Seq<VariableEntry>) -> Seq<EntryModel> {
    s.map_values(|e: VariableEntry| e@)
}

/// The views of a sequence of records.
pub open spec fn record_views(rs: Seq<VariableRecord>) -> Seq<Seq<EntryModel>> {
    rs.map_values(|r: VariableRecord| r@)
}

/// The value under `id` in an entry sequence read as a mapping: the value of
/// the last entry carrying `id`, so that a duplicate id overwrites an
/// earlier one.
pub open spec fn lookup_entry(s: Seq<EntryModel>, id: Seq<char>) -> Option<FixedValue>
    decreases s.len(),
{
    if s.len() == 0 {
        None
    } else if s.last().id == id {
        Some(s.last().value)
    } else {
        lookup_entry(s.drop_last(), id)
    }
}

/// One structured message: the ordered (id, value) pairs decoded from a
/// single validated frame, in chunk order.
pub struct VariableRecord {
    pub entries: Vec<VariableEntry>,
}

impl View for VariableRecord {
    type V = Seq<EntryModel>;

    open spec fn view(&self) -> Seq<EntryModel> {
        entry_models(self.entries@)
    }
}

impl Clone for VariableRecord {
    fn clone(&self) -> (r: Self)
        ensures
            r@ == self@,
    {
        let mut entries: Vec<VariableEntry> = Vec::new();
        let mut i: usize = 0;
        while i < self.entries.len()
            invariant
                i <= self.entries@.len(),
                entries@.len() == i,
                forall|k: int| 0 <= k < i ==> entries@[k]@ == self.entries@[k]@,
            decreases self.entries@.len() - i,
        {
            entries.push(self.entries[i].clone());
            i += 1;
        }
        let r = VariableRecord { entries };
        proof {
            assert(r@ =~= self@);
        }
        r
    }
}

impl VariableRecord {
    /// An empty record, with no entries.
    pub fn new() -> (r: Self)
        ensures
            r@ == Seq::<EntryModel>::empty(),
    {
        let r = VariableRecord { entries: Vec::new() };
        proof {
            assert(r@ =~= Seq::<EntryModel>::empty());
        }
        r
    }

    /// Number of (id, value) pairs in the record.
    pub fn len(&self) -> (n: usize)
        ensures
            n == self@.len(),
    {
        self.entries.len()
    }

    /// The entry at position `i`, in chunk order.
    pub fn entry_at(&self, i: usize) -> (e: &VariableEntry)
        requires
            i < self@.len(),
        ensures
            e@ == self@[i as int],
    {
        &self.entries[i]
    }

    /// Read the record as a string-keyed mapping: the value of the last
    /// entry whose id equals `id`, or nothing when no entry carries it.
    pub fn get(&self, id: &String) -> (r: Option<FixedValue>)
        ensures
            r == lookup_entry(self@, id@),
    {
        let mut j: usize = self.entries.len();
        proof {
            assert(self@.take(self.entries@.len() as int) =~= self@);
        }
        while j > 0
            invariant
                j <= self.entries@.len(),
                lookup_entry(self@, id@) == lookup_entry(self@.take(j as int), id@),
            decreases j,
        {
            proof {
                assert(self@.take(j as int).last() == self.entries@[j - 1]@);
                assert(self@.take(j as int).drop_last() =~= self@.take(j - 1));
            }
            if self.entries[j - 1].id.eq(id) {
                return Some(self.entries[j - 1].value);
            }
            j -= 1;
        }
        proof {
            assert(self@.take(0) =~= Seq::<EntryModel>::empty());
        }
        None
    }
}

} // verus!
