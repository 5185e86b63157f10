//! Version-control status by file name: the flags that a working tree
//! reports, keyed by the last component of each reported path.

use crate::text::{leaf_name, leaf_of};
use vstd::prelude::*;

verus! {

/// A file that is new in the index.
pub const INDEX_NEW: u32 = 0x1;

/// A file whose change is in the index.
pub const INDEX_MODIFIED: u32 = 0x2;

/// A file of the working tree that the index does not know.
pub const WT_NEW: u32 = 0x80;

/// A file of the working tree that differs from the index.
pub const WT_MODIFIED: u32 = 0x100;

/// One line of a working tree's status report.
#[derive(Debug, Clone, PartialEq, Eq)]
pub struct ReportedStatus {
    /// The path of the file, relative to the working tree; `None` where it
    /// is not text.
    pub path: Option<String>,
    /// Its status flags.
    pub status: u32,
}

/// The statuses that `reports` give by file name. A report without a path, or
/// whose path has no last component, is passed over; of two for one name the
/// later one counts.
pub open spec fn statuses_by_leaf(reports: Seq<ReportedStatus>) -> Map<Seq<char>, u32>
    decreases reports.len(),
{
    if reports.len() == 0 {
        Map::empty()
    } else {
        let earlier = statuses_by_leaf(reports.drop_last());
        match reports.last().path {
            Some(p) => match leaf_of(p@) {
                Some(name) => earlier.insert(name, reports.last().status),
                None => earlier,
            },
            None => earlier,
        }
    }
}

/// A status for a file name.
struct Entry {
    name: String,
    status: u32,
}

/// Status flags by file name. Its view is the map from names to flags.
pub struct StatusMap {
    entries: Vec<Entry>,
}

/// The map that a list of entries stands for: a later entry replaces an
/// earlier one of the same name.
spec fn map_of(entries: Seq<Entry>) -> Map<Seq<char>, u32>
    decreases entries.len(),
{
    if entries.len() == 0 {
        Map::empty()
    } else {
        map_of(entries.drop_last()).insert(entries.last().name@, entries.last().status)
    }
}

impl View for StatusMap {
    type V = Map<Seq<char>, u32>;

    closed spec fn view(&self) -> Map<Seq<char>, u32> {
        map_of(self.entries@)
    }
}

/// What `statuses` holds for `name`.
pub open spec fn status_of(statuses: Map<Seq<char>, u32>, name: Seq<char>) -> Option<u32> {
    if statuses.dom().contains(name) {
        Some(statuses[name])
    } else {
        None
    }
}

impl StatusMap {
    /// A map without entries.
    pub fn new() -> (map: Self)
        ensures
            map@ == Map::<Seq<char>, u32>::empty(),
    {
        StatusMap { entries: Vec::new() }
    }

    /// Sets the status of `name`.
    pub fn insert(&mut self, name: String, status: u32)
        ensures
            final(self)@ == old(self)@.insert(name@, status),
    {
        let ghost before = self.entries@;
        self.entries.push(Entry { name, status });
        assert(self.entries@.drop_last() =~= before);
    }

    /// The status of `name`, if it has one.
    pub fn get(&self, name: &str) -> (status: Option<u32>)
        ensures
            status == status_of(self@, name@),
    {
        let key = name.to_owned();
        let mut i: usize = self.entries.len();
        assert(self.entries@.take(i as int) =~= self.entries@);
        while i > 0
            invariant
                i <= self.entries.len(),
                key@ == name@,
                status_of(self@, name@) == status_of(map_of(self.entries@.take(i as int)), name@),
            decreases i,
        {
            assert(self.entries@.take(i as int).drop_last() =~= self.entries@.take(i - 1));
            i = i - 1;
            if self.entries[i].name == key {
                return Some(self.entries[i].status);
            }
        }
        None
    }

    /// The statuses of a report, by file name.
    pub fn from_reports(reports: &Vec<ReportedStatus>) -> (map: Self)
        ensures
            map@ == statuses_by_leaf(reports@),
    {
        let mut map = StatusMap::new();
        let mut i: usize = 0;
        while i < reports.len()
            invariant
                i <= reports.len(),
                map@ == statuses_by_leaf(reports@.take(i as int)),
            decreases reports.len() - i,
        {
            assert(reports@.take(i + 1).drop_last() =~= reports@.take(i as int));
            match &reports[i].path {
                Some(p) => match leaf_name(p.as_str()) {
                    Some(name) => {
                        map.insert(name, reports[i].status);
                    },
                    None => {},
                },
                None => {},
            }
            i = i + 1;
        }
        assert(reports@.take(i as int) =~= reports@);
        map
    }
}

} // verus!
