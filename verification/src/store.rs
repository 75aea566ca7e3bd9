//! The record store: the full create/read/update/delete lifecycle, with a
//! soft-delete archive, over two directories of record files.
//!
//! The store is the in-memory model of the two directories: each directory is
//! a sequence of entries, one per file, pairing the file's name stem (the
//! primary key) with the record read from, or to be written to, that file.
//! Every operation says exactly how it changes the model and which effect the
//! surrounding file layer must mirror to disk.

use vstd::prelude::*;
use vstd::pervasive::VecAdditionalExecFns;

use crate::polar::{Polar, PolarError, PolarV, with_identity};

verus! {

/// Ghost view of one stored record: its primary key (the file name stem) and
/// the record content.
#[verifier::ext_equal]
pub ghost struct EntryV {
    pub id: Seq<char>,
    pub polar: PolarV,
}

/// One stored record.
pub struct Entry {
    pub id: String,
    pub polar: Polar,
}

impl View for Entry {
    type V = EntryV;

    open spec fn view(&self) -> EntryV {
        EntryV { id: self.id@, polar: self.polar@ }
    }
}

/// The views of a directory's entries, in entry order.
pub open spec fn entries_view(s: Seq<Entry>) -> Seq<EntryV> {
    s.map_values(|e: Entry| e@)
}

/// No two entries of `s` share a primary key. Holds of each directory: the
/// filesystem cannot hold two files of one name.
pub open spec fn ids_distinct(s: Seq<EntryV>) -> bool {
    forall|i: int, j: int| 0 <= i < j < s.len() ==> s[i].id != s[j].id
}

/// Some entry of `s` has primary key `id`.
pub open spec fn has_id(s: Seq<EntryV>, id: Seq<char>) -> bool {
    exists|i: int| 0 <= i < s.len() && s[i].id == id
}

/// The index of the entry with primary key `id`.
pub open spec fn idx_of(s: Seq<EntryV>, id: Seq<char>) -> int {
    choose|i: int| 0 <= i < s.len() && s[i].id == id
}

/// The record stored under primary key `id`.
pub open spec fn record_of(s: Seq<EntryV>, id: Seq<char>) -> PolarV {
    s[idx_of(s, id)].polar
}

/// `s` with `e` written: over the entry already keyed `e.id`, else appended.
/// This is what writing a file does to a directory.
pub open spec fn upsert(s: Seq<EntryV>, e: EntryV) -> Seq<EntryV> {
    if has_id(s, e.id) {
        s.update(idx_of(s, e.id), e)
    } else {
        s.push(e)
    }
}

/// In a directory without duplicate keys, an entry's index is the index of
/// its key.
pub proof fn lemma_idx_unique(s: Seq<EntryV>, i: int)
    requires
        ids_distinct(s),
        0 <= i < s.len(),
    ensures
        idx_of(s, s[i].id) == i,
        has_id(s, s[i].id),
        record_of(s, s[i].id) == s[i].polar,
{
    assert(has_id(s, s[i].id));
    let j = idx_of(s, s[i].id);
    if j != i {
        if j < i {
            assert(s[j].id != s[i].id);
        } else {
            assert(s[i].id != s[j].id);
        }
    }
}

/// Appending an entry under a fresh key: what it does to key lookups.
pub proof fn lemma_push_entry(s: Seq<EntryV>, e: EntryV)
    requires
        ids_distinct(s),
        !has_id(s, e.id),
    ensures
        ids_distinct(s.push(e)),
        has_id(s.push(e), e.id),
        record_of(s.push(e), e.id) == e.polar,
        forall|id: Seq<char>| id != e.id ==> has_id(s.push(e), id) == has_id(s, id),
        forall|id: Seq<char>|
            id != e.id && has_id(s, id) ==> record_of(s.push(e), id) == record_of(s, id),
{
    let t = s.push(e);
    assert forall|i: int, j: int| 0 <= i < j < t.len() implies t[i].id != t[j].id by {
        if j == s.len() {
            assert(t[i] == s[i]);
            assert(!has_id(s, e.id) ==> s[i].id != e.id);
        } else {
            assert(t[i] == s[i] && t[j] == s[j]);
        }
    }
    assert(t[s.len() as int] == e);
    lemma_idx_unique(t, s.len() as int);
    assert forall|id: Seq<char>| id != e.id implies has_id(t, id) == has_id(s, id) by {
        if has_id(s, id) {
            let i = idx_of(s, id);
            assert(t[i] == s[i]);
        }
        if has_id(t, id) {
            let i = idx_of(t, id);
            assert(i < s.len() && s[i] == t[i]);
            assert(has_id(s, id));
        }
    }
    assert forall|id: Seq<char>| id != e.id && has_id(s, id) implies record_of(t, id)
        == record_of(s, id) by {
        let i = idx_of(s, id);
        assert(0 <= i < s.len() && s[i].id == id);
        assert(t[i] == s[i]);
        lemma_idx_unique(t, i);
    }
}

/// Overwriting the entry at one key: what it does to key lookups.
pub proof fn lemma_update_entry(s: Seq<EntryV>, e: EntryV)
    requires
        ids_distinct(s),
        has_id(s, e.id),
    ensures
        ids_distinct(s.update(idx_of(s, e.id), e)),
        has_id(s.update(idx_of(s, e.id), e), e.id),
        record_of(s.update(idx_of(s, e.id), e), e.id) == e.polar,
        forall|id: Seq<char>|
            id != e.id ==> has_id(s.update(idx_of(s, e.id), e), id) == has_id(s, id),
        forall|id: Seq<char>|
            id != e.id && has_id(s, id) ==> record_of(s.update(idx_of(s, e.id), e), id)
                == record_of(s, id),
{
    let k = idx_of(s, e.id);
    assert(0 <= k < s.len() && s[k].id == e.id);
    let t = s.update(k, e);
    assert forall|i: int, j: int| 0 <= i < j < t.len() implies t[i].id != t[j].id by {
        if i == k {
            assert(t[j] == s[j] && s[k].id != s[j].id);
        } else if j == k {
            assert(t[i] == s[i] && s[i].id != s[k].id);
        } else {
            assert(t[i] == s[i] && t[j] == s[j]);
        }
    }
    assert(t[k] == e);
    lemma_idx_unique(t, k);
    assert forall|id: Seq<char>| id != e.id implies has_id(t, id) == has_id(s, id) by {
        if has_id(s, id) {
            let i = idx_of(s, id);
            assert(i != k && t[i] == s[i]);
        }
        if has_id(t, id) {
            let i = idx_of(t, id);
            assert(i != k && s[i] == t[i]);
        }
    }
    assert forall|id: Seq<char>| id != e.id && has_id(s, id) implies record_of(t, id)
        == record_of(s, id) by {
        let i = idx_of(s, id);
        assert(i != k && t[i] == s[i]);
        lemma_idx_unique(t, i);
    }
}

/// Removing the entry at one key: what it does to key lookups.
pub proof fn lemma_remove_entry(s: Seq<EntryV>, k: int)
    requires
        ids_distinct(s),
        0 <= k < s.len(),
    ensures
        ids_distinct(s.remove(k)),
        !has_id(s.remove(k), s[k].id),
        forall|id: Seq<char>| id != s[k].id ==> has_id(s.remove(k), id) == has_id(s, id),
        forall|id: Seq<char>|
            id != s[k].id && has_id(s, id) ==> record_of(s.remove(k), id) == record_of(s, id),
{
    let t = s.remove(k);
    assert(t.len() == s.len() - 1);
    assert(forall|i: int|
        0 <= i < t.len() ==> t[i] == (if i < k {
            s[i]
        } else {
            s[i + 1]
        }));
    assert forall|i: int, j: int| 0 <= i < j < t.len() implies t[i].id != t[j].id by {}
    if has_id(t, s[k].id) {
        let i = idx_of(t, s[k].id);
        assert(0 <= i < t.len() && t[i].id == s[k].id);
    }
    assert forall|id: Seq<char>| id != s[k].id implies has_id(t, id) == has_id(s, id) by {
        if has_id(s, id) {
            let i = idx_of(s, id);
            if i < k {
                assert(t[i] == s[i]);
            } else {
                assert(i > k);
                assert(t[i - 1] == s[i]);
            }
        }
        if has_id(t, id) {
            let i = idx_of(t, id);
            if i < k {
                assert(s[i] == t[i]);
            } else {
                assert(s[i + 1] == t[i]);
            }
        }
    }
    assert forall|id: Seq<char>| id != s[k].id && has_id(s, id) implies record_of(t, id)
        == record_of(s, id) by {
        let i = idx_of(s, id);
        if i < k {
            assert(t[i] == s[i]);
            lemma_idx_unique(t, i);
        } else {
            assert(i > k);
            assert(t[i - 1] == s[i]);
            lemma_idx_unique(t, i - 1);
        }
    }
}

/// Ghost view of the whole store: the two directory paths and the entries of
/// each directory, in directory order.
#[verifier::ext_equal]
pub ghost struct StoreView {
    pub polars_dir: Seq<char>,
    pub archived_dir: Seq<char>,
    pub active: Seq<EntryV>,
    pub archived: Seq<EntryV>,
}

/// The record store over an active and an archived directory.
pub struct PolarService {
    polars_dir: String,
    archived_dir: String,
    active: Vec<Entry>,
    archived: Vec<Entry>,
}

impl View for PolarService {
    type V = StoreView;

    closed spec fn view(&self) -> StoreView {
        StoreView {
            polars_dir: self.polars_dir@,
            archived_dir: self.archived_dir@,
            active: entries_view(self.active@),
            archived: entries_view(self.archived@),
        }
    }
}

/// What a directory scan yields: each entry's record, in entry order,
/// carrying the entry's key and the scanned location.
pub open spec fn listed(s: Seq<EntryV>, archived: bool) -> Seq<PolarV> {
    s.map_values(|e: EntryV| with_identity(e.polar, e.id, archived))
}

/// The first entry of `s` whose record carries secondary id `pid`, in entry
/// order.
pub open spec fn first_with_pid(s: Seq<EntryV>, pid: u8) -> Option<EntryV>
    decreases s.len(),
{
    if s.len() == 0 {
        None
    } else if s[0].polar.polar_id == pid {
        Some(s[0])
    } else {
        first_with_pid(s.drop_first(), pid)
    }
}

/// Stepping a scan for a secondary id past a non-matching entry.
proof fn lemma_first_with_pid_skip(s: Seq<EntryV>, pid: u8, i: int)
    requires
        0 <= i < s.len(),
        s[i].polar.polar_id != pid,
    ensures
        first_with_pid(s.skip(i), pid) == first_with_pid(s.skip(i + 1), pid),
{
    assert(s.skip(i).len() > 0);
    assert(s.skip(i)[0] == s[i]);
    assert(s.skip(i).drop_first() =~= s.skip(i + 1));
}

/// Which directory an operation touched; the file layer mirrors the
/// operation in that directory.
#[derive(Clone, Copy, PartialEq, Eq, Structural, Debug)]
pub enum Location {
    Active,
    Archived,
}

/// What an update did, so the file layer can mirror it: either the file named
/// after the given key was rewritten, or the file named after the first key
/// was removed and one named after the second was written.
#[derive(Debug)]
pub enum UpdateEffect {
    InPlace(String),
    Renamed(String, String),
}

/// Find the entry keyed `id` in one directory.
fn find_entry(entries: &Vec<Entry>, id: &String) -> (r: Option<usize>)
    ensures
        match r {
            Some(i) => 0 <= i < entries@.len() && entries_view(entries@)[i as int].id == id@,
            None => !has_id(entries_view(entries@), id@),
        },
{
    let mut i: usize = 0;
    while i < entries.len()
        invariant
            0 <= i <= entries@.len(),
            forall|j: int| 0 <= j < i ==> entries_view(entries@)[j].id != id@,
        decreases entries@.len() - i,
    {
        if entries[i].id == *id {
            return Some(i);
        }
        i += 1;
    }
    None
}

/// Write entry `e` into a directory: over the entry already keyed `e@.id`,
/// else appended — as writing the file `e.id` would do.
fn upsert_entry(entries: &mut Vec<Entry>, e: Entry)
    requires
        ids_distinct(entries_view(old(entries)@)),
    ensures
        entries_view(final(entries)@) == upsert(entries_view(old(entries)@), e@),
        ids_distinct(entries_view(final(entries)@)),
{
    let ghost s = entries_view(entries@);
    match find_entry(entries, &e.id) {
        Some(i) => {
            proof {
                lemma_idx_unique(s, i as int);
                lemma_update_entry(s, e@);
            }
            entries.set(i, e);
            proof {
                assert(entries_view(entries@) =~= s.update(idx_of(s, e@.id), e@));
            }
        },
        None => {
            proof {
                lemma_push_entry(s, e@);
            }
            entries.push(e);
            proof {
                assert(entries_view(entries@) =~= s.push(e@));
            }
        },
    }
}

/// Find the first entry whose record carries secondary id `pid`.
fn find_pid(entries: &Vec<Entry>, pid: u8) -> (r: Option<usize>)
    ensures
        match r {
            Some(i) => 0 <= i < entries@.len() && first_with_pid(entries_view(entries@), pid)
                == Some(entries_view(entries@)[i as int]),
            None => first_with_pid(entries_view(entries@), pid) is None,
        },
{
    let ghost s = entries_view(entries@);
    proof {
        assert(s.skip(0) =~= s);
    }
    let mut i: usize = 0;
    while i < entries.len()
        invariant
            0 <= i <= entries@.len(),
            s == entries_view(entries@),
            first_with_pid(s, pid) == first_with_pid(s.skip(i as int), pid),
        decreases entries@.len() - i,
    {
        if entries[i].polar.polar_id == pid {
            proof {
                assert(s.skip(i as int)[0] == s[i as int]);
            }
            return Some(i);
        }
        proof {
            lemma_first_with_pid_skip(s, pid, i as int);
        }
        i += 1;
    }
    proof {
        assert(s.skip(s.len() as int).len() == 0);
    }
    None
}

impl PolarService {
    /// Both directories hold no duplicate file name, so no duplicate key.
    pub open spec fn wf(self) -> bool {
        ids_distinct(self@.active) && ids_distinct(self@.archived)
    }

    /// A store over the two given directories, before any record is loaded.
    /// The file layer must ensure both directories exist.
    pub fn new(polars_dir: String, archived_dir: String) -> (s: Self)
        ensures
            s.wf(),
            s@.polars_dir == polars_dir@,
            s@.archived_dir == archived_dir@,
            s@.active == Seq::<EntryV>::empty(),
            s@.archived == Seq::<EntryV>::empty(),
    {
        let s = PolarService { polars_dir, archived_dir, active: Vec::new(), archived: Vec::new() };
        proof {
            assert(s@.active =~= Seq::<EntryV>::empty());
            assert(s@.archived =~= Seq::<EntryV>::empty());
        }
        s
    }

    /// The active directory's path.
    pub fn polars_dir(&self) -> (r: &String)
        ensures
            r@ == self@.polars_dir,
    {
        &self.polars_dir
    }

    /// The archived directory's path.
    pub fn archived_dir(&self) -> (r: &String)
        ensures
            r@ == self@.archived_dir,
    {
        &self.archived_dir
    }

    /// Load one decoded record into the store while a directory is scanned:
    /// under key `id` (the file's name stem), into the directory the scan
    /// covers. A key already present in that directory is refused — one file,
    /// one entry.
    pub fn insert_scanned(&mut self, id: String, polar: Polar, archived: bool) -> (r: bool)
        requires
            old(self).wf(),
        ensures
            final(self).wf(),
            final(self)@.polars_dir == old(self)@.polars_dir,
            final(self)@.archived_dir == old(self)@.archived_dir,
            r == !has_id(
                if archived {
                    old(self)@.archived
                } else {
                    old(self)@.active
                },
                id@,
            ),
            !r ==> final(self)@ == old(self)@,
            r && archived ==> final(self)@.archived == old(self)@.archived.push(
                EntryV { id: id@, polar: polar@ },
            ) && final(self)@.active == old(self)@.active,
            r && !archived ==> final(self)@.active == old(self)@.active.push(
                EntryV { id: id@, polar: polar@ },
            ) && final(self)@.archived == old(self)@.archived,
    {
        if archived {
            match find_entry(&self.archived, &id) {
                Some(_) => false,
                None => {
                    let entry = Entry { id, polar };
                    proof {
                        lemma_push_entry(self@.archived, entry@);
                    }
                    let ghost s0 = self@.archived;
                    self.archived.push(entry);
                    proof {
                        assert(entries_view(self.archived@) =~= s0.push(entry@));
                    }
                    true
                },
            }
        } else {
            match find_entry(&self.active, &id) {
                Some(_) => false,
                None => {
                    let entry = Entry { id, polar };
                    proof {
                        lemma_push_entry(self@.active, entry@);
                    }
                    let ghost s0 = self@.active;
                    self.active.push(entry);
                    proof {
                        assert(entries_view(self.active@) =~= s0.push(entry@));
                    }
                    true
                },
            }
        }
    }

    /// List one directory's records in entry order: the archived directory
    /// when the flag is `Some(true)`, else the active one. Each record
    /// carries its key and the location it was listed from.
    pub fn list(&self, archived: Option<bool>) -> (r: Vec<Polar>)
        ensures
            r.deep_view() == listed(
                if archived == Some(true) {
                    self@.archived
                } else {
                    self@.active
                },
                archived == Some(true),
            ),
    {
        let from_archived = match archived {
            Some(true) => true,
            _ => false,
        };
        let entries = if from_archived {
            &self.archived
        } else {
            &self.active
        };
        let ghost s = entries_view(entries@);
        let mut r: Vec<Polar> = Vec::new();
        let mut i: usize = 0;
        while i < entries.len()
            invariant
                0 <= i <= entries@.len(),
                s == entries_view(entries@),
                r@.len() == i,
                forall|j: int| 0 <= j < i ==> r@[j]@ == with_identity(s[j].polar, s[j].id, from_archived),
            decreases entries@.len() - i,
        {
            let mut p = entries[i].polar.clone();
            p.id = Some(entries[i].id.clone());
            p.archived = from_archived;
            proof {
                assert(p@ =~~= with_identity(s[i as int].polar, s[i as int].id, from_archived));
            }
            r.push(p);
            i += 1;
        }
        proof {
            assert(r.deep_view() =~~= listed(s, from_archived));
        }
        r
    }

    /// Look a record up by secondary id: the first active record carrying it,
    /// in entry order; only when no active record does, the first archived
    /// one. The secondary id is not unique, so this is a first-match search.
    pub fn find_by_polar_id(&self, polar_id: u8) -> (r: Option<Polar>)
        ensures
            match r {
                Some(p) => match first_with_pid(self@.active, polar_id) {
                    Some(e) => p@ == with_identity(e.polar, e.id, false),
                    None => match first_with_pid(self@.archived, polar_id) {
                        Some(e) => p@ == with_identity(e.polar, e.id, true),
                        None => false,
                    },
                },
                None => first_with_pid(self@.active, polar_id) is None && first_with_pid(
                    self@.archived,
                    polar_id,
                ) is None,
            },
    {
        let (entry_idx, from_archived) = match find_pid(&self.active, polar_id) {
            Some(i) => (i, false),
            None => match find_pid(&self.archived, polar_id) {
                Some(i) => (i, true),
                None => {
                    return None;
                },
            },
        };
        let entry = if from_archived {
            &self.archived[entry_idx]
        } else {
            &self.active[entry_idx]
        };
        let mut p = entry.polar.clone();
        p.id = Some(entry.id.clone());
        p.archived = from_archived;
        proof {
            assert(p@ =~~= with_identity(entry@.polar, entry@.id, from_archived));
        }
        Some(p)
    }

    /// Look a record up by primary key: the active directory first, then the
    /// archived one. The returned record carries the key it was looked up
    /// under and the location it was found in.
    pub fn get(&self, polar_id: String) -> (r: Option<Polar>)
        requires
            self.wf(),
        ensures
            match r {
                Some(p) => {
                    &&& has_id(self@.active, polar_id@) || has_id(self@.archived, polar_id@)
                    &&& has_id(self@.active, polar_id@) ==> p@ == with_identity(
                        record_of(self@.active, polar_id@),
                        polar_id@,
                        false,
                    )
                    &&& !has_id(self@.active, polar_id@) ==> p@ == with_identity(
                        record_of(self@.archived, polar_id@),
                        polar_id@,
                        true,
                    )
                },
                None => !has_id(self@.active, polar_id@) && !has_id(self@.archived, polar_id@),
            },
    {
        let (entry_idx, archived) = match find_entry(&self.active, &polar_id) {
            Some(i) => (i, false),
            None => match find_entry(&self.archived, &polar_id) {
                Some(i) => (i, true),
                None => {
                    return None;
                },
            },
        };
        let entry = if archived {
            &self.archived[entry_idx]
        } else {
            &self.active[entry_idx]
        };
        let mut p = entry.polar.clone();
        p.id = Some(polar_id);
        p.archived = archived;
        proof {
            if archived {
                lemma_idx_unique(self@.archived, entry_idx as int);
            } else {
                lemma_idx_unique(self@.active, entry_idx as int);
            }
            assert(p@ =~~= with_identity(entry.polar@, p.id.deep_view()->Some_0, archived));
        }
        Some(p)
    }

    /// Create a record in the active directory under its own id. The record
    /// must carry an id, and no active record may already hold it; the
    /// archived directory is not consulted. On success the file layer writes
    /// the record to a new file in the active directory.
    pub fn create(&mut self, polar: &Polar) -> (r: Result<(), PolarError>)
        requires
            old(self).wf(),
        ensures
            final(self).wf(),
            final(self)@.polars_dir == old(self)@.polars_dir,
            final(self)@.archived_dir == old(self)@.archived_dir,
            match r {
                Ok(_) => match polar@.id {
                    Some(idv) => {
                        &&& !has_id(old(self)@.active, idv)
                        &&& final(self)@.active == old(self)@.active.push(
                            EntryV { id: idv, polar: polar@ },
                        )
                        &&& final(self)@.archived == old(self)@.archived
                    },
                    None => false,
                },
                Err(e) => final(self)@ == old(self)@ && match e {
                    PolarError::IdIsMandatory() => polar@.id is None,
                    PolarError::AlreadyExists(eid) => polar@.id == Some(eid@) && has_id(
                        old(self)@.active,
                        eid@,
                    ),
                    PolarError::NotFound(_) => false,
                },
            },
    {
        let id = match &polar.id {
            Some(id) => id.clone(),
            None => {
                return Err(PolarError::IdIsMandatory());
            },
        };
        match find_entry(&self.active, &id) {
            Some(_) => Err(PolarError::AlreadyExists(id)),
            None => {
                let entry = Entry { id, polar: polar.clone() };
                proof {
                    lemma_push_entry(self@.active, entry@);
                }
                self.active.push(entry);
                proof {
                    assert(self@.active =~= old(self)@.active.push(
                        EntryV { id: polar@.id->Some_0, polar: polar@ },
                    ));
                }
                Ok(())
            },
        }
    }

    /// Create a record as the creation endpoint does: a record without an id
    /// first gets one derived from its label's last path segment; a record
    /// with neither an id nor a derivable one is refused as lacking a
    /// mandatory id.
    pub fn create_with_derived_id(&mut self, polar: Polar) -> (r: Result<(), PolarError>)
        requires
            old(self).wf(),
        ensures
            final(self).wf(),
            final(self)@.polars_dir == old(self)@.polars_dir,
            final(self)@.archived_dir == old(self)@.archived_dir,
            ({
                let stored = match polar@.id {
                    Some(idv) => Some((idv, polar@)),
                    None => match crate::naming::derived_id(polar@.label) {
                        Some(idv) => Some((idv, PolarV { id: Some(idv), ..polar@ })),
                        None => None,
                    },
                };
                match stored {
                    None => r matches Err(PolarError::IdIsMandatory()) && final(self)@ == old(
                        self,
                    )@,
                    Some((idv, pv)) => match r {
                        Ok(_) => {
                            &&& !has_id(old(self)@.active, idv)
                            &&& final(self)@.active == old(self)@.active.push(
                                EntryV { id: idv, polar: pv },
                            )
                            &&& final(self)@.archived == old(self)@.archived
                        },
                        Err(e) => final(self)@ == old(self)@ && match e {
                            PolarError::AlreadyExists(eid) => eid@ == idv && has_id(
                                old(self)@.active,
                                idv,
                            ),
                            _ => false,
                        },
                    },
                }
            }),
    {
        let mut polar = polar;
        if polar.id.is_none() {
            match crate::naming::derive_id(polar.label.as_str()) {
                Some(id) => {
                    polar.id = Some(id);
                },
                None => {
                    return Err(PolarError::IdIsMandatory());
                },
            }
        }
        self.create(&polar)
    }

    /// Overwrite the active record keyed `polar_id` with `polar`. When the
    /// incoming record carries a different id, the entry moves to that key
    /// instead — over whatever entry already held it, last write wins. The
    /// returned effect tells the file layer what to rewrite, remove or write.
    pub fn update(&mut self, polar_id: String, polar: &Polar) -> (r: Result<
        UpdateEffect,
        PolarError,
    >)
        requires
            old(self).wf(),
        ensures
            final(self).wf(),
            final(self)@.polars_dir == old(self)@.polars_dir,
            final(self)@.archived_dir == old(self)@.archived_dir,
            final(self)@.archived == old(self)@.archived,
            match r {
                Ok(UpdateEffect::InPlace(wid)) => {
                    &&& wid@ == polar_id@
                    &&& (polar@.id is None || polar@.id == Some(polar_id@))
                    &&& has_id(old(self)@.active, polar_id@)
                    &&& final(self)@.active == old(self)@.active.update(
                        idx_of(old(self)@.active, polar_id@),
                        EntryV { id: polar_id@, polar: polar@ },
                    )
                },
                Ok(UpdateEffect::Renamed(from, to)) => {
                    &&& from@ == polar_id@
                    &&& polar@.id == Some(to@)
                    &&& to@ != polar_id@
                    &&& has_id(old(self)@.active, polar_id@)
                    &&& final(self)@.active == upsert(
                        old(self)@.active.remove(idx_of(old(self)@.active, polar_id@)),
                        EntryV { id: to@, polar: polar@ },
                    )
                },
                Err(e) => final(self)@ == old(self)@ && match e {
                    PolarError::NotFound(nid) => nid@ == polar_id@ && !has_id(
                        old(self)@.active,
                        polar_id@,
                    ),
                    _ => false,
                },
            },
    {
        let i = match find_entry(&self.active, &polar_id) {
            Some(i) => i,
            None => {
                return Err(PolarError::NotFound(polar_id));
            },
        };
        proof {
            lemma_idx_unique(self@.active, i as int);
        }
        let new_id = match &polar.id {
            Some(nid) => if *nid == polar_id {
                None
            } else {
                Some(nid.clone())
            },
            None => None,
        };
        match new_id {
            Some(nid) => {
                let ghost s0 = self@.active;
                self.active.remove(i);
                proof {
                    assert(entries_view(self.active@) =~= s0.remove(i as int));
                    lemma_remove_entry(s0, i as int);
                }
                upsert_entry(&mut self.active, Entry { id: nid.clone(), polar: polar.clone() });
                Ok(UpdateEffect::Renamed(polar_id, nid))
            },
            None => {
                let ghost s0 = self@.active;
                proof {
                    lemma_update_entry(s0, EntryV { id: polar_id@, polar: polar@ });
                }
                self.active.set(i, Entry { id: polar_id.clone(), polar: polar.clone() });
                proof {
                    assert(entries_view(self.active@) =~= s0.update(
                        i as int,
                        EntryV { id: polar_id@, polar: polar@ },
                    ));
                }
                Ok(UpdateEffect::InPlace(polar_id))
            },
        }
    }

    /// Remove the record keyed `polar_id`: from the active directory when it
    /// holds the key, else from the archived one. The returned location tells
    /// the file layer which directory's file to remove.
    pub fn delete(&mut self, polar_id: String) -> (r: Result<Location, PolarError>)
        requires
            old(self).wf(),
        ensures
            final(self).wf(),
            final(self)@.polars_dir == old(self)@.polars_dir,
            final(self)@.archived_dir == old(self)@.archived_dir,
            match r {
                Ok(Location::Active) => {
                    &&& has_id(old(self)@.active, polar_id@)
                    &&& final(self)@.active == old(self)@.active.remove(
                        idx_of(old(self)@.active, polar_id@),
                    )
                    &&& final(self)@.archived == old(self)@.archived
                },
                Ok(Location::Archived) => {
                    &&& !has_id(old(self)@.active, polar_id@)
                    &&& has_id(old(self)@.archived, polar_id@)
                    &&& final(self)@.archived == old(self)@.archived.remove(
                        idx_of(old(self)@.archived, polar_id@),
                    )
                    &&& final(self)@.active == old(self)@.active
                },
                Err(e) => final(self)@ == old(self)@ && match e {
                    PolarError::NotFound(nid) => {
                        &&& nid@ == polar_id@
                        &&& !has_id(old(self)@.active, polar_id@)
                        &&& !has_id(old(self)@.archived, polar_id@)
                    },
                    _ => false,
                },
            },
    {
        if let Some(i) = find_entry(&self.active, &polar_id) {
            proof {
                lemma_idx_unique(self@.active, i as int);
                lemma_remove_entry(self@.active, i as int);
            }
            let ghost s0 = self@.active;
            self.active.remove(i);
            proof {
                assert(entries_view(self.active@) =~= s0.remove(i as int));
            }
            Ok(Location::Active)
        } else if let Some(i) = find_entry(&self.archived, &polar_id) {
            proof {
                lemma_idx_unique(self@.archived, i as int);
                lemma_remove_entry(self@.archived, i as int);
            }
            let ghost s0 = self@.archived;
            self.archived.remove(i);
            proof {
                assert(entries_view(self.archived@) =~= s0.remove(i as int));
            }
            Ok(Location::Archived)
        } else {
            Err(PolarError::NotFound(polar_id))
        }
    }

    /// Move the active record keyed `polar_id` into the archived directory,
    /// content unchanged. The file layer mirrors it as a file rename; a
    /// rename replaces an archived file already holding that name.
    pub fn archive(&mut self, polar_id: String) -> (r: Result<(), PolarError>)
        requires
            old(self).wf(),
        ensures
            final(self).wf(),
            final(self)@.polars_dir == old(self)@.polars_dir,
            final(self)@.archived_dir == old(self)@.archived_dir,
            match r {
                Ok(_) => {
                    &&& has_id(old(self)@.active, polar_id@)
                    &&& final(self)@.active == old(self)@.active.remove(
                        idx_of(old(self)@.active, polar_id@),
                    )
                    &&& final(self)@.archived == upsert(
                        old(self)@.archived,
                        EntryV { id: polar_id@, polar: record_of(old(self)@.active, polar_id@) },
                    )
                },
                Err(e) => final(self)@ == old(self)@ && match e {
                    PolarError::NotFound(nid) => nid@ == polar_id@ && !has_id(
                        old(self)@.active,
                        polar_id@,
                    ),
                    _ => false,
                },
            },
    {
        let i = match find_entry(&self.active, &polar_id) {
            Some(i) => i,
            None => {
                return Err(PolarError::NotFound(polar_id));
            },
        };
        proof {
            lemma_idx_unique(self@.active, i as int);
        }
        let ghost s0 = self@.active;
        let entry = self.active.remove(i);
        proof {
            assert(entries_view(self.active@) =~= s0.remove(i as int));
            lemma_remove_entry(s0, i as int);
            assert(entry@ == EntryV { id: polar_id@, polar: record_of(s0, polar_id@) });
        }
        upsert_entry(&mut self.archived, entry);
        Ok(())
    }

    /// Move the archived record keyed `polar_id` back into the active
    /// directory. Unlike a create, this refuses to shadow an existing active
    /// record; the archived copy is left untouched in that case.
    pub fn restore(&mut self, polar_id: String) -> (r: Result<(), PolarError>)
        requires
            old(self).wf(),
        ensures
            final(self).wf(),
            final(self)@.polars_dir == old(self)@.polars_dir,
            final(self)@.archived_dir == old(self)@.archived_dir,
            match r {
                Ok(_) => {
                    &&& has_id(old(self)@.archived, polar_id@)
                    &&& !has_id(old(self)@.active, polar_id@)
                    &&& final(self)@.archived == old(self)@.archived.remove(
                        idx_of(old(self)@.archived, polar_id@),
                    )
                    &&& final(self)@.active == old(self)@.active.push(
                        EntryV { id: polar_id@, polar: record_of(old(self)@.archived, polar_id@) },
                    )
                },
                Err(e) => final(self)@ == old(self)@ && match e {
                    PolarError::NotFound(nid) => nid@ == polar_id@ && !has_id(
                        old(self)@.archived,
                        polar_id@,
                    ),
                    PolarError::AlreadyExists(eid) => {
                        &&& eid@ == polar_id@
                        &&& has_id(old(self)@.archived, polar_id@)
                        &&& has_id(old(self)@.active, polar_id@)
                    },
                    _ => false,
                },
            },
    {
        let i = match find_entry(&self.archived, &polar_id) {
            Some(i) => i,
            None => {
                return Err(PolarError::NotFound(polar_id));
            },
        };
        if let Some(_) = find_entry(&self.active, &polar_id) {
            return Err(PolarError::AlreadyExists(polar_id));
        }
        proof {
            lemma_idx_unique(self@.archived, i as int);
        }
        let ghost s0 = self@.archived;
        let entry = self.archived.remove(i);
        proof {
            assert(entries_view(self.archived@) =~= s0.remove(i as int));
            lemma_remove_entry(s0, i as int);
            assert(entry@ == EntryV { id: polar_id@, polar: record_of(s0, polar_id@) });
            lemma_push_entry(self@.active, entry@);
        }
        self.active.push(entry);
        proof {
            assert(entries_view(self.active@) =~= old(self)@.active.push(
                EntryV { id: polar_id@, polar: record_of(s0, polar_id@) },
            ));
        }
        Ok(())
    }
}

} // verus!
