//! Lifecycle laws of the store, proved over the ghost directory model that
//! every operation's contract is stated in. Each law is phrased on the state
//! transition that the operation's `ensures` pins down, so it applies to
//! every run of the operations it speaks of.

use vstd::prelude::*;

use crate::polar::{PolarV, with_identity};
use crate::store::{
    EntryV, first_with_pid, has_id, ids_distinct, idx_of, lemma_push_entry, lemma_remove_entry,
    lemma_update_entry, listed, record_of, upsert,
};

verus! {

/// Writing an entry into a directory, wherever it lands: what it does to key
/// lookups.
pub proof fn lemma_upsert(s: Seq<EntryV>, e: EntryV)
    requires
        ids_distinct(s),
    ensures
        ids_distinct(upsert(s, e)),
        has_id(upsert(s, e), e.id),
        record_of(upsert(s, e), e.id) == e.polar,
        forall|id: Seq<char>| id != e.id ==> has_id(upsert(s, e), id) == has_id(s, id),
        forall|id: Seq<char>|
            id != e.id && has_id(s, id) ==> record_of(upsert(s, e), id) == record_of(s, id),
{
    if has_id(s, e.id) {
        lemma_update_entry(s, e);
    } else {
        lemma_push_entry(s, e);
    }
}

/// Creating a record and reading it back under its key yields the record
/// itself, marked as sitting in the active directory: the state `create`
/// leaves behind makes `get` return the input with `archived` false.
pub proof fn lemma_create_then_get(active: Seq<EntryV>, p: PolarV, idv: Seq<char>)
    requires
        ids_distinct(active),
        !has_id(active, idv),
        p.id == Some(idv),
    ensures
        ({
            let created = active.push(EntryV { id: idv, polar: p });
            &&& has_id(created, idv)
            &&& with_identity(record_of(created, idv), idv, false) == PolarV {
                archived: false,
                ..p
            }
        }),
{
    lemma_push_entry(active, EntryV { id: idv, polar: p });
    assert(with_identity(p, idv, false) =~~= PolarV { archived: false, ..p });
}

/// Archiving a record and restoring it is a round trip: the restore is owed
/// success, and the record then read back under its key is the one that was
/// read back before archiving — same content, `archived` false again. Other
/// keys' lookups are untouched throughout.
pub proof fn lemma_archive_restore_round_trip(
    active: Seq<EntryV>,
    archived: Seq<EntryV>,
    idv: Seq<char>,
)
    requires
        ids_distinct(active),
        ids_distinct(archived),
        has_id(active, idv),
    ensures
        ({
            // the state archive(idv) leaves behind
            let moved = EntryV { id: idv, polar: record_of(active, idv) };
            let a1 = active.remove(idx_of(active, idv));
            let b1 = upsert(archived, moved);
            // restore(idv) is owed success there
            &&& has_id(b1, idv)
            &&& !has_id(a1, idv)
            &&& ({
                // the state restore(idv) leaves behind
                let a2 = a1.push(EntryV { id: idv, polar: record_of(b1, idv) });
                let b2 = b1.remove(idx_of(b1, idv));
                &&& has_id(a2, idv)
                &&& record_of(a2, idv) == record_of(active, idv)
                &&& with_identity(record_of(a2, idv), idv, false) == with_identity(
                    record_of(active, idv),
                    idv,
                    false,
                )
                &&& forall|id: Seq<char>|
                    id != idv ==> has_id(a2, id) == has_id(active, id) && has_id(b2, id) == has_id(
                        archived,
                        id,
                    )
            })
        }),
{
    let moved = EntryV { id: idv, polar: record_of(active, idv) };
    let k = idx_of(active, idv);
    assert(0 <= k < active.len() && active[k].id == idv);
    assert(active[k] == moved);
    lemma_remove_entry(active, k);
    let a1 = active.remove(k);
    lemma_upsert(archived, moved);
    let b1 = upsert(archived, moved);
    assert(record_of(b1, idv) == moved.polar);
    lemma_push_entry(a1, EntryV { id: idv, polar: record_of(b1, idv) });
    let j = idx_of(b1, idv);
    assert(0 <= j < b1.len() && b1[j].id == idv);
    lemma_remove_entry(b1, j);
}

/// After a delete of a key that sits in only one of the two directories,
/// a lookup of that key misses in both: `get` returns not-found whether the
/// record was active or archived.
pub proof fn lemma_delete_then_get(active: Seq<EntryV>, archived: Seq<EntryV>, idv: Seq<char>)
    requires
        ids_distinct(active),
        ids_distinct(archived),
        !(has_id(active, idv) && has_id(archived, idv)),
    ensures
        has_id(active, idv) ==> !has_id(active.remove(idx_of(active, idv)), idv) && !has_id(
            archived,
            idv,
        ),
        !has_id(active, idv) && has_id(archived, idv) ==> !has_id(
            archived.remove(idx_of(archived, idv)),
            idv,
        ),
{
    if has_id(active, idv) {
        lemma_remove_entry(active, idx_of(active, idv));
    } else if has_id(archived, idv) {
        lemma_remove_entry(archived, idx_of(archived, idv));
    }
}

/// A directory scan reports every record as sitting where it was scanned
/// from, and draws on nothing but that directory: a listing of the active
/// directory never carries an archived record, and the other way round.
pub proof fn lemma_listed_location(s: Seq<EntryV>, archived: bool)
    ensures
        listed(s, archived).len() == s.len(),
        forall|j: int|
            0 <= j < s.len() ==> #[trigger] listed(s, archived)[j] == with_identity(
                s[j].polar,
                s[j].id,
                archived,
            ) && listed(s, archived)[j].archived == archived,
{
}

/// A scan for a secondary id finds an entry exactly when the directory holds
/// one, and what it finds is such an entry. With the store's search order,
/// an active match is therefore always preferred to an archived one.
pub proof fn lemma_first_with_pid_found(s: Seq<EntryV>, pid: u8)
    ensures
        (first_with_pid(s, pid) is Some) == (exists|i: int|
            0 <= i < s.len() && s[i].polar.polar_id == pid),
        match first_with_pid(s, pid) {
            Some(e) => e.polar.polar_id == pid && exists|i: int| 0 <= i < s.len() && s[i] == e,
            None => true,
        },
    decreases s.len(),
{
    if s.len() > 0 {
        if s[0].polar.polar_id == pid {
        } else {
            lemma_first_with_pid_found(s.drop_first(), pid);
            if exists|i: int| 0 <= i < s.len() && s[i].polar.polar_id == pid {
                let i = choose|i: int| 0 <= i < s.len() && s[i].polar.polar_id == pid;
                assert(s.drop_first()[i - 1] == s[i]);
            }
            match first_with_pid(s.drop_first(), pid) {
                Some(e) => {
                    let i = choose|i: int|
                        0 <= i < s.drop_first().len() && s.drop_first()[i] == e;
                    assert(s[i + 1] == e);
                },
                None => {
                    assert forall|i: int|
                        0 <= i < s.len() implies s[i].polar.polar_id != pid by {
                        if i > 0 {
                            assert(s.drop_first()[i - 1] == s[i]);
                        }
                    }
                },
            }
        }
    }
}

} // verus!
