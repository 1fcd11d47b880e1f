//! Laws of the elementary changes of the data, entry by entry and count by count.

use vstd::prelude::*;
use crate::database::{DatabaseView, EntryView};

verus! {

/// To store, to remove, to count a modification and to put a command on the list for the replicas
/// each change one thing, and nothing else.
pub proof fn law_elementary_changes(
    db: DatabaseView,
    key: Seq<u8>,
    entry: EntryView,
    command: Seq<Seq<u8>>,
)
    ensures
        db.stored(key, entry) == (DatabaseView {
            entries: db.entries.insert(key, entry),
            versions: db.versions,
            propagated: db.propagated,
        }),
        db.deleted(key) == (DatabaseView {
            entries: db.entries.remove(key),
            versions: db.versions,
            propagated: db.propagated,
        }),
        db.announced(command) == (DatabaseView {
            entries: db.entries,
            versions: db.versions,
            propagated: db.propagated.push(command),
        }),
        db.modified(key).entries == db.entries,
        db.modified(key).propagated == db.propagated,
        forall|other: Seq<u8>| #[trigger]
            db.modified(key).version(other) == db.version(other) + (if other == key {
                1int
            } else {
                0
            }),
        forall|other: Seq<u8>| #[trigger]
            db.modified(key).versions.contains_key(other) <==> other == key
                || db.versions.contains_key(other),
{
}

/// The count of a key is the number that is kept for it, and zero where none is kept. As a number
/// of 64 bits it is the same, or the greatest such number where it is greater.
pub proof fn law_counts_start_from_zero(db: DatabaseView, key: Seq<u8>)
    ensures
        db.versions.contains_key(key) ==> db.version(key) == db.versions[key],
        !db.versions.contains_key(key) ==> db.version(key) == 0,
        db.version(key) <= 0xffff_ffff_ffff_ffff ==> db.stamp(key) == db.version(key),
        db.version(key) > 0xffff_ffff_ffff_ffff ==> db.stamp(key) == 0xffff_ffff_ffff_ffff,
        db.fits() ==> db.version(key) <= 0xffff_ffff_ffff_ffff,
        (forall|other: Seq<u8>| #[trigger] db.version(other) <= 0xffff_ffff_ffff_ffff)
            ==> db.fits(),
        db.clamped().version(key) == db.stamp(key),
        db.clamped().entries == db.entries,
        db.clamped().propagated == db.propagated,
        DatabaseView::empty().version(key) == 0,
        !DatabaseView::empty().entries.contains_key(key),
        DatabaseView::empty().propagated.len() == 0,
{
}

/// A key is removed from the time on that its entry names, which counts as one modification of it.
/// Before that time, or where the entry names none, nothing happens. Other keys are never touched.
pub proof fn law_key_expires_at_its_time(db: DatabaseView, key: Seq<u8>, now: u64)
    ensures
        !db.entries.contains_key(key) ==> db.expired(key, now) == db,
        db.entries.contains_key(key) ==> match db.entries[key].expires_at {
            None => db.expired(key, now) == db,
            Some(time) => if (now as int) < (time as int) {
                db.expired(key, now) == db
            } else {
                &&& db.expired(key, now).entries == db.entries.remove(key)
                &&& db.expired(key, now).versions == db.versions.insert(key, db.version(key) + 1)
                &&& db.expired(key, now).propagated == db.propagated
            },
        },
        db.is_expired(key, now) <==> db.entries.contains_key(key) && (
        db.entries[key].expires_at matches Some(time) && time as int <= now as int),
        db.value(key) == (if db.entries.contains_key(key) {
            Some(db.entries[key].value)
        } else {
            None
        }),
{
}

/// Removing expired keys of a set does to each key of the set what removing it alone does, and
/// nothing to other keys.
pub proof fn law_keys_expire_each_for_itself(
    db: DatabaseView,
    keys: Set<Seq<u8>>,
    now: u64,
    key: Seq<u8>,
)
    ensures
        ({
            let after = db.all_expired(keys, now);
            let alone = if keys.contains(key) {
                db.expired(key, now)
            } else {
                db
            };
            &&& after.entries.contains_key(key) == alone.entries.contains_key(key)
            &&& after.entries.contains_key(key) ==> after.entries[key] == alone.entries[key]
            &&& after.version(key) == alone.version(key)
            &&& after.propagated == db.propagated
        }),
{
}

} // verus!
