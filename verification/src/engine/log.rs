//! What a log stands for.
//!
//! A log is a string of records written back to back. Read from its start,
//! it gives the contents of the store: the value that each key was last
//! set to, unless the key was removed since. An index into the log stands
//! for the same contents where each of its entries points at the record
//! that last set its key.

use crate::frame::{
    frame_at, is_space, lemma_frame_cut, lemma_frame_extend, lemma_frame_placed,
    lemma_skip_spaces, skip_spaces, Frame,
};
use crate::index::{
    as_map, distinct_keys, find_from, inserted, lemma_find_from, lemma_place_of_entry, place_of,
    removed, total_len, CommandPos, Entries,
};
use crate::record::{record_in, record_of, record_text, Record};
use vstd::prelude::*;

verus! {

/// What the store holds: the values of the keys that are present.
pub type Contents = Map<Seq<char>, Seq<char>>;

/// The contents after one more record.
pub open spec fn apply(contents: Contents, record: Record) -> Contents {
    match record {
        Record::Put { key, value } => contents.insert(key, value),
        Record::Remove { key } => contents.remove(key),
    }
}

/// The value that the contents give a key.
pub open spec fn lookup(contents: Contents, key: Seq<char>) -> Option<Seq<char>> {
    if contents.contains_key(key) {
        Some(contents[key])
    } else {
        None
    }
}

/// The contents after the key has been set to each of the values in turn.
pub open spec fn set_each(contents: Contents, key: Seq<char>, values: Seq<Seq<char>>) -> Contents
    decreases values.len(),
{
    if values.len() == 0 {
        contents
    } else {
        set_each(contents, key, values.drop_last()).insert(key, values.last())
    }
}

/// However often a key is set, it has the value that was set last.
pub proof fn lemma_last_set_wins(contents: Contents, key: Seq<char>, values: Seq<Seq<char>>)
    requires
        values.len() > 0,
    ensures
        lookup(set_each(contents, key, values), key) == Some(values.last()),
{
}

/// Setting a key leaves the other keys as they are.
pub proof fn lemma_set_leaves_others(
    contents: Contents,
    key: Seq<char>,
    value: Seq<char>,
    other: Seq<char>,
)
    requires
        other != key,
    ensures
        lookup(contents.insert(key, value), other) == lookup(contents, other),
{
}

/// A key that has been removed has no value, so that it cannot be removed
/// again; the other keys are as they were.
pub proof fn lemma_removed_is_gone(contents: Contents, key: Seq<char>, other: Seq<char>)
    ensures
        lookup(contents.remove(key), key) is None,
        !contents.remove(key).contains_key(key),
        other != key ==> lookup(contents.remove(key), other) == lookup(contents, other),
{
}

/// The contents that the records of `log` from position `from` on make of
/// `contents`; `None` where the log holds something that is not a record.
pub open spec fn replay_from(log: Seq<u8>, from: int, contents: Contents) -> Option<Contents>
    decreases log.len() - from,
{
    match frame_at(log, from) {
        Frame::End => Some(contents),
        Frame::Cut => None,
        Frame::Broken => None,
        Frame::Object { start, end } => {
            if from <= start < end <= log.len() {
                match record_of(log.subrange(start as int, end as int)) {
                    Some(record) => replay_from(log, end as int, apply(contents, record)),
                    None => None,
                }
            } else {
                None
            }
        },
    }
}

/// Where the last record of `log` from position `from` on ends; `from`
/// where there is none.
pub open spec fn scan_end(log: Seq<u8>, from: int) -> int
    decreases log.len() - from,
{
    match frame_at(log, from) {
        Frame::Object { start, end } => {
            if from <= start < end <= log.len() {
                scan_end(log, end as int)
            } else {
                from
            }
        },
        _ => from,
    }
}

/// The length of the record that the entries point at for the key; 0 if
/// they have none.
pub open spec fn len_in(entries: Entries, key: Seq<char>) -> nat {
    match place_of(entries, key) {
        Some(at) => at.len as nat,
        None => 0,
    }
}

/// The index and the count of stale bytes that the records of `log` from
/// position `from` on make of `entries` and `stale`. A record lies from the
/// end of the one before it, white space included, to its own end. A record
/// that sets a key becomes the key's entry, and the record that the key had
/// goes stale; a record that removes a key takes the key's entry out, and
/// both it and the record that the key had go stale. `None` where the log
/// holds something that is not a record.
pub open spec fn rebuild_from(log: Seq<u8>, from: int, entries: Entries, stale: nat) -> Option<
    (Entries, nat),
>
    decreases log.len() - from,
{
    match frame_at(log, from) {
        Frame::End => Some((entries, stale)),
        Frame::Cut => None,
        Frame::Broken => None,
        Frame::Object { start, end } => {
            if from <= start < end <= log.len() {
                let at = CommandPos { pos: from as u64, len: (end - from) as u64 };
                match record_of(log.subrange(start as int, end as int)) {
                    Some(Record::Put { key, .. }) => rebuild_from(
                        log,
                        end as int,
                        inserted(entries, key, at),
                        stale + len_in(entries, key),
                    ),
                    Some(Record::Remove { key }) => rebuild_from(
                        log,
                        end as int,
                        removed(entries, key),
                        stale + len_in(entries, key) + at.len as nat,
                    ),
                    None => None,
                }
            } else {
                None
            }
        },
    }
}

/// The index and the count of stale bytes that a log stands for.
pub open spec fn rebuild(log: Seq<u8>) -> Option<(Entries, nat)> {
    rebuild_from(log, 0, Seq::empty(), 0)
}

/// The contents that a log stands for.
pub open spec fn replay(log: Seq<u8>) -> Option<Contents> {
    replay_from(log, 0, Map::empty())
}

/// The bytes of the log at a place.
pub open spec fn bytes_at(log: Seq<u8>, at: CommandPos) -> Seq<u8> {
    log.subrange(at.pos as int, at.pos + at.len)
}

/// The place lies within the log and holds a record that sets the key.
pub open spec fn sets_key(log: Seq<u8>, key: Seq<char>, at: CommandPos) -> bool {
    &&& at.pos + at.len <= log.len()
    &&& record_in(bytes_at(log, at)) matches Some(Record::Put { key: k, .. })
    &&& k == key
}

/// The value that the record at a place sets.
pub open spec fn value_at(log: Seq<u8>, at: CommandPos) -> Seq<char> {
    match record_in(bytes_at(log, at)) {
        Some(Record::Put { value, .. }) => value,
        _ => Seq::empty(),
    }
}

/// Every place of the index holds a record that sets its key.
pub open spec fn index_fits(places: Map<Seq<char>, CommandPos>, log: Seq<u8>) -> bool {
    forall|key: Seq<char>| places.contains_key(key) ==> #[trigger] sets_key(log, key, places[key])
}

/// The contents that an index and its log stand for.
pub open spec fn contents_of(places: Map<Seq<char>, CommandPos>, log: Seq<u8>) -> Contents {
    Map::new(
        |key: Seq<char>| places.contains_key(key),
        |key: Seq<char>| value_at(log, places[key]),
    )
}

/// A record that can be written: it has a text, and the text reads back as
/// the record.
pub open spec fn writable(record: Record) -> bool {
    record_text(record) matches Some(text) && record_in(text) == Some(record)
}

/// Appending a record to a log appends it to what the log stands for.
pub proof fn lemma_replay_append(
    log: Seq<u8>,
    from: int,
    contents: Contents,
    text: Seq<u8>,
    record: Record,
)
    requires
        0 <= from <= log.len(),
        log.len() + text.len() <= usize::MAX,
        replay_from(log, from, contents) is Some,
        record_in(text) == Some(record),
    ensures
        replay_from(log + text, from, contents) == Some(
            apply(replay_from(log, from, contents).unwrap(), record),
        ),
        scan_end(log + text, from) == log.len() + text.len(),
    decreases log.len() - from,
{
    let longer = log + text;
    match frame_at(log, from) {
        Frame::End => {
            lemma_skip_spaces(log, from);
            assert forall|j: int| from <= j < log.len() implies is_space(#[trigger] longer[j]) by {
                assert(longer[j] == log[j]);
            }
            assert(longer.subrange(log.len() as int, longer.len() as int) == text);
            lemma_frame_placed(longer, from, log.len() as int, text);
            let start = log.len() + skip_spaces(text, 0);
            assert(longer.subrange(start, longer.len() as int) == text.subrange(
                skip_spaces(text, 0),
                text.len() as int,
            ));
            assert(record_of(longer.subrange(start, longer.len() as int)) == Some(record));
            assert(frame_at(longer, longer.len() as int) == Frame::End);
            assert(replay_from(longer, longer.len() as int, apply(contents, record)) == Some(
                apply(contents, record),
            ));
            assert(replay_from(longer, from, contents) == replay_from(
                longer,
                longer.len() as int,
                apply(contents, record),
            ));
            assert(scan_end(longer, longer.len() as int) == longer.len());
            assert(scan_end(longer, from) == scan_end(longer, longer.len() as int));
        },
        Frame::Cut => {},
        Frame::Broken => {},
        Frame::Object { start, end } => {
            lemma_frame_cut(log, from);
            lemma_frame_extend(log, from, text);
            assert(longer.subrange(start as int, end as int) == log.subrange(
                start as int,
                end as int,
            ));
            let next = apply(contents, record_of(log.subrange(start as int, end as int)).unwrap());
            lemma_replay_append(log, end as int, next, text, record);
            assert(replay_from(log, from, contents) == replay_from(log, end as int, next));
            assert(replay_from(longer, from, contents) == replay_from(longer, end as int, next));
            assert(scan_end(longer, from) == scan_end(longer, end as int));
        },
    }
}

/// The records of a log end within the log.
pub proof fn lemma_scan_end_bounds(log: Seq<u8>, from: int)
    requires
        0 <= from <= log.len() <= usize::MAX,
    ensures
        from <= scan_end(log, from) <= log.len(),
    decreases log.len() - from,
{
    if frame_at(log, from) is Object {
        lemma_frame_cut(log, from);
        lemma_scan_end_bounds(log, frame_at(log, from)->end as int);
    }
}

/// Bytes appended to a log leave its places as they were.
pub proof fn lemma_index_fits_append(
    places: Map<Seq<char>, CommandPos>,
    log: Seq<u8>,
    more: Seq<u8>,
)
    requires
        index_fits(places, log),
    ensures
        index_fits(places, log + more),
        contents_of(places, log + more) == contents_of(places, log),
{
    assert forall|key: Seq<char>| places.contains_key(key) implies #[trigger] sets_key(
        log + more,
        key,
        places[key],
    ) by {
        assert(sets_key(log, key, places[key]));
        assert(bytes_at(log + more, places[key]) == bytes_at(log, places[key]));
    }
    assert forall|key: Seq<char>| places.contains_key(key) implies #[trigger] value_at(
        log + more,
        places[key],
    ) == value_at(log, places[key]) by {
        assert(sets_key(log, key, places[key]));
        assert(bytes_at(log + more, places[key]) == bytes_at(log, places[key]));
    }
    assert(contents_of(places, log + more) =~= contents_of(places, log));
}

/// A key's new place is the key's new value.
pub proof fn lemma_contents_insert(
    places: Map<Seq<char>, CommandPos>,
    log: Seq<u8>,
    key: Seq<char>,
    at: CommandPos,
)
    requires
        index_fits(places, log),
        sets_key(log, key, at),
    ensures
        index_fits(places.insert(key, at), log),
        contents_of(places.insert(key, at), log) == contents_of(places, log).insert(
            key,
            value_at(log, at),
        ),
{
    assert forall|k: Seq<char>| places.insert(key, at).contains_key(k) implies #[trigger] sets_key(
        log,
        k,
        places.insert(key, at)[k],
    ) by {
        if k != key {
            assert(sets_key(log, k, places[k]));
        }
    }
    assert(contents_of(places.insert(key, at), log) =~= contents_of(places, log).insert(
        key,
        value_at(log, at),
    ));
}

/// A key without a place is a key without a value.
pub proof fn lemma_contents_remove(
    places: Map<Seq<char>, CommandPos>,
    log: Seq<u8>,
    key: Seq<char>,
)
    requires
        index_fits(places, log),
    ensures
        index_fits(places.remove(key), log),
        contents_of(places.remove(key), log) == contents_of(places, log).remove(key),
{
    assert forall|k: Seq<char>| places.remove(key).contains_key(k) implies #[trigger] sets_key(
        log,
        k,
        places.remove(key)[k],
    ) by {
        assert(sets_key(log, k, places[k]));
    }
    assert(contents_of(places.remove(key), log) =~= contents_of(places, log).remove(key));
}

/// An entry has been moved: it has its key and its length, and its new
/// place in the new log holds the bytes that its old place held.
pub open spec fn moved(
    log: Seq<u8>,
    entry: (Seq<char>, CommandPos),
    new_log: Seq<u8>,
    new_entry: (Seq<char>, CommandPos),
) -> bool {
    &&& new_entry.0 == entry.0
    &&& new_entry.1.len == entry.1.len
    &&& entry.1.pos + entry.1.len <= log.len()
    &&& new_entry.1.pos + new_entry.1.len <= new_log.len()
    &&& bytes_at(new_log, new_entry.1) == bytes_at(log, entry.1)
}

/// Entry `j` lies right after the entries before it.
pub open spec fn follows_on(entries: Entries, j: int) -> bool {
    entries[j].1.pos == total_len(entries.subrange(0, j))
}

/// The new log and index are the old ones compacted: the same keys in the
/// same order, each with the bytes of its record, and the log no longer
/// than its records together.
pub open spec fn compacted(
    log: Seq<u8>,
    entries: Entries,
    new_log: Seq<u8>,
    new_entries: Entries,
) -> bool {
    &&& new_entries.len() == entries.len()
    &&& new_log.len() == total_len(new_entries)
    &&& forall|j: int|
        0 <= j < entries.len() ==> #[trigger] moved(log, entries[j], new_log, new_entries[j])
    &&& forall|j: int| 0 <= j < new_entries.len() ==> #[trigger] follows_on(new_entries, j)
}

/// The lengths of the first `n` entries are part of the lengths of all.
pub proof fn lemma_total_len_prefix(entries: Entries, n: int)
    requires
        0 <= n <= entries.len(),
    ensures
        total_len(entries.subrange(0, n)) <= total_len(entries),
    decreases entries.len(),
{
    if n == entries.len() {
        assert(entries.subrange(0, n) == entries);
    } else {
        assert(entries.drop_last().subrange(0, n) == entries.subrange(0, n));
        lemma_total_len_prefix(entries.drop_last(), n);
    }
}

/// Entries that have been moved stand for what they stood for.
pub proof fn lemma_moved_contents(
    log: Seq<u8>,
    entries: Entries,
    new_log: Seq<u8>,
    new_entries: Entries,
)
    requires
        distinct_keys(entries),
        distinct_keys(new_entries),
        compacted(log, entries, new_log, new_entries),
    ensures
        contents_of(as_map(new_entries), new_log) == contents_of(as_map(entries), log),
        total_len(new_entries) == total_len(entries),
{
    assert forall|key: Seq<char>|
        (#[trigger] place_of(new_entries, key) is Some) == (place_of(entries, key) is Some) && (
        place_of(entries, key) is Some ==> value_at(new_log, place_of(new_entries, key).unwrap())
            == value_at(log, place_of(entries, key).unwrap())) by {
        lemma_find_from(entries, key, 0);
        lemma_find_from(new_entries, key, 0);
        if let Some(j) = find_from(entries, key, 0) {
            assert(moved(log, entries[j], new_log, new_entries[j]));
            lemma_place_of_entry(new_entries, j);
        }
        if let Some(j) = find_from(new_entries, key, 0) {
            assert(moved(log, entries[j], new_log, new_entries[j]));
            lemma_place_of_entry(entries, j);
        }
    }
    assert(contents_of(as_map(new_entries), new_log) =~= contents_of(as_map(entries), log));
    lemma_moved_total_len(log, entries, new_log, new_entries, entries.len() as int);
    assert(entries.subrange(0, entries.len() as int) == entries);
    assert(new_entries.subrange(0, entries.len() as int) == new_entries);
}

/// Entries that have been moved are as long as they were.
pub proof fn lemma_moved_total_len(
    log: Seq<u8>,
    entries: Entries,
    new_log: Seq<u8>,
    new_entries: Entries,
    n: int,
)
    requires
        new_entries.len() == entries.len(),
        0 <= n <= entries.len(),
        forall|j: int|
            0 <= j < entries.len() ==> #[trigger] moved(log, entries[j], new_log, new_entries[j]),
    ensures
        total_len(new_entries.subrange(0, n)) == total_len(entries.subrange(0, n)),
    decreases n,
{
    if n > 0 {
        assert(moved(log, entries[n - 1], new_log, new_entries[n - 1]));
        assert(entries.subrange(0, n).drop_last() == entries.subrange(0, n - 1));
        assert(new_entries.subrange(0, n).drop_last() == new_entries.subrange(0, n - 1));
        lemma_moved_total_len(log, entries, new_log, new_entries, n - 1);
    }
}

} // verus!
