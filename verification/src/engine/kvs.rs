//! The log-structured engine.
//!
//! The engine holds the bytes of its log and an index into them. Every
//! write appends a record; bytes of the log that no entry of the index
//! points at are stale, and when more than `COMPACTION_THRESHOLD` of them
//! have gathered, the log is rewritten to hold the live records alone.
//! Keeping a copy of the log on disk is left to whoever holds the engine.

use crate::bytes::{append_bytes, sub_slice};
use crate::engine::log::{
    bytes_at, compacted, contents_of, follows_on, index_fits, lemma_contents_insert,
    lemma_contents_remove, lemma_index_fits_append, lemma_moved_contents, lemma_replay_append,
    lemma_scan_end_bounds, lemma_total_len_prefix, len_in, lookup, moved, rebuild, rebuild_from,
    replay, replay_from, scan_end, sets_key, writable, Contents,
};
use crate::error::KvsError;
use crate::frame::{frame_at, lemma_frame_cut, next_frame, Frame};
use crate::index::{
    as_map, distinct_keys, find_from, inserted, lemma_find_from, lemma_place_of_entry,
    lemma_total_len_bounds, place_of, removed, total_len, CommandPos, Entries, Index,
};
use crate::record::{
    decode_command, encode_command, read_record, record_in, record_text, Command, Record,
};
use vstd::prelude::*;
use vstd::string::*;

verus! {

/// The number of stale bytes above which the log is compacted: 1 MiB.
pub const COMPACTION_THRESHOLD: u64 = 1048576;

/// The value that a record sets, read from the record's bytes. A record
/// that removes a key has none.
pub fn value_of_record(text: &[u8]) -> (r: Result<String, KvsError>)
    ensures
        match r {
            Ok(value) => record_in(text@) matches Some(Record::Put { value: v, .. }) && v == value@,
            Err(e) => match record_in(text@) {
                Some(Record::Put { .. }) => false,
                Some(Record::Remove { .. }) => e is UnexpectedCommandType,
                None => e is Serde,
            },
        },
{
    match read_record(text) {
        Ok(Command::Put { key, value }) => Ok(value),
        Ok(Command::Remove { key }) => Err(KvsError::UnexpectedCommandType),
        Err(e) => Err(e),
    }
}

/// Whether two commands say the same.
pub fn same_command(a: &Command, b: &Command) -> (same: bool)
    ensures
        same == (a@ == b@),
{
    match (a, b) {
        (Command::Put { key: k1, value: v1 }, Command::Put { key: k2, value: v2 }) => {
            let same_key = *k1 == *k2;
            let same_value = *v1 == *v2;
            same_key && same_value
        },
        (Command::Remove { key: k1 }, Command::Remove { key: k2 }) => *k1 == *k2,
        _ => false,
    }
}

/// Whether a text that was written for a command reads back as the command.
pub fn reads_back(text: &[u8], command: &Command) -> (ok: bool)
    ensures
        ok == (record_in(text@) == Some(command@)),
{
    match read_record(text) {
        Ok(back) => same_command(&back, command),
        Err(_) => false,
    }
}

/// The text of a command, once it has been read back: nothing goes into the
/// log that would not be read from it as it was meant.
pub fn checked_text(command: &Command) -> (r: Result<Vec<u8>, KvsError>)
    ensures
        match r {
            Ok(text) => writable(command@) && record_text(command@) == Some(text@),
            Err(e) => !writable(command@) && e is Serde,
        },
{
    match encode_command(command) {
        Ok(text) => {
            if reads_back(text.as_slice(), command) {
                Ok(text)
            } else {
                Err(KvsError::Serde(String::from_str("a record does not read back as written")))
            }
        },
        Err(e) => Err(e),
    }
}

/// What a read of a key finds in the log.
pub enum Reading {
    /// The index has no entry for the key.
    Nothing,
    /// The entry points at a record that sets a key to this value.
    Value(Seq<char>),
    /// The entry points at a record that removes a key.
    NotASet,
    /// The entry points beyond the log, or at bytes that are no whole
    /// record.
    NoRecord,
}

/// The engine's state: the log, the index into it, and the count of stale
/// bytes.
pub struct KvStoreInner {
    log: Vec<u8>,
    index: Index,
    stale_bytes: u64,
    rewritten: bool,
}

impl View for KvStoreInner {
    type V = Contents;

    open spec fn view(&self) -> Contents {
        contents_of(self.places(), self.log_bytes())
    }
}

impl KvStoreInner {
    /// The bytes of the log.
    pub closed spec fn log_bytes(&self) -> Seq<u8> {
        self.log@
    }

    /// The entries of the index.
    pub closed spec fn entries(&self) -> Entries {
        self.index.entries()
    }

    /// The count of stale bytes.
    pub closed spec fn stale(&self) -> nat {
        self.stale_bytes as nat
    }

    /// Whether the log has been rewritten since this was last acknowledged.
    pub closed spec fn rewritten(&self) -> bool {
        self.rewritten
    }

    /// The index finds each key's entry.
    pub closed spec fn index_sound(&self) -> bool {
        self.index.wf()
    }

    /// The index as a map from keys to places.
    pub open spec fn places(&self) -> Map<Seq<char>, CommandPos> {
        as_map(self.entries())
    }

    /// The lengths of the live records, added up.
    pub open spec fn live(&self) -> nat {
        total_len(self.entries())
    }

    /// The state is sound: every entry of the index points at a record that
    /// sets its key, the live and the stale bytes lie within the records of
    /// the log, and the log read from its start stands for what the store
    /// holds.
    pub open spec fn wf(&self) -> bool {
        &&& distinct_keys(self.entries())
        &&& self.index_sound()
        &&& index_fits(self.places(), self.log_bytes())
        &&& self.live() + self.stale() <= scan_end(self.log_bytes(), 0)
        &&& self.live() + self.stale() <= self.log_bytes().len() <= usize::MAX
        &&& replay(self.log_bytes()) == Some(self@)
    }

    /// Every byte of the log is counted as live or as stale.
    pub open spec fn tight(&self) -> bool {
        self.live() + self.stale() == self.log_bytes().len()
    }

    /// The length of the record that the key's entry points at; 0 if the key
    /// has none.
    pub open spec fn len_of(&self, key: Seq<char>) -> nat {
        len_in(self.entries(), key)
    }

    /// A store that is opened again on its log holds what it held: the log
    /// read from its start stands for the store's contents, so that two
    /// stores on the same log hold the same.
    pub proof fn lemma_reopen(&self, again: &KvStoreInner)
        requires
            self.wf(),
            again.wf(),
            again.log_bytes() == self.log_bytes(),
        ensures
            replay(self.log_bytes()) == Some(self@),
            again@ == self@,
    {
    }

    /// A store in which every byte is accounted for is so again when it is
    /// opened again: its log ends with its last record, and a store whose
    /// live and stale bytes are those of the log's records, as `open` makes
    /// it, has every byte accounted for.
    pub proof fn lemma_reopen_tight(&self, again: &KvStoreInner)
        requires
            self.wf(),
            self.tight(),
            again.log_bytes() == self.log_bytes(),
            again.live() + again.stale() == scan_end(again.log_bytes(), 0),
        ensures
            scan_end(self.log_bytes(), 0) == self.log_bytes().len(),
            again.tight(),
    {
        lemma_scan_end_bounds(self.log_bytes(), 0);
    }

    /// Where every byte of the log is accounted for and no more than
    /// `COMPACTION_THRESHOLD` of them are stale, as after every `set` and
    /// `remove` on such a store, the log is no longer than twice the live
    /// records and the threshold together.
    pub proof fn lemma_log_bound(&self)
        requires
            self.wf(),
            self.tight(),
            self.stale() <= COMPACTION_THRESHOLD,
        ensures
            self.log_bytes().len() <= 2 * self.live() + COMPACTION_THRESHOLD,
    {
    }

    /// The log.
    pub fn log(&self) -> (log: &Vec<u8>)
        ensures
            log@ == self.log_bytes(),
    {
        &self.log
    }

    /// The count of stale bytes.
    pub fn stale_bytes(&self) -> (n: u64)
        ensures
            n == self.stale(),
    {
        self.stale_bytes
    }

    /// The number of keys that are present.
    pub fn len(&self) -> (n: usize)
        ensures
            n == self.entries().len(),
    {
        self.index.len()
    }

    /// Whether the log has been rewritten since this was last acknowledged.
    pub fn was_rewritten(&self) -> (b: bool)
        ensures
            b == self.rewritten(),
    {
        self.rewritten
    }

    /// Notes that whoever keeps a copy of the log has taken over the
    /// rewritten log.
    pub fn acknowledge_rewrite(&mut self)
        ensures
            !final(self).rewritten(),
            final(self).log_bytes() == old(self).log_bytes(),
            final(self).entries() == old(self).entries(),
            final(self).stale() == old(self).stale(),
            old(self).wf() ==> final(self).wf(),
    {
        self.rewritten = false;
    }

    /// Scans a log from its start and builds the index of its records,
    /// counting the bytes that have gone stale on the way: those of each
    /// record that a later one replaces or removes, and those of each
    /// `Remove`. A `Remove` of a key that is not present is let through.
    pub fn build_index(log: &[u8]) -> (r: Result<(Index, u64), KvsError>)
        ensures
            match r {
                Ok((index, stale)) => {
                    &&& index.wf()
                    &&& rebuild(log@) == Some((index.entries(), stale as nat))
                    &&& index_fits(index@, log@)
                    &&& replay(log@) == Some(contents_of(index@, log@))
                    &&& index.live_bytes() + stale == scan_end(log@, 0) <= log.len()
                },
                Err(e) => replay(log@) is None && rebuild(log@) is None && e is Serde,
            },
    {
        let mut index = Index::new();
        let mut stale: u64 = 0;
        let mut pos: usize = 0;
        assert(contents_of(index@, log@) =~= Map::<Seq<char>, Seq<char>>::empty());
        loop
            invariant
                pos <= log.len(),
                index.wf(),
                index_fits(index@, log@),
                replay(log@) == replay_from(log@, pos as int, contents_of(index@, log@)),
                index.live_bytes() + stale == pos,
                scan_end(log@, 0) == scan_end(log@, pos as int),
                rebuild(log@) == rebuild_from(log@, pos as int, index.entries(), stale as nat),
            decreases log.len() - pos,
        {
            match next_frame(log, pos) {
                Frame::End => {
                    return Ok((index, stale));
                },
                Frame::Cut => {
                    return Err(KvsError::Serde(String::from_str("the log ends within a record")));
                },
                Frame::Broken => {
                    return Err(
                        KvsError::Serde(String::from_str("the log holds what is not a record")),
                    );
                },
                Frame::Object { start, end } => {
                    let text = sub_slice(log, start, end);
                    let at = CommandPos { pos: pos as u64, len: (end - pos) as u64 };
                    proof {
                        lemma_frame_cut(log@, pos as int);
                        assert(bytes_at(log@, at).subrange(start - pos, end - pos) == text@);
                    }
                    match decode_command(text) {
                        Err(e) => {
                            return Err(e);
                        },
                        Ok(Command::Put { key, value }) => {
                            proof {
                                lemma_contents_insert(index@, log@, key@, at);
                            }
                            match index.insert(key, at) {
                                Some(before) => {
                                    stale = stale + before.len;
                                },
                                None => {},
                            }
                        },
                        Ok(Command::Remove { key }) => {
                            proof {
                                lemma_contents_remove(index@, log@, key@);
                            }
                            match index.remove(&key) {
                                Some(before) => {
                                    stale = stale + before.len;
                                },
                                None => {},
                            }
                            stale = stale + at.len;
                        },
                    }
                    pos = end;
                },
            }
        }
    }

    /// Opens a store on the bytes of its log: builds the index from the
    /// records and counts the stale bytes. White space after the last record
    /// is counted neither as live nor as stale, so that every byte is
    /// accounted for just when the log ends with its last record.
    pub fn open(log: Vec<u8>) -> (r: Result<KvStoreInner, KvsError>)
        ensures
            match r {
                Ok(store) => {
                    &&& store.wf()
                    &&& store.log_bytes() == log@
                    &&& rebuild(log@) == Some((store.entries(), store.stale()))
                    &&& replay(log@) == Some(store@)
                    &&& !store.rewritten()
                    &&& store.live() + store.stale() == scan_end(log@, 0)
                    &&& store.tight() <==> scan_end(log@, 0) == log@.len()
                },
                Err(e) => replay(log@) is None && rebuild(log@) is None && e is Serde,
            },
    {
        match Self::build_index(log.as_slice()) {
            Ok((index, stale_bytes)) => Ok(
                KvStoreInner { log, index, stale_bytes, rewritten: false },
            ),
            Err(e) => Err(e),
        }
    }

    /// What a read of the key finds: nothing where the index has no entry
    /// for it; else what the bytes at the entry's place hold.
    pub open spec fn read_of(&self, key: Seq<char>) -> Reading {
        match place_of(self.entries(), key) {
            None => Reading::Nothing,
            Some(at) => if at.pos + at.len <= self.log_bytes().len() {
                match record_in(bytes_at(self.log_bytes(), at)) {
                    Some(Record::Put { value, .. }) => Reading::Value(value),
                    Some(Record::Remove { .. }) => Reading::NotASet,
                    None => Reading::NoRecord,
                }
            } else {
                Reading::NoRecord
            },
        }
    }

    /// The value of a key, read from its record in the log; `None` if the
    /// key is not present. In a sound store every entry points at a record
    /// that sets its key, and the value is the one that the store holds; an
    /// entry that points at anything else is an error.
    pub fn get(&self, key: String) -> (r: Result<Option<String>, KvsError>)
        requires
            self.index_sound(),
        ensures
            match self.read_of(key@) {
                Reading::Nothing => r matches Ok(None),
                Reading::Value(value) => r matches Ok(Some(v)) && v@ == value,
                Reading::NotASet => r matches Err(KvsError::UnexpectedCommandType),
                Reading::NoRecord => r matches Err(KvsError::Serde(_)),
            },
            self.wf() ==> self.read_of(key@) == match lookup(self@, key@) {
                Some(value) => Reading::Value(value),
                None => Reading::Nothing,
            },
    {
        proof {
            if self.wf() && self.places().contains_key(key@) {
                assert(sets_key(self.log@, key@, self.places()[key@]));
            }
        }
        match self.index.get(&key) {
            None => Ok(None),
            Some(at) => {
                let len = self.log.len() as u64;
                if at.pos > len || at.len > len - at.pos {
                    return Err(
                        KvsError::Serde(String::from_str("an entry points beyond the log")),
                    );
                }
                let text = sub_slice(
                    self.log.as_slice(),
                    at.pos as usize,
                    at.pos as usize + at.len as usize,
                );
                match value_of_record(text) {
                    Ok(value) => Ok(Some(value)),
                    Err(e) => Err(e),
                }
            },
        }
    }

    /// Rewrites the log to hold the live records alone, each copied byte
    /// for byte, in the order of the index, and points the index at the
    /// copies. What the store holds stays as it is.
    pub fn compact(&mut self)
        requires
            old(self).wf(),
        ensures
            final(self).wf(),
            final(self)@ == old(self)@,
            final(self).stale() == 0,
            final(self).tight(),
            final(self).live() == old(self).live(),
            final(self).rewritten(),
            compacted(
                old(self).log_bytes(),
                old(self).entries(),
                final(self).log_bytes(),
                final(self).entries(),
            ),
    {
        let mut new_log: Vec<u8> = Vec::new();
        let mut new_index = Index::new();
        let n = self.index.len();
        let mut i: usize = 0;
        assert(contents_of(new_index@, new_log@) =~= Map::<Seq<char>, Seq<char>>::empty());
        assert(frame_at(new_log@, 0) == Frame::End);
        while i < n
            invariant
                0 <= i <= n,
                n == self.entries().len(),
                self.wf(),
                new_index.wf(),
                new_index.entries().len() == i,
                forall|j: int|
                    0 <= j < i ==> #[trigger] moved(
                        self.log@,
                        self.entries()[j],
                        new_log@,
                        new_index.entries()[j],
                    ),
                forall|j: int| 0 <= j < i ==> #[trigger] follows_on(new_index.entries(), j),
                new_log@.len() == total_len(new_index.entries()),
                total_len(new_index.entries()) == total_len(self.entries().subrange(0, i as int)),
                index_fits(new_index@, new_log@),
                replay(new_log@) == Some(contents_of(new_index@, new_log@)),
                scan_end(new_log@, 0) == new_log@.len(),
            decreases n - i,
        {
            let key = self.index.key_at(i).clone();
            let at = self.index.place_at(i);
            let ghost old_entries = self.entries();
            let ghost before_log = new_log@;
            let ghost before_entries = new_index.entries();
            proof {
                lemma_place_of_entry(old_entries, i as int);
                assert(sets_key(self.log@, key@, self.places()[key@]));
                lemma_total_len_bounds(old_entries, i as int);
                lemma_total_len_prefix(old_entries, i as int + 1);
                assert(old_entries.subrange(0, i as int + 1).drop_last() == old_entries.subrange(
                    0,
                    i as int,
                ));
                lemma_find_from(before_entries, key@, 0);
                if let Some(f) = find_from(before_entries, key@, 0) {
                    assert(moved(self.log@, old_entries[f], before_log, before_entries[f]));
                }
            }
            let text = sub_slice(
                self.log.as_slice(),
                at.pos as usize,
                at.pos as usize + at.len as usize,
            );
            let to = CommandPos { pos: new_log.len() as u64, len: at.len };
            proof {
                let record = record_in(text@).unwrap();
                lemma_index_fits_append(new_index@, before_log, text@);
                lemma_replay_append(before_log, 0, Map::empty(), text@, record);
                assert(bytes_at(before_log + text@, to) == text@);
                lemma_contents_insert(new_index@, before_log + text@, key@, to);
            }
            append_bytes(&mut new_log, text);
            new_index.push_fresh(key, to);
            proof {
                assert forall|j: int| 0 <= j < i + 1 implies #[trigger] moved(
                    self.log@,
                    self.entries()[j],
                    new_log@,
                    new_index.entries()[j],
                ) by {
                    if j < i {
                        assert(moved(self.log@, old_entries[j], before_log, before_entries[j]));
                        assert(bytes_at(new_log@, before_entries[j].1) == bytes_at(
                            before_log,
                            before_entries[j].1,
                        ));
                    }
                }
                assert forall|j: int| 0 <= j < i + 1 implies #[trigger] follows_on(
                    new_index.entries(),
                    j,
                ) by {
                    assert(new_index.entries().subrange(0, j) == before_entries.subrange(0, j));
                    if j < i {
                        assert(follows_on(before_entries, j));
                    } else {
                        assert(before_entries.subrange(0, j) == before_entries);
                    }
                }
            }
            i += 1;
        }
        proof {
            assert(self.entries().subrange(0, n as int) == self.entries());
            lemma_moved_contents(self.log@, self.entries(), new_log@, new_index.entries());
        }
        self.log = new_log;
        self.index = new_index;
        self.stale_bytes = 0;
        self.rewritten = true;
    }

    /// Sets the value of a key: appends a `Set` record to the log and points
    /// the index at it. The record that the key had before, if any, goes
    /// stale. When more than `COMPACTION_THRESHOLD` bytes are stale, the log
    /// is compacted.
    pub fn set(&mut self, key: String, value: String) -> (r: Result<(), KvsError>)
        requires
            old(self).wf(),
        ensures
            final(self).wf(),
            match r {
                Ok(()) => {
                    let record = Record::Put { key: key@, value: value@ };
                    let text = record_text(record).unwrap();
                    let log = old(self).log_bytes() + text;
                    let at = CommandPos {
                        pos: old(self).log_bytes().len() as u64,
                        len: text.len() as u64,
                    };
                    let entries = inserted(old(self).entries(), key@, at);
                    let stale = old(self).stale() + old(self).len_of(key@);
                    &&& writable(record)
                    &&& final(self)@ == old(self)@.insert(key@, value@)
                    &&& final(self).live() == old(self).live() - old(self).len_of(key@) + text.len()
                    &&& old(self).tight() ==> final(self).tight()
                    &&& final(self).stale() <= COMPACTION_THRESHOLD
                    &&& if stale > COMPACTION_THRESHOLD {
                        &&& final(self).rewritten()
                        &&& final(self).stale() == 0
                        &&& final(self).tight()
                        &&& compacted(log, entries, final(self).log_bytes(), final(self).entries())
                    } else {
                        &&& final(self).rewritten() == old(self).rewritten()
                        &&& final(self).stale() == stale
                        &&& final(self).log_bytes() == log
                        &&& final(self).entries() == entries
                    }
                },
                Err(e) => {
                    &&& !writable(Record::Put { key: key@, value: value@ })
                    &&& e is Serde
                    &&& *final(self) == *old(self)
                },
            },
    {
        let command = Command::Put { key: key.clone(), value };
        let text = match checked_text(&command) {
            Ok(text) => text,
            Err(e) => {
                return Err(e);
            },
        };
        let at = CommandPos { pos: self.log.len() as u64, len: text.len() as u64 };
        append_bytes(&mut self.log, text.as_slice());
        proof {
            assert(self.log.len() == old(self).log@.len() + text@.len());
            lemma_index_fits_append(self.places(), old(self).log@, text@);
            lemma_replay_append(old(self).log@, 0, Map::empty(), text@, command@);
            assert(bytes_at(self.log@, at) == text@);
            lemma_contents_insert(self.places(), self.log@, key@, at);
        }
        match self.index.insert(key, at) {
            Some(before) => {
                self.stale_bytes = self.stale_bytes + before.len;
            },
            None => {},
        }
        if self.stale_bytes > COMPACTION_THRESHOLD {
            self.compact();
        }
        Ok(())
    }

    /// Removes a key: appends a `Remove` record to the log and takes the key
    /// out of the index. The record that the key had and the `Remove` record
    /// itself go stale. When more than `COMPACTION_THRESHOLD` bytes are
    /// stale, the log is compacted. A key that is not present is an error,
    /// and nothing is written.
    pub fn remove(&mut self, key: String) -> (r: Result<(), KvsError>)
        requires
            old(self).wf(),
        ensures
            final(self).wf(),
            match r {
                Ok(()) => {
                    let record = Record::Remove { key: key@ };
                    let text = record_text(record).unwrap();
                    let log = old(self).log_bytes() + text;
                    let entries = removed(old(self).entries(), key@);
                    let stale = old(self).stale() + old(self).len_of(key@) + text.len();
                    &&& old(self)@.contains_key(key@)
                    &&& writable(record)
                    &&& final(self)@ == old(self)@.remove(key@)
                    &&& final(self).live() == old(self).live() - old(self).len_of(key@)
                    &&& old(self).tight() ==> final(self).tight()
                    &&& final(self).stale() <= COMPACTION_THRESHOLD
                    &&& if stale > COMPACTION_THRESHOLD {
                        &&& final(self).rewritten()
                        &&& final(self).stale() == 0
                        &&& final(self).tight()
                        &&& compacted(log, entries, final(self).log_bytes(), final(self).entries())
                    } else {
                        &&& final(self).rewritten() == old(self).rewritten()
                        &&& final(self).stale() == stale
                        &&& final(self).log_bytes() == log
                        &&& final(self).entries() == entries
                    }
                },
                Err(e) => {
                    &&& *final(self) == *old(self)
                    &&& if old(self)@.contains_key(key@) {
                        !writable(Record::Remove { key: key@ }) && e is Serde
                    } else {
                        e is KeyNotFound
                    }
                },
            },
    {
        if self.index.get(&key).is_none() {
            return Err(KvsError::KeyNotFound);
        }
        let command = Command::Remove { key: key.clone() };
        let text = match checked_text(&command) {
            Ok(text) => text,
            Err(e) => {
                return Err(e);
            },
        };
        append_bytes(&mut self.log, text.as_slice());
        proof {
            assert(self.log.len() == old(self).log@.len() + text@.len());
            lemma_index_fits_append(self.places(), old(self).log@, text@);
            lemma_replay_append(old(self).log@, 0, Map::empty(), text@, command@);
            lemma_contents_remove(self.places(), self.log@, key@);
        }
        match self.index.remove(&key) {
            Some(before) => {
                self.stale_bytes = self.stale_bytes + before.len + text.len() as u64;
            },
            None => {},
        }
        if self.stale_bytes > COMPACTION_THRESHOLD {
            self.compact();
        }
        Ok(())
    }
}

} // verus!
