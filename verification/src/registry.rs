use vstd::prelude::*;
use crate::paths::{artifact_path, dictionary_path, dictionary_suffix, encoded_text_path, encoded_text_suffix};

verus! {

/// A pointer as a mathematical value.
pub struct PointerRecord {
    pub id: int,
    pub ip: Seq<char>,
    pub file_name: Seq<char>,
    pub dictionary_in_place: bool,
    pub encoded_text_in_place: bool,
}

/// A record of the registry: which file of which peer it speaks of, and
/// which of the file's two artifacts are stored.
#[derive(Debug)]
pub struct FilePointer {
    pub id: i32,
    pub ip: String,
    pub file_name: String,
    pub dictionary_in_place: bool,
    pub encoded_text_in_place: bool,
}

/// The mathematical value of a pointer.
pub open spec fn record_of(pointer: FilePointer) -> PointerRecord {
    PointerRecord {
        id: pointer.id as int,
        ip: pointer.ip@,
        file_name: pointer.file_name@,
        dictionary_in_place: pointer.dictionary_in_place,
        encoded_text_in_place: pointer.encoded_text_in_place,
    }
}

impl View for FilePointer {
    type V = PointerRecord;

    open spec fn view(&self) -> PointerRecord {
        record_of(*self)
    }
}

/// The mathematical values of a list of pointers, in the order of the list.
pub open spec fn records_of(pointers: Seq<FilePointer>) -> Seq<PointerRecord> {
    pointers.map_values(|pointer: FilePointer| record_of(pointer))
}

impl FilePointer {
    /// A pointer for a file that a peer has just announced: nothing is stored yet.
    pub fn new(id: i32, ip: String, file_name: String) -> (pointer: FilePointer)
        ensures
            pointer@ == (PointerRecord {
                id: id as int,
                ip: ip@,
                file_name: file_name@,
                dictionary_in_place: false,
                encoded_text_in_place: false,
            }),
    {
        FilePointer { id, ip, file_name, dictionary_in_place: false, encoded_text_in_place: false }
    }

    /// A copy of the pointer.
    pub fn duplicate(&self) -> (copy: FilePointer)
        ensures
            copy@ == self@,
    {
        FilePointer {
            id: self.id,
            ip: self.ip.clone(),
            file_name: self.file_name.clone(),
            dictionary_in_place: self.dictionary_in_place,
            encoded_text_in_place: self.encoded_text_in_place,
        }
    }

    /// Whether the pointer is the one for this file of this peer.
    pub fn is_for(&self, peer_ip: &str, file_name: &str) -> (yes: bool)
        ensures
            yes == has_key(self@, peer_ip@, file_name@),
    {
        self.ip.as_str().eq(peer_ip) && self.file_name.as_str().eq(file_name)
    }

    /// The path under which the dictionary of the file is kept.
    pub fn dictionary_path(&self) -> (path: String)
        ensures
            path@ == artifact_path(self@.ip, self@.file_name, dictionary_suffix()),
    {
        dictionary_path(self.ip.as_str(), self.file_name.as_str())
    }

    /// The path under which the encoded text of the file is kept.
    pub fn encoded_text_path(&self) -> (path: String)
        ensures
            path@ == artifact_path(self@.ip, self@.file_name, encoded_text_suffix()),
    {
        encoded_text_path(self.ip.as_str(), self.file_name.as_str())
    }
}

/// The record is the one for this file of this peer.
pub open spec fn has_key(record: PointerRecord, ip: Seq<char>, file_name: Seq<char>) -> bool {
    record.ip == ip && record.file_name == file_name
}

/// No two records of the list speak of the same file of the same peer, and
/// no two have the same id.
pub open spec fn unique_records(records: Seq<PointerRecord>) -> bool {
    forall|i: int, j: int|
        0 <= i < records.len() && 0 <= j < records.len() && i != j ==> {
            &&& !has_key(#[trigger] records[i], (#[trigger] records[j]).ip, records[j].file_name)
            &&& records[i].id != records[j].id
        }
}

/// The record waits for its dictionary and belongs to the peer.
pub open spec fn awaits_dictionary(record: PointerRecord, ip: Seq<char>) -> bool {
    record.ip == ip && !record.dictionary_in_place
}

/// The record waits for its encoded text and belongs to the peer.
pub open spec fn awaits_encoded(record: PointerRecord, ip: Seq<char>) -> bool {
    record.ip == ip && !record.encoded_text_in_place
}

/// The records of the peer that wait for their dictionary, in registry order.
pub open spec fn pending_dictionary(records: Seq<PointerRecord>, ip: Seq<char>) -> Seq<PointerRecord> {
    records.filter(|record: PointerRecord| awaits_dictionary(record, ip))
}

/// The records of the peer that wait for their encoded text, in registry order.
pub open spec fn pending_encoded(records: Seq<PointerRecord>, ip: Seq<char>) -> Seq<PointerRecord> {
    records.filter(|record: PointerRecord| awaits_encoded(record, ip))
}

/// The list has a record for this file of this peer.
pub open spec fn has_record(records: Seq<PointerRecord>, ip: Seq<char>, file_name: Seq<char>) -> bool {
    exists|i: int| 0 <= i < records.len() && has_key(#[trigger] records[i], ip, file_name)
}

/// The record with its dictionary marked as stored.
pub open spec fn dictionary_stored(record: PointerRecord) -> PointerRecord {
    PointerRecord { dictionary_in_place: true, ..record }
}

/// The record with its encoded text marked as stored.
pub open spec fn encoded_stored(record: PointerRecord) -> PointerRecord {
    PointerRecord { encoded_text_in_place: true, ..record }
}

/// The record after the dictionary of the given file was stored: marked, if
/// it is the record of that file, and unchanged if not.
pub open spec fn after_dictionary(record: PointerRecord, ip: Seq<char>, file_name: Seq<char>) -> PointerRecord {
    if has_key(record, ip, file_name) {
        dictionary_stored(record)
    } else {
        record
    }
}

/// The record after the encoded text of the given file was stored.
pub open spec fn after_encoded(record: PointerRecord, ip: Seq<char>, file_name: Seq<char>) -> PointerRecord {
    if has_key(record, ip, file_name) {
        encoded_stored(record)
    } else {
        record
    }
}

/// The registry after the dictionary of the given file was stored.
pub open spec fn with_dictionary(records: Seq<PointerRecord>, ip: Seq<char>, file_name: Seq<char>) -> Seq<PointerRecord> {
    records.map_values(|record: PointerRecord| after_dictionary(record, ip, file_name))
}

/// The registry after the encoded text of the given file was stored.
pub open spec fn with_encoded(records: Seq<PointerRecord>, ip: Seq<char>, file_name: Seq<char>) -> Seq<PointerRecord> {
    records.map_values(|record: PointerRecord| after_encoded(record, ip, file_name))
}

/// The largest id of the list, and 0 for the empty list or where none is positive.
pub open spec fn largest_id(records: Seq<PointerRecord>) -> int
    decreases records.len(),
{
    if records.len() == 0 {
        0
    } else {
        let before = largest_id(records.drop_last());
        if records.last().id > before {
            records.last().id
        } else {
            before
        }
    }
}

/// No id of the list is above the largest.
pub proof fn lemma_largest_id(records: Seq<PointerRecord>)
    ensures
        largest_id(records) >= 0,
        forall|i: int| 0 <= i < records.len() ==> (#[trigger] records[i]).id <= largest_id(records),
    decreases records.len(),
{
    if records.len() > 0 {
        let front = records.drop_last();
        lemma_largest_id(front);
        assert forall|i: int| 0 <= i < records.len() implies (#[trigger] records[i]).id <= largest_id(records) by {
            if i < front.len() {
                assert(front[i] == records[i]);
            }
        }
    }
}

/// The registry refused a change or a list of rows.
#[derive(Debug, PartialEq, Eq)]
pub enum RegistryError {
    /// Two records speak of the same file of the same peer, or have the same id.
    DuplicateRecord,
    /// The largest id is in use, so that no id is left for a new record.
    IdsExhausted,
}

/// The catalog of the files that peers have announced. It holds at most one
/// record for each file of each peer, and no two records with the same id.
/// Records are added and marked, never removed.
pub struct PointerRegistry {
    pointers: Vec<FilePointer>,
}

impl View for PointerRegistry {
    type V = Seq<PointerRecord>;

    closed spec fn view(&self) -> Seq<PointerRecord> {
        records_of(self.pointers@)
    }
}

impl PointerRegistry {
    /// What every registry keeps: no two records for the same file of the
    /// same peer, and no two with the same id.
    pub open spec fn wf(&self) -> bool {
        unique_records(self@)
    }

    /// A registry without records.
    pub fn new() -> (registry: PointerRegistry)
        ensures
            registry.wf(),
            registry@ == Seq::<PointerRecord>::empty(),
    {
        let registry = PointerRegistry { pointers: Vec::new() };
        registry
    }

    /// The registry that holds the given rows, in their order. Rows of which
    /// two speak of the same file of the same peer, or have the same id, are
    /// refused.
    pub fn from_rows(rows: Vec<FilePointer>) -> (result: Result<PointerRegistry, RegistryError>)
        ensures
            match result {
                Ok(registry) => registry@ == records_of(rows@) && registry.wf(),
                Err(RegistryError::DuplicateRecord) => !unique_records(records_of(rows@)),
                Err(RegistryError::IdsExhausted) => false,
            },
    {
        let ghost records = records_of(rows@);
        let mut i: usize = 0;
        while i < rows.len()
            invariant
                i <= rows.len(),
                records == records_of(rows@),
                unique_records(records.take(i as int)),
            decreases rows.len() - i,
        {
            let mut j: usize = 0;
            while j < i
                invariant
                    j <= i < rows.len(),
                    records == records_of(rows@),
                    forall|k: int|
                        0 <= k < j ==> !has_key(#[trigger] records[k], records[i as int].ip, records[i as int].file_name)
                            && records[k].id != records[i as int].id,
                decreases i - j,
            {
                if rows[j].id == rows[i].id || rows[j].is_for(rows[i].ip.as_str(), rows[i].file_name.as_str()) {
                    assert(records[j as int] == record_of(rows@[j as int]));
                    assert(records[i as int] == record_of(rows@[i as int]));
                    return Err(RegistryError::DuplicateRecord);
                }
                j += 1;
            }
            proof {
                let next = records.take(i + 1);
                assert forall|a: int, b: int| 0 <= a < next.len() && 0 <= b < next.len() && a != b implies {
                    &&& !has_key(#[trigger] next[a], (#[trigger] next[b]).ip, next[b].file_name)
                    &&& next[a].id != next[b].id
                } by {}
            }
            i += 1;
        }
        assert(records.take(i as int) =~= records);
        Ok(PointerRegistry { pointers: rows })
    }

    /// The number of records.
    pub fn len(&self) -> (count: usize)
        ensures
            count == self@.len(),
    {
        self.pointers.len()
    }

    /// A copy of the record at a place of the registry.
    pub fn get(&self, place: usize) -> (pointer: Option<FilePointer>)
        ensures
            match pointer {
                Some(found) => place < self@.len() && found@ == self@[place as int],
                None => place >= self@.len(),
            },
    {
        if place < self.pointers.len() {
            Some(self.pointers[place].duplicate())
        } else {
            None
        }
    }

    /// The place of the record for this file of this peer, if there is one.
    fn place_of(&self, peer_ip: &str, file_name: &str) -> (place: Option<usize>)
        ensures
            match place {
                Some(k) => k < self@.len() && has_key(self@[k as int], peer_ip@, file_name@),
                None => !has_record(self@, peer_ip@, file_name@),
            },
    {
        let mut i: usize = 0;
        while i < self.pointers.len()
            invariant
                i <= self.pointers.len(),
                forall|k: int| 0 <= k < i ==> !has_key(#[trigger] self@[k], peer_ip@, file_name@),
            decreases self.pointers.len() - i,
        {
            if self.pointers[i].is_for(peer_ip, file_name) {
                return Some(i);
            }
            i += 1;
        }
        None
    }

    /// The record for this file of this peer, if the registry has one. A
    /// registry has at most one.
    pub fn find_by_name(&self, peer_ip: &str, file_name: &str) -> (pointer: Option<FilePointer>)
        ensures
            match pointer {
                Some(found) => {
                    &&& has_key(found@, peer_ip@, file_name@)
                    &&& self@.contains(found@)
                    &&& self.wf() ==> forall|i: int|
                        0 <= i < self@.len() && has_key(#[trigger] self@[i], peer_ip@, file_name@) ==> self@[i]
                            == found@
                },
                None => !has_record(self@, peer_ip@, file_name@),
            },
    {
        match self.place_of(peer_ip, file_name) {
            Some(k) => Some(self.pointers[k].duplicate()),
            None => None,
        }
    }

    /// The records of the peer whose dictionary is not stored yet, in
    /// registry order.
    pub fn find_pending_dictionary(&self, peer_ip: &str) -> (pending: Vec<FilePointer>)
        ensures
            records_of(pending@) == pending_dictionary(self@, peer_ip@),
    {
        let mut pending: Vec<FilePointer> = Vec::new();
        let mut i: usize = 0;
        proof {
            reveal(Seq::filter);
        }
        while i < self.pointers.len()
            invariant
                i <= self.pointers.len(),
                records_of(pending@) == pending_dictionary(self@.take(i as int), peer_ip@),
            decreases self.pointers.len() - i,
        {
            proof {
                reveal(Seq::filter);
                assert(self@.take(i + 1).drop_last() =~= self@.take(i as int));
            }
            let pointer = &self.pointers[i];
            if !pointer.dictionary_in_place && pointer.ip.as_str().eq(peer_ip) {
                pending.push(pointer.duplicate());
            }
            i += 1;
        }
        assert(self@.take(i as int) =~= self@);
        pending
    }

    /// The records of the peer whose encoded text is not stored yet, in
    /// registry order.
    pub fn find_pending_encoded(&self, peer_ip: &str) -> (pending: Vec<FilePointer>)
        ensures
            records_of(pending@) == pending_encoded(self@, peer_ip@),
    {
        let mut pending: Vec<FilePointer> = Vec::new();
        let mut i: usize = 0;
        proof {
            reveal(Seq::filter);
        }
        while i < self.pointers.len()
            invariant
                i <= self.pointers.len(),
                records_of(pending@) == pending_encoded(self@.take(i as int), peer_ip@),
            decreases self.pointers.len() - i,
        {
            proof {
                reveal(Seq::filter);
                assert(self@.take(i + 1).drop_last() =~= self@.take(i as int));
            }
            let pointer = &self.pointers[i];
            if !pointer.encoded_text_in_place && pointer.ip.as_str().eq(peer_ip) {
                pending.push(pointer.duplicate());
            }
            i += 1;
        }
        assert(self@.take(i as int) =~= self@);
        pending
    }

    /// The largest id in use, and 0 where none is positive.
    fn largest(&self) -> (id: i32)
        ensures
            id == largest_id(self@),
    {
        let mut id: i32 = 0;
        let mut i: usize = 0;
        while i < self.pointers.len()
            invariant
                i <= self.pointers.len(),
                id == largest_id(self@.take(i as int)),
            decreases self.pointers.len() - i,
        {
            proof {
                assert(self@.take(i + 1).drop_last() =~= self@.take(i as int));
            }
            if self.pointers[i].id > id {
                id = self.pointers[i].id;
            }
            i += 1;
        }
        assert(self@.take(i as int) =~= self@);
        id
    }

    /// Records that a peer has announced a file. The first announcement of a
    /// file adds a record with a new id and with nothing stored; a later one
    /// changes nothing. Either way the record of the file is returned.
    pub fn announce(&mut self, peer_ip: &str, file_name: &str) -> (result: Result<FilePointer, RegistryError>)
        requires
            old(self).wf(),
        ensures
            final(self).wf(),
            match result {
                Ok(pointer) => {
                    &&& has_key(pointer@, peer_ip@, file_name@)
                    &&& has_record(old(self)@, peer_ip@, file_name@) ==> final(self)@ == old(self)@ && old(
                        self,
                    )@.contains(pointer@)
                    &&& !has_record(old(self)@, peer_ip@, file_name@) ==> {
                        &&& final(self)@ == old(self)@.push(pointer@)
                        &&& pointer@.id == largest_id(old(self)@) + 1
                        &&& !pointer@.dictionary_in_place
                        &&& !pointer@.encoded_text_in_place
                    }
                },
                Err(RegistryError::IdsExhausted) => {
                    &&& final(self)@ == old(self)@
                    &&& !has_record(old(self)@, peer_ip@, file_name@)
                    &&& largest_id(old(self)@) == i32::MAX
                },
                Err(RegistryError::DuplicateRecord) => false,
            },
    {
        match self.place_of(peer_ip, file_name) {
            Some(k) => Ok(self.pointers[k].duplicate()),
            None => {
                let largest = self.largest();
                if largest == i32::MAX {
                    return Err(RegistryError::IdsExhausted);
                }
                let pointer = FilePointer::new(largest + 1, peer_ip.to_owned(), file_name.to_owned());
                let copy = pointer.duplicate();
                proof {
                    lemma_largest_id(self@);
                    let grown = self@.push(pointer@);
                    assert forall|a: int, b: int| 0 <= a < grown.len() && 0 <= b < grown.len() && a != b implies {
                        &&& !has_key(#[trigger] grown[a], (#[trigger] grown[b]).ip, grown[b].file_name)
                        &&& grown[a].id != grown[b].id
                    } by {}
                    assert(records_of(self.pointers@.push(pointer)) =~= grown);
                }
                self.pointers.push(pointer);
                Ok(copy)
            },
        }
    }

    /// Marks the dictionary of a file as stored. Returns whether the registry
    /// has a record of the file; no other record changes.
    pub fn mark_dictionary_stored(&mut self, peer_ip: &str, file_name: &str) -> (known: bool)
        requires
            old(self).wf(),
        ensures
            final(self).wf(),
            known == has_record(old(self)@, peer_ip@, file_name@),
            final(self)@ == with_dictionary(old(self)@, peer_ip@, file_name@),
    {
        match self.place_of(peer_ip, file_name) {
            Some(k) => {
                let marked = FilePointer {
                    id: self.pointers[k].id,
                    ip: self.pointers[k].ip.clone(),
                    file_name: self.pointers[k].file_name.clone(),
                    dictionary_in_place: true,
                    encoded_text_in_place: self.pointers[k].encoded_text_in_place,
                };
                proof {
                    let after = with_dictionary(self@, peer_ip@, file_name@);
                    assert(records_of(self.pointers@.update(k as int, marked)) =~= after);
                    lemma_marking_keeps_unique(self@, after);
                }
                self.pointers.set(k, marked);
                true
            },
            None => false,
        }
    }

    /// Marks the encoded text of a file as stored. Returns whether the
    /// registry has a record of the file; no other record changes.
    pub fn mark_encoded_stored(&mut self, peer_ip: &str, file_name: &str) -> (known: bool)
        requires
            old(self).wf(),
        ensures
            final(self).wf(),
            known == has_record(old(self)@, peer_ip@, file_name@),
            final(self)@ == with_encoded(old(self)@, peer_ip@, file_name@),
    {
        match self.place_of(peer_ip, file_name) {
            Some(k) => {
                let marked = FilePointer {
                    id: self.pointers[k].id,
                    ip: self.pointers[k].ip.clone(),
                    file_name: self.pointers[k].file_name.clone(),
                    dictionary_in_place: self.pointers[k].dictionary_in_place,
                    encoded_text_in_place: true,
                };
                proof {
                    let after = with_encoded(self@, peer_ip@, file_name@);
                    assert(records_of(self.pointers@.update(k as int, marked)) =~= after);
                    lemma_marking_keeps_unique(self@, after);
                }
                self.pointers.set(k, marked);
                true
            },
            None => false,
        }
    }
}

/// A registry whose records keep their ids, peers and file names keeps them
/// unique.
pub proof fn lemma_marking_keeps_unique(before: Seq<PointerRecord>, after: Seq<PointerRecord>)
    requires
        unique_records(before),
        after.len() == before.len(),
        forall|i: int|
            0 <= i < before.len() ==> (#[trigger] after[i]).id == before[i].id && after[i].ip == before[i].ip
                && after[i].file_name == before[i].file_name,
    ensures
        unique_records(after),
{
    assert forall|i: int, j: int| 0 <= i < after.len() && 0 <= j < after.len() && i != j implies {
        &&& !has_key(#[trigger] after[i], (#[trigger] after[j]).ip, after[j].file_name)
        &&& after[i].id != after[j].id
    } by {}
}

/// Registry consistency: once the dictionary of a file is stored, the file
/// is no longer among those of its peer that wait for a dictionary.
pub proof fn lemma_stored_dictionary_not_pending(records: Seq<PointerRecord>, ip: Seq<char>, file_name: Seq<char>)
    ensures
        !has_record(pending_dictionary(with_dictionary(records, ip, file_name), ip), ip, file_name),
{
    let after = with_dictionary(records, ip, file_name);
    let pending = pending_dictionary(after, ip);
    let waits = |record: PointerRecord| awaits_dictionary(record, ip);
    assert forall|k: int| 0 <= k < pending.len() implies !has_key(#[trigger] pending[k], ip, file_name) by {
        after.lemma_filter_pred(waits, k);
        after.lemma_filter_contains_rev(waits, pending[k]);
    }
}

/// Registry consistency: once the encoded text of a file is stored, the file
/// is no longer among those of its peer that wait for an encoded text.
pub proof fn lemma_stored_encoded_not_pending(records: Seq<PointerRecord>, ip: Seq<char>, file_name: Seq<char>)
    ensures
        !has_record(pending_encoded(with_encoded(records, ip, file_name), ip), ip, file_name),
{
    let after = with_encoded(records, ip, file_name);
    let pending = pending_encoded(after, ip);
    let waits = |record: PointerRecord| awaits_encoded(record, ip);
    assert forall|k: int| 0 <= k < pending.len() implies !has_key(#[trigger] pending[k], ip, file_name) by {
        after.lemma_filter_pred(waits, k);
        after.lemma_filter_contains_rev(waits, pending[k]);
    }
}

/// Registry consistency: storing an artifact of a file changes no record of
/// another file, and of the file's own record only the flag of that artifact.
pub proof fn lemma_marking_is_local(records: Seq<PointerRecord>, ip: Seq<char>, file_name: Seq<char>, place: int)
    requires
        0 <= place < records.len(),
    ensures
        with_dictionary(records, ip, file_name).len() == records.len(),
        with_encoded(records, ip, file_name).len() == records.len(),
        !has_key(records[place], ip, file_name) ==> {
            &&& with_dictionary(records, ip, file_name)[place] == records[place]
            &&& with_encoded(records, ip, file_name)[place] == records[place]
        },
        has_key(records[place], ip, file_name) ==> {
            &&& with_dictionary(records, ip, file_name)[place] == dictionary_stored(records[place])
            &&& with_encoded(records, ip, file_name)[place] == encoded_stored(records[place])
        },
{
}

} // verus!
