//! The pluggable storage interface and its in-memory reference
//! implementation.
//!
//! Storage holds, per message identifier, the prepared email, the mutating
//! delivery status, and a `retrieved` flag that makes `retrieve_all_recent`
//! report each completed message exactly once.

use vstd::prelude::*;
use vstd::string::StringExecFns;
use crate::message_status::{InternalMessageStatus, MessageStatusModel};
use crate::prepared_email::{PreparedEmail, PreparedEmailModel};

verus! {

/// One stored message: the prepared email, its mutating status, and
/// whether a completed status has already been reported.
pub struct Record {
    pub email: PreparedEmail,
    pub status: InternalMessageStatus,
    pub retrieved: bool,
}

/// The mathematical model of a `Record`.
pub struct RecordModel {
    pub email: PreparedEmailModel,
    pub status: MessageStatusModel,
    pub retrieved: bool,
}

impl View for Record {
    type V = RecordModel;

    open spec fn view(&self) -> RecordModel {
        RecordModel { email: self.email@, status: self.status@, retrieved: self.retrieved }
    }
}

impl Clone for Record {
    fn clone(&self) -> (r: Self)
        ensures
            r@ == self@,
    {
        Record {
            email: self.email.clone(),
            status: self.status.clone(),
            retrieved: self.retrieved,
        }
    }
}

/// No two stored records share a message identifier.
pub open spec fn ids_distinct(rs: Seq<RecordModel>) -> bool {
    forall|i: int, j: int|
        0 <= i < j < rs.len() ==> rs[i].status.message_id != rs[j].status.message_id
}

/// Whether some record carries this message identifier.
pub open spec fn has_id(rs: Seq<RecordModel>, id: Seq<char>) -> bool {
    exists|j: int| 0 <= j < rs.len() && rs[j].status.message_id == id
}

/// The first index whose record carries this identifier; the length when
/// none does.
pub open spec fn index_of_id(rs: Seq<RecordModel>, id: Seq<char>) -> int
    decreases rs.len(),
{
    if rs.len() == 0 {
        0
    } else if rs[0].status.message_id == id {
        0
    } else {
        1 + index_of_id(rs.subrange(1, rs.len() as int), id)
    }
}

/// The basic facts about `index_of_id`.
pub proof fn lemma_index_of_id(rs: Seq<RecordModel>, id: Seq<char>)
    ensures
        0 <= index_of_id(rs, id) <= rs.len(),
        index_of_id(rs, id) < rs.len() ==> rs[index_of_id(rs, id)].status.message_id == id,
        forall|j: int| 0 <= j < index_of_id(rs, id) ==> rs[j].status.message_id != id,
        index_of_id(rs, id) == rs.len() ==> !has_id(rs, id),
    decreases rs.len(),
{
    if rs.len() > 0 && rs[0].status.message_id != id {
        let rest = rs.subrange(1, rs.len() as int);
        lemma_index_of_id(rest, id);
        let idx = index_of_id(rs, id);
        assert forall|j: int| 0 <= j < idx implies rs[j].status.message_id != id by {
            if j > 0 {
                assert(rest[j - 1] == rs[j]);
            }
        }
        if idx == rs.len() {
            assert forall|j: int| 0 <= j < rs.len() implies rs[j].status.message_id != id by {
                if j > 0 {
                    assert(rest[j - 1] == rs[j]);
                }
            }
        }
    }
}

/// What storing a pair does to the records: overwrite the record with this
/// message identifier, or append a new one; the `retrieved` flag starts (or
/// becomes) false.
pub open spec fn store_spec(
    rs: Seq<RecordModel>,
    email: PreparedEmailModel,
    status: MessageStatusModel,
) -> Seq<RecordModel> {
    let rec = RecordModel { email, status, retrieved: false };
    if has_id(rs, status.message_id) {
        rs.update(index_of_id(rs, status.message_id), rec)
    } else {
        rs.push(rec)
    }
}

/// What updating a status does to the records: the record with this
/// message identifier keeps its email and its flag and takes the status.
pub open spec fn update_spec(rs: Seq<RecordModel>, status: MessageStatusModel) -> Seq<
    RecordModel,
> {
    let i = index_of_id(rs, status.message_id);
    rs.update(
        i,
        RecordModel { email: rs[i].email, status, retrieved: rs[i].retrieved },
    )
}

/// Whether `retrieve_all_recent` reports a record: still being worked on,
/// or completed and not yet reported.
pub open spec fn recent_includes(r: RecordModel) -> bool {
    r.status.attempts_remaining > 0 || !r.retrieved
}

/// The statuses `retrieve_all_recent` reports, in storage order.
pub open spec fn recent_statuses(rs: Seq<RecordModel>) -> Seq<MessageStatusModel>
    decreases rs.len(),
{
    if rs.len() == 0 {
        Seq::empty()
    } else {
        recent_statuses(rs.drop_last()) + (if recent_includes(rs.last()) {
            seq![rs.last().status]
        } else {
            Seq::empty()
        })
    }
}

/// The statuses `retrieve_all_incomplete` reports, in storage order.
pub open spec fn incomplete_statuses(rs: Seq<RecordModel>) -> Seq<MessageStatusModel>
    decreases rs.len(),
{
    if rs.len() == 0 {
        Seq::empty()
    } else {
        incomplete_statuses(rs.drop_last()) + (if rs.last().status.attempts_remaining > 0 {
            seq![rs.last().status]
        } else {
            Seq::empty()
        })
    }
}

/// The records after `retrieve_all_recent`: every completed record is
/// marked reported.
pub open spec fn mark_retrieved(rs: Seq<RecordModel>) -> Seq<RecordModel> {
    rs.map_values(
        |r: RecordModel|
            if r.status.attempts_remaining == 0 {
                RecordModel { email: r.email, status: r.status, retrieved: true }
            } else {
                r
            },
    )
}

/// An error of a storage backend, described by a string.
pub trait MailstromStorageError: Sized {
    /// A human-readable description of the error.
    fn description_string(&self) -> String;
}

/// A storage backend for the engine.  `records()` is the backend's
/// contents, as a sequence of record models with pairwise distinct message
/// identifiers; `reliable()` says whether its operations are guaranteed to
/// succeed (true for the in-memory reference; a durable backend may fail).
pub trait MailstromStorage: Sized {
    type Error: MailstromStorageError;

    /// The stored records.
    spec fn records(&self) -> Seq<RecordModel>;

    /// Whether operations cannot fail for backend reasons.
    spec fn reliable(&self) -> bool;

    /// Stores a prepared email with its status; overwrites the record
    /// carrying the same message identifier.
    fn store(&mut self, email: PreparedEmail, status: InternalMessageStatus) -> (r: Result<
        (),
        Self::Error,
    >)
        requires
            ids_distinct(old(self).records()),
        ensures
            ids_distinct(final(self).records()),
            final(self).reliable() == old(self).reliable(),
            r is Ok ==> final(self).records() == store_spec(old(self).records(), email@, status@),
            r is Err ==> final(self).records() == old(self).records(),
            old(self).reliable() ==> r is Ok,
    ;

    /// Updates the status of a stored message; fails when the message
    /// identifier is unknown.
    fn update_status(&mut self, status: InternalMessageStatus) -> (r: Result<(), Self::Error>)
        requires
            ids_distinct(old(self).records()),
        ensures
            ids_distinct(final(self).records()),
            final(self).reliable() == old(self).reliable(),
            r is Ok ==> has_id(old(self).records(), status@.message_id) && final(self).records()
                == update_spec(old(self).records(), status@),
            r is Err ==> final(self).records() == old(self).records(),
            old(self).reliable() ==> (r is Ok <==> has_id(old(self).records(), status@.message_id)),
    ;

    /// Retrieves the prepared email and the status of a message.
    fn retrieve(&self, message_id: &str) -> (r: Result<
        (PreparedEmail, InternalMessageStatus),
        Self::Error,
    >)
        ensures
            r matches Ok(pair) ==> has_id(self.records(), message_id@) && {
                let rec = self.records()[index_of_id(self.records(), message_id@)];
                pair.0@ == rec.email && pair.1@ == rec.status
            },
            self.reliable() ==> (r is Ok <==> has_id(self.records(), message_id@)),
    ;

    /// Retrieves the status of a message.
    fn retrieve_status(&self, message_id: &str) -> (r: Result<InternalMessageStatus, Self::Error>)
        ensures
            r matches Ok(status) ==> has_id(self.records(), message_id@) && status@
                == self.records()[index_of_id(self.records(), message_id@)].status,
            self.reliable() ==> (r is Ok <==> has_id(self.records(), message_id@)),
    ;

    /// The statuses of every message whose sending is not complete; used on
    /// startup to rehydrate the task queue.
    fn retrieve_all_incomplete(&self) -> (r: Result<Vec<InternalMessageStatus>, Self::Error>)
        ensures
            r matches Ok(v) ==> v@.map_values(|s: InternalMessageStatus| s@)
                == incomplete_statuses(self.records()),
            self.reliable() ==> r is Ok,
    ;

    /// The statuses of every incomplete message, plus every completed
    /// message not yet reported by this method; completed messages are
    /// marked reported.
    fn retrieve_all_recent(&mut self) -> (r: Result<Vec<InternalMessageStatus>, Self::Error>)
        requires
            ids_distinct(old(self).records()),
        ensures
            ids_distinct(final(self).records()),
            final(self).reliable() == old(self).reliable(),
            r matches Ok(v) ==> v@.map_values(|s: InternalMessageStatus| s@) == recent_statuses(
                old(self).records(),
            ) && final(self).records() == mark_retrieved(old(self).records()),
            r is Err ==> final(self).records() == old(self).records(),
            old(self).reliable() ==> r is Ok,
    ;
}

/// The error of the in-memory reference storage.
#[derive(Debug)]
pub enum MemoryStorageError {
    /// No record carries the message identifier.
    NotFound,
}

impl MailstromStorageError for MemoryStorageError {
    fn description_string(&self) -> (r: String)
        ensures
            r@ == "Memory Storage Error: Email not found"@,
    {
        String::from_str("Memory Storage Error: Email not found")
    }
}

/// The in-memory reference storage: a list of records with pairwise
/// distinct message identifiers.
pub struct MemoryStorage {
    records: Vec<Record>,
}

impl MemoryStorage {
    /// An empty storage.
    pub fn new() -> (r: MemoryStorage)
        ensures
            r.records() == Seq::<RecordModel>::empty(),
            ids_distinct(r.records()),
            r.reliable(),
    {
        let r = MemoryStorage { records: Vec::new() };
        proof {
            assert(r.records() =~= Seq::<RecordModel>::empty());
        }
        r
    }

    /// The index of the record carrying this identifier, if any.
    fn find(&self, message_id: &str) -> (r: Option<usize>)
        ensures
            r matches Some(i) ==> (i as int) == index_of_id(self.records(), message_id@) && (
            i as int) < self.records().len(),
            r is None ==> !has_id(self.records(), message_id@),
    {
        let key: String = message_id.to_owned();
        let ghost rs = self.records();
        proof {
            lemma_index_of_id(rs, message_id@);
        }
        let mut i: usize = 0;
        while i < self.records.len()
            invariant
                rs == self.records(),
                rs.len() == self.records@.len(),
                key@ == message_id@,
                0 <= i <= rs.len(),
                forall|j: int| 0 <= j < i ==> rs[j].status.message_id != message_id@,
            decreases self.records.len() - i,
        {
            proof {
                assert(rs[i as int] == self.records@[i as int]@);
            }
            if self.records[i].status.message_id == key {
                proof {
                    lemma_index_of_id_found(rs, message_id@, i as int);
                }
                return Option::Some(i);
            }
            i = i + 1;
        }
        Option::None
    }
}

/// A scan that stops at the first match computes `index_of_id`.
proof fn lemma_index_of_id_found(rs: Seq<RecordModel>, id: Seq<char>, i: int)
    requires
        0 <= i < rs.len(),
        rs[i].status.message_id == id,
        forall|j: int| 0 <= j < i ==> rs[j].status.message_id != id,
    ensures
        index_of_id(rs, id) == i,
    decreases rs.len(),
{
    if rs[0].status.message_id != id {
        let rest = rs.subrange(1, rs.len() as int);
        assert(rest[i - 1] == rs[i]);
        assert forall|j: int| 0 <= j < i - 1 implies rest[j].status.message_id != id by {
            assert(rest[j] == rs[j + 1]);
        }
        lemma_index_of_id_found(rest, id, i - 1);
    }
}

impl MailstromStorage for MemoryStorage {
    type Error = MemoryStorageError;

    closed spec fn records(&self) -> Seq<RecordModel> {
        self.records@.map_values(|r: Record| r@)
    }

    open spec fn reliable(&self) -> bool {
        true
    }

    fn store(&mut self, email: PreparedEmail, status: InternalMessageStatus) -> (r: Result<
        (),
        Self::Error,
    >) {
        let ghost rs = self.records();
        let key = status.message_id.clone();
        let rec = Record { email, status, retrieved: false };
        let ghost recv = rec@;
        match self.find(key.as_str()) {
            Option::Some(i) => {
                self.records.remove(i);
                self.records.insert(i, rec);
                proof {
                    assert(self.records() =~= rs.update(i as int, recv));
                    lemma_index_of_id(rs, recv.status.message_id);
                    assert(has_id(rs, recv.status.message_id)) by {
                        assert(rs[i as int].status.message_id == recv.status.message_id);
                    }
                    assert(self.records() == store_spec(rs, email@, recv.status));
                    assert(ids_distinct(self.records())) by {
                        assert forall|a: int, b: int|
                            0 <= a < b < self.records().len() implies self.records()[
                        a].status.message_id != self.records()[b].status.message_id by {
                            if a != i && b != i {
                                assert(self.records()[a] == rs[a]);
                                assert(self.records()[b] == rs[b]);
                            } else if a == i {
                                assert(self.records()[b] == rs[b]);
                                assert(rs[i as int].status.message_id == recv.status.message_id);
                            } else {
                                assert(self.records()[a] == rs[a]);
                                assert(rs[i as int].status.message_id == recv.status.message_id);
                            }
                        }
                    }
                }
                Result::Ok(())
            },
            Option::None => {
                self.records.push(rec);
                proof {
                    assert(self.records() =~= rs.push(recv));
                    assert(self.records() == store_spec(rs, email@, recv.status));
                    assert(ids_distinct(self.records())) by {
                        assert forall|a: int, b: int|
                            0 <= a < b < self.records().len() implies self.records()[
                        a].status.message_id != self.records()[b].status.message_id by {
                            if b < rs.len() {
                                assert(self.records()[a] == rs[a]);
                                assert(self.records()[b] == rs[b]);
                            } else {
                                assert(self.records()[a] == rs[a]);
                                assert(!has_id(rs, recv.status.message_id));
                            }
                        }
                    }
                }
                Result::Ok(())
            },
        }
    }

    fn update_status(&mut self, status: InternalMessageStatus) -> (r: Result<
        (),
        Self::Error,
    >) {
        let ghost rs = self.records();
        let key = status.message_id.clone();
        match self.find(key.as_str()) {
            Option::None => Result::Err(MemoryStorageError::NotFound),
            Option::Some(i) => {
                proof {
                    assert(rs[i as int].status.message_id == status@.message_id) by {
                        lemma_index_of_id(rs, status@.message_id);
                    }
                }
                let old_rec = self.records.remove(i);
                let new_rec = Record {
                    email: old_rec.email,
                    status,
                    retrieved: old_rec.retrieved,
                };
                self.records.insert(i, new_rec);
                proof {
                    assert(rs[i as int] == old_rec@);
                    assert(self.records() =~= update_spec(rs, new_rec@.status));
                    assert(has_id(rs, new_rec@.status.message_id)) by {
                        assert(rs[i as int].status.message_id == new_rec@.status.message_id);
                    }
                    assert(ids_distinct(self.records())) by {
                        assert forall|a: int, b: int|
                            0 <= a < b < self.records().len() implies self.records()[
                        a].status.message_id != self.records()[b].status.message_id by {
                            if a != i {
                                assert(self.records()[a] == rs[a]);
                            }
                            if b != i {
                                assert(self.records()[b] == rs[b]);
                            }
                        }
                    }
                }
                Result::Ok(())
            },
        }
    }

    fn retrieve(&self, message_id: &str) -> (r: Result<
        (PreparedEmail, InternalMessageStatus),
        Self::Error,
    >) {
        match self.find(message_id) {
            Option::None => Result::Err(MemoryStorageError::NotFound),
            Option::Some(i) => {
                proof {
                    assert(self.records()[i as int] == self.records@[i as int]@);
                    assert(has_id(self.records(), message_id@)) by {
                        lemma_index_of_id(self.records(), message_id@);
                    }
                }
                Result::Ok((self.records[i].email.clone(), self.records[i].status.clone()))
            },
        }
    }

    fn retrieve_status(&self, message_id: &str) -> (r: Result<
        InternalMessageStatus,
        Self::Error,
    >) {
        match self.find(message_id) {
            Option::None => Result::Err(MemoryStorageError::NotFound),
            Option::Some(i) => {
                proof {
                    assert(self.records()[i as int] == self.records@[i as int]@);
                    assert(has_id(self.records(), message_id@)) by {
                        lemma_index_of_id(self.records(), message_id@);
                    }
                }
                Result::Ok(self.records[i].status.clone())
            },
        }
    }

    fn retrieve_all_incomplete(&self) -> (r: Result<Vec<InternalMessageStatus>, Self::Error>) {
        let ghost rs = self.records();
        let mut v: Vec<InternalMessageStatus> = Vec::new();
        let mut i: usize = 0;
        proof {
            assert(rs.take(0) =~= Seq::<RecordModel>::empty());
            assert(v@.map_values(|s: InternalMessageStatus| s@) =~= incomplete_statuses(
                rs.take(0),
            ));
        }
        while i < self.records.len()
            invariant
                rs == self.records(),
                rs.len() == self.records@.len(),
                0 <= i <= rs.len(),
                v@.map_values(|s: InternalMessageStatus| s@) == incomplete_statuses(
                    rs.take(i as int),
                ),
            decreases self.records.len() - i,
        {
            let ghost prev = v@.map_values(|s: InternalMessageStatus| s@);
            proof {
                assert(rs[i as int] == self.records@[i as int]@);
                assert(rs.take(i + 1).drop_last() =~= rs.take(i as int));
                assert(rs.take(i + 1).last() == rs[i as int]);
            }
            if self.records[i].status.attempts_remaining > 0 {
                v.push(self.records[i].status.clone());
                proof {
                    assert(v@.map_values(|s: InternalMessageStatus| s@) =~= prev.push(
                        rs[i as int].status,
                    ));
                    assert(prev.push(rs[i as int].status) =~= incomplete_statuses(rs.take(i + 1)));
                }
            } else {
                proof {
                    assert(incomplete_statuses(rs.take(i + 1)) =~= prev);
                }
            }
            i = i + 1;
        }
        proof {
            assert(rs.take(rs.len() as int) =~= rs);
        }
        Result::Ok(v)
    }

    fn retrieve_all_recent(&mut self) -> (r: Result<Vec<InternalMessageStatus>, Self::Error>) {
        let ghost rs = self.records();
        let mut v: Vec<InternalMessageStatus> = Vec::new();
        let mut updated: Vec<Record> = Vec::new();
        let mut i: usize = 0;
        proof {
            assert(rs.take(0) =~= Seq::<RecordModel>::empty());
            assert(v@.map_values(|s: InternalMessageStatus| s@) =~= recent_statuses(rs.take(0)));
            assert(updated@.map_values(|r: Record| r@) =~= mark_retrieved(rs.take(0)));
        }
        while i < self.records.len()
            invariant
                rs == self.records(),
                rs.len() == self.records@.len(),
                0 <= i <= rs.len(),
                v@.map_values(|s: InternalMessageStatus| s@) == recent_statuses(rs.take(i as int)),
                updated@.map_values(|r: Record| r@) == mark_retrieved(rs.take(i as int)),
            decreases self.records.len() - i,
        {
            let ghost prev = v@.map_values(|s: InternalMessageStatus| s@);
            let ghost prev_up = updated@.map_values(|r: Record| r@);
            proof {
                assert(rs[i as int] == self.records@[i as int]@);
                assert(rs.take(i + 1).drop_last() =~= rs.take(i as int));
                assert(rs.take(i + 1).last() == rs[i as int]);
                assert(mark_retrieved(rs.take(i + 1)) =~= mark_retrieved(rs.take(i as int)).push(
                    if rs[i as int].status.attempts_remaining == 0 {
                        RecordModel {
                            email: rs[i as int].email,
                            status: rs[i as int].status,
                            retrieved: true,
                        }
                    } else {
                        rs[i as int]
                    },
                ));
            }
            let rec = &self.records[i];
            if rec.status.attempts_remaining > 0 {
                v.push(rec.status.clone());
                updated.push(rec.clone());
                proof {
                    assert(v@.map_values(|s: InternalMessageStatus| s@) =~= prev.push(
                        rs[i as int].status,
                    ));
                    assert(prev.push(rs[i as int].status) =~= recent_statuses(rs.take(i + 1)));
                    assert(updated@.map_values(|r: Record| r@) =~= prev_up.push(rs[i as int]));
                }
            } else {
                if !rec.retrieved {
                    v.push(rec.status.clone());
                    proof {
                        assert(v@.map_values(|s: InternalMessageStatus| s@) =~= prev.push(
                            rs[i as int].status,
                        ));
                        assert(prev.push(rs[i as int].status) =~= recent_statuses(rs.take(i + 1)));
                    }
                } else {
                    proof {
                        assert(recent_statuses(rs.take(i + 1)) =~= prev);
                    }
                }
                let marked = Record {
                    email: rec.email.clone(),
                    status: rec.status.clone(),
                    retrieved: true,
                };
                updated.push(marked);
                proof {
                    assert(updated@.map_values(|r: Record| r@) =~= prev_up.push(
                        RecordModel {
                            email: rs[i as int].email,
                            status: rs[i as int].status,
                            retrieved: true,
                        },
                    ));
                }
            }
            proof {
                assert(updated@.map_values(|r: Record| r@) =~= mark_retrieved(rs.take(i + 1)));
            }
            i = i + 1;
        }
        self.records = updated;
        proof {
            assert(rs.take(rs.len() as int) =~= rs);
            assert(self.records() == mark_retrieved(rs));
            assert(ids_distinct(self.records())) by {
                assert forall|a: int, b: int|
                    0 <= a < b < self.records().len() implies self.records()[a].status.message_id
                    != self.records()[b].status.message_id by {
                    assert(self.records()[a].status == rs[a].status);
                    assert(self.records()[b].status == rs[b].status);
                }
            }
        }
        Result::Ok(v)
    }
}

/// A record reported by `retrieve_all_recent` comes from storage.
proof fn lemma_recent_source(rs: Seq<RecordModel>, m: MessageStatusModel)
    requires
        recent_statuses(rs).contains(m),
    ensures
        exists|j: int| 0 <= j < rs.len() && recent_includes(#[trigger] rs[j]) && rs[j].status == m,
    decreases rs.len(),
{
    if rs.len() > 0 {
        let head = recent_statuses(rs.drop_last());
        if head.contains(m) {
            lemma_recent_source(rs.drop_last(), m);
            let j = choose|j: int|
                0 <= j < rs.drop_last().len() && recent_includes(#[trigger] rs.drop_last()[j])
                    && rs.drop_last()[j].status == m;
            assert(rs[j] == rs.drop_last()[j]);
        } else {
            let k = choose|k: int| 0 <= k < recent_statuses(rs).len() && recent_statuses(rs)[k] == m;
            assert(recent_includes(rs.last()) && rs.last().status == m) by {
                if k < head.len() {
                    assert(head[k] == m);
                    assert(head.contains(m));
                }
            }
            assert(rs[rs.len() - 1] == rs.last());
        }
    }
}

/// Marking reported records keeps identifiers and statuses.
proof fn lemma_mark_retrieved_shape(rs: Seq<RecordModel>)
    ensures
        mark_retrieved(rs).len() == rs.len(),
        forall|j: int| 0 <= j < rs.len() ==> (#[trigger] mark_retrieved(rs)[j]).status == rs[
            j].status,
        forall|j: int|
            0 <= j < rs.len() ==> (#[trigger] mark_retrieved(rs)[j]).retrieved == (
            rs[j].status.attempts_remaining == 0 || rs[j].retrieved),
{
}

/// Once `retrieve_all_recent` has reported a completed message, no later
/// call of it reports that message again: after the marking pass, no
/// reported status carries the completed message's identifier.
pub proof fn lemma_recent_reports_completed_once(rs: Seq<RecordModel>, m: MessageStatusModel)
    requires
        ids_distinct(rs),
        recent_statuses(rs).contains(m),
        m.attempts_remaining == 0,
    ensures
        forall|m2: MessageStatusModel|
            recent_statuses(mark_retrieved(rs)).contains(m2) ==> m2.message_id != m.message_id,
{
    lemma_recent_source(rs, m);
    let j = choose|j: int|
        0 <= j < rs.len() && recent_includes(#[trigger] rs[j]) && rs[j].status == m;
    lemma_mark_retrieved_shape(rs);
    assert forall|m2: MessageStatusModel|
        recent_statuses(mark_retrieved(rs)).contains(m2) implies m2.message_id
        != m.message_id by {
        lemma_recent_source(mark_retrieved(rs), m2);
        let j2 = choose|j2: int|
            0 <= j2 < mark_retrieved(rs).len() && recent_includes(
                #[trigger] mark_retrieved(rs)[j2],
            ) && mark_retrieved(rs)[j2].status == m2;
        if m2.message_id == m.message_id {
            assert(mark_retrieved(rs)[j2].status == rs[j2].status);
            if j2 != j {
                assert(rs[j2].status.message_id != rs[j].status.message_id);
            } else {
                assert(mark_retrieved(rs)[j].retrieved);
                assert(mark_retrieved(rs)[j].status.attempts_remaining == 0);
                assert(!recent_includes(mark_retrieved(rs)[j]));
            }
        }
    }
}

} // verus!
