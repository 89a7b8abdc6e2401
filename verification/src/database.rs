//! The event log: the messages that the engine emits, kept per device in
//! an ordered store and read back newest first.
//!
//! What a function does to the log is stated of a log that is intact,
//! [`LogState::intact`]: one whose store no call has left half-done. A
//! call into the store that fails ends the function with the store's
//! error, and of the log nothing is stated from then on but its sequence
//! number. What a function returns for its own reasons, a record that
//! cannot be read or a name that is no text, is stated if and only if.

use vstd::prelude::*;
use vstd::string::StringSliceAdditionalSpecFns;
use vstd::slice::slice_to_vec;
use vstd::utf8::{
    valid_utf8, decode_utf8, encode_utf8, encode_utf8_valid_utf8, encode_utf8_decode_utf8,
    decode_utf8_encode_utf8,
};
use crate::bytes::{u64_be, u64_to_be_bytes};
use crate::order::{lex_lt, lemma_lex_transitive, lemma_u64_be_order};
use crate::maa_sys::MessageType;
use crate::partition::{
    Records, tail, is_vacant, is_greatest, below, up_to, keys_below, appended,
    lemma_tail_step, lemma_tail_of_vacant, lemma_below_is_up_to, lemma_whole_is_up_to,
    lemma_insert_after_all, law_read_last_reverses_appends, law_read_last_after_appends,
    law_read_last_is_bounded,
};
use crate::record::{
    record_bytes, has_header, record_time, record_kind, record_body, law_record_round_trip,
    encode_record, decode_record,
};
use crate::store::{db_trees, db_next_id, db_intact, tree_of, opened, stored, id_after};
use crate::json::{json_member, json_member_string, string_of, Member};
use crate::text::{string_from_utf8, bytes_equal};

verus! {

/// What can go wrong in the event log.
#[derive(Debug)]
pub enum DbError {
    /// The store failed.
    Sled(sled::Error),
    /// A message body is not JSON.
    SerdeJson(serde_json::Error),
    /// A stored record is too short to hold the header of a message.
    IVecNotLongEnough,
    /// The body of a stored record, or the name of a partition, is not
    /// valid UTF-8.
    InvalidUtf8String(std::string::FromUtf8Error),
}

impl From<sled::Error> for DbError {
    fn from(e: sled::Error) -> (r: DbError) {
        DbError::Sled(e)
    }
}

impl vstd::std_specs::convert::FromSpecImpl<sled::Error> for DbError {
    open spec fn obeys_from_spec() -> bool {
        true
    }

    open spec fn from_spec(e: sled::Error) -> DbError {
        DbError::Sled(e)
    }
}

impl From<serde_json::Error> for DbError {
    fn from(e: serde_json::Error) -> (r: DbError) {
        DbError::SerdeJson(e)
    }
}

impl vstd::std_specs::convert::FromSpecImpl<serde_json::Error> for DbError {
    open spec fn obeys_from_spec() -> bool {
        true
    }

    open spec fn from_spec(e: serde_json::Error) -> DbError {
        DbError::SerdeJson(e)
    }
}

impl From<std::string::FromUtf8Error> for DbError {
    fn from(e: std::string::FromUtf8Error) -> (r: DbError) {
        DbError::InvalidUtf8String(e)
    }
}

impl vstd::std_specs::convert::FromSpecImpl<std::string::FromUtf8Error> for DbError {
    open spec fn obeys_from_spec() -> bool {
        true
    }

    open spec fn from_spec(e: std::string::FromUtf8Error) -> DbError {
        DbError::InvalidUtf8String(e)
    }
}

/// One message of the engine.
#[derive(Debug)]
pub struct Msg {
    /// When the message arrived, in milliseconds since the epoch.
    pub time: i64,
    /// The kind of the message.
    pub type_: MessageType,
    /// The device that the message is about; it names the partition.
    pub uuid: String,
    /// The JSON text of the message.
    pub body: String,
}

/// A message as a value: what [`Msg`] stands for in contracts.
pub struct MsgView {
    pub time: i64,
    pub kind: i32,
    pub uuid: Seq<char>,
    pub body: Seq<char>,
}

impl View for Msg {
    type V = MsgView;

    open spec fn view(&self) -> MsgView {
        MsgView { time: self.time, kind: self.type_.0, uuid: self.uuid@, body: self.body@ }
    }
}

/// The record under which a message is stored.
pub open spec fn msg_record(msg: MsgView) -> Seq<u8> {
    record_bytes(msg.time, msg.kind, encode_utf8(msg.body))
}

/// Whether a stored record can be read as a message: it holds a header,
/// and its body is text.
pub open spec fn readable(record: Seq<u8>) -> bool {
    has_header(record) && valid_utf8(record_body(record))
}

/// The message that a readable record of the partition `uuid` holds.
pub open spec fn msg_of_record(uuid: Seq<char>, record: Seq<u8>) -> MsgView {
    MsgView {
        time: record_time(record),
        kind: record_kind(record),
        uuid,
        body: decode_utf8(record_body(record)),
    }
}

/// Storing a message and reading it back gives the message: its record is
/// readable, and the message read from it under the same partition name
/// is the one that was stored.
pub proof fn law_msg_round_trip(msg: MsgView)
    ensures
        readable(msg_record(msg)),
        msg_of_record(msg.uuid, msg_record(msg)) == msg,
{
    law_record_round_trip(msg.time, msg.kind, encode_utf8(msg.body));
    encode_utf8_valid_utf8(msg.body);
    encode_utf8_decode_utf8(msg.body);
}

impl Msg {
    /// Reads a stored record of the partition `uuid` as a message.
    ///
    /// A record of fewer than twelve bytes is refused as too short, one
    /// whose body is not UTF-8 as invalid text; every other record is
    /// read.
    pub fn from_ivec(uuid: String, ivec: &[u8]) -> (r: Result<Msg, DbError>)
        ensures
            r is Ok <==> readable(ivec@),
            r matches Ok(msg) ==> msg@ == msg_of_record(uuid@, ivec@),
            r matches Err(e) ==> (if has_header(ivec@) {
                e is InvalidUtf8String
            } else {
                e is IVecNotLongEnough
            }),
    {
        match decode_record(ivec) {
            None => Err(DbError::IVecNotLongEnough),
            Some((time, kind, body)) => match string_from_utf8(body) {
                Ok(text) => Ok(Msg { time, type_: MessageType::new(kind), uuid, body: text }),
                Err(e) => Err(DbError::InvalidUtf8String(e)),
            },
        }
    }

    /// Lays out the record under which the message is stored.
    pub fn to_ivec(&self) -> (record: Vec<u8>)
        ensures
            record@ == msg_record(self@),
    {
        encode_record(self.time, self.type_.0, self.body.as_str().as_bytes())
    }
}

/// The event log as a value: what [`MsgDb`] stands for in contracts.
pub struct LogState {
    /// All trees of the store by name, each with the records it holds.
    pub trees: Map<Seq<u8>, Records>,
    /// The sequence number that the next stored message gets.
    pub next_id: u64,
    /// Whether the store is in one piece, so that `trees` tells all that
    /// it holds. It is so until a call into it fails part-way; of a log
    /// that is not intact nothing is stated.
    pub intact: bool,
}

impl LogState {
    /// A log is well formed when each of its trees holds finitely many
    /// records, and every key in it comes before the encoding of the next
    /// sequence number, so that whatever is stored next is stored last.
    /// A log that only this crate has written to is so, until its
    /// sequence numbers run out.
    pub open spec fn wf(self) -> bool {
        &&& forall|name: Seq<u8>| #[trigger]
            self.trees.contains_key(name) ==> self.trees[name].dom().finite()
        &&& forall|name: Seq<u8>, key: Seq<u8>|
            self.trees.contains_key(name) && #[trigger] self.trees[name].contains_key(key)
                ==> lex_lt(key, u64_be(self.next_id))
    }

    /// The records of the partition of the device `uuid`, by key; none
    /// where nothing was ever stored for it.
    pub open spec fn partition(self, uuid: Seq<char>) -> Records {
        tree_of(self.trees, encode_utf8(uuid))
    }

    /// The log after `msg` was inserted.
    pub open spec fn inserted(self, msg: MsgView) -> LogState {
        LogState {
            trees: stored(
                self.trees,
                encode_utf8(msg.uuid),
                u64_be(self.next_id),
                msg_record(msg),
            ),
            next_id: id_after(self.next_id),
            intact: self.intact,
        }
    }

    /// The log after `msgs` were inserted, one after the other.
    pub open spec fn inserted_all(self, msgs: Seq<MsgView>) -> LogState
        decreases msgs.len(),
    {
        if msgs.len() == 0 {
            self
        } else {
            self.inserted_all(msgs.drop_last()).inserted(msgs.last())
        }
    }

    /// The records of the last `n` messages of the device `uuid`, the
    /// newest first.
    pub open spec fn read_last(self, uuid: Seq<char>, n: nat) -> Seq<Seq<u8>> {
        tail(self.partition(uuid), n)
    }

    /// The log after the partition of the device `uuid` was looked into.
    /// A partition is made by its first message only, never by a look: the
    /// log is as it was, but that a tree of that name which holds nothing
    /// is not kept.
    pub open spec fn looked_into(self, uuid: Seq<char>) -> LogState {
        LogState {
            trees: if is_vacant(self.partition(uuid)) {
                self.trees.remove(encode_utf8(uuid))
            } else {
                self.trees
            },
            next_id: self.next_id,
            intact: self.intact,
        }
    }
}

/// The event log of one process: the store and nothing else.
pub struct MsgDb {
    db: sled::Db,
}

impl MsgDb {
    /// Takes over a database as the event log. The log is to be reached
    /// through this value only: what is proved of the log holds as long as
    /// nothing writes to the database through a handle that was cloned
    /// from it before, which this function cannot know of.
    pub fn new(db: sled::Db) -> (log: MsgDb)
        ensures
            log.trees() == db_trees(db),
            log.next_id() == db_next_id(db),
            log.intact() == db_intact(db),
    {
        MsgDb { db }
    }

    /// Gives the database back.
    pub fn into_inner(self) -> (db: sled::Db)
        ensures
            db_trees(db) == self.trees(),
            db_next_id(db) == self.next_id(),
            db_intact(db) == self.intact(),
    {
        self.db
    }

    /// All trees of the store by name, each with the records it holds.
    pub closed spec fn trees(&self) -> Map<Seq<u8>, Records> {
        db_trees(self.db)
    }

    /// The sequence number that the next stored message gets.
    pub closed spec fn next_id(&self) -> u64 {
        db_next_id(self.db)
    }

    /// Whether the store is in one piece.
    pub closed spec fn intact(&self) -> bool {
        db_intact(self.db)
    }

    /// The records of the partition of the device `uuid`, by key; none
    /// where nothing was ever stored for it.
    pub open spec fn partition(&self, uuid: Seq<char>) -> Records {
        self@.partition(uuid)
    }
}

impl View for MsgDb {
    type V = LogState;

    open spec fn view(&self) -> LogState {
        LogState { trees: self.trees(), next_id: self.next_id(), intact: self.intact() }
    }
}

/// Inserting into a log that is well formed leaves it well formed, as long
/// as a sequence number is left.
pub proof fn lemma_inserted_wf(log: LogState, msg: MsgView)
    requires
        log.wf(),
        log.next_id < u64::MAX,
    ensures
        log.inserted(msg).wf(),
        keys_below(log.partition(msg.uuid), log.next_id),
        log.partition(msg.uuid).dom().finite(),
{
    let after = log.inserted(msg);
    let name = encode_utf8(msg.uuid);
    lemma_u64_be_order(log.next_id, after.next_id);
    assert forall|other: Seq<u8>| #[trigger] after.trees.contains_key(other) implies after.trees[other].dom().finite() by {
        if other == name {
            assert(after.trees[other].dom() =~= log.partition(msg.uuid).dom().insert(
                u64_be(log.next_id),
            ));
        } else {
            assert(log.trees.contains_key(other));
        }
    }
    assert forall|other: Seq<u8>, key: Seq<u8>|
        after.trees.contains_key(other) && #[trigger] after.trees[other].contains_key(
            key,
        ) implies lex_lt(key, u64_be(after.next_id)) by {
        if key != u64_be(log.next_id) {
            assert(log.trees.contains_key(other) && log.trees[other].contains_key(key));
            lemma_lex_transitive(key, u64_be(log.next_id), u64_be(after.next_id));
        }
    }
    assert forall|key: Seq<u8>| #[trigger] log.partition(msg.uuid).contains_key(key) implies lex_lt(
        key,
        u64_be(log.next_id),
    ) by {
        assert(log.trees.contains_key(name));
        assert(log.trees[name].contains_key(key));
    }
    if log.trees.contains_key(name) {
        assert(log.trees[name].dom().finite());
    }
}

/// A log that loses trees, or gains trees that hold nothing, stays well
/// formed.
pub proof fn lemma_wf_kept(before: LogState, after: LogState)
    requires
        before.wf(),
        after.next_id == before.next_id,
        forall|name: Seq<u8>| #[trigger]
            after.trees.contains_key(name) ==> is_vacant(after.trees[name]) || (
            before.trees.contains_key(name) && after.trees[name] == before.trees[name]),
    ensures
        after.wf(),
{
    assert forall|name: Seq<u8>| #[trigger] after.trees.contains_key(name) implies after.trees[name].dom().finite() by {
        if is_vacant(after.trees[name]) {
            assert(after.trees[name].dom() =~= Set::<Seq<u8>>::empty());
        }
    }
}

/// The sequence numbers that `count` insertions into a log get, whose
/// next sequence number is `next_id`.
pub open spec fn ids_from(next_id: u64, count: nat) -> Seq<u64> {
    Seq::new(count, |i: int| (next_id + i) as u64)
}

/// The records of `msgs`, in their order.
pub open spec fn records_of(msgs: Seq<MsgView>) -> Seq<Seq<u8>> {
    Seq::new(msgs.len(), |i: int| msg_record(msgs[i]))
}

/// What inserting messages for one device makes of the log: its
/// partition holds their records under the sequence numbers from the
/// log's next one on, the other partitions are as they were, and the log
/// is still well formed.
pub proof fn lemma_inserted_all(log: LogState, uuid: Seq<char>, msgs: Seq<MsgView>)
    requires
        log.wf(),
        log.next_id + msgs.len() <= u64::MAX,
        forall|i: int| 0 <= i < msgs.len() ==> (#[trigger] msgs[i]).uuid == uuid,
    ensures
        log.inserted_all(msgs).wf(),
        log.inserted_all(msgs).next_id == log.next_id + msgs.len(),
        log.inserted_all(msgs).partition(uuid) == appended(
            log.partition(uuid),
            ids_from(log.next_id, msgs.len()),
            records_of(msgs),
        ),
    decreases msgs.len(),
{
    if msgs.len() > 0 {
        let front = msgs.drop_last();
        let before = log.inserted_all(front);
        assert forall|i: int| 0 <= i < front.len() implies (#[trigger] front[i]).uuid == uuid by {
            assert(front[i] == msgs[i]);
        }
        lemma_inserted_all(log, uuid, front);
        lemma_inserted_wf(before, msgs.last());
        assert(msgs.last() == msgs[msgs.len() - 1]);
        assert(ids_from(log.next_id, msgs.len()).drop_last() =~= ids_from(log.next_id, front.len()));
        assert(records_of(msgs).drop_last() =~= records_of(front));
        assert(ids_from(log.next_id, msgs.len()).last() == before.next_id);
        assert(records_of(msgs).last() == msg_record(msgs.last()));
        assert(before.inserted(msgs.last()).partition(uuid) =~= before.partition(uuid).insert(
            u64_be(before.next_id),
            msg_record(msgs.last()),
        ));
    }
}

/// Messages are read back in the reverse order of their insertion: after
/// any number of messages were inserted for one device into a log that is
/// well formed, reading as many of the last messages of that device gives
/// their records, the last inserted first.
pub proof fn law_inserted_are_read_back_reversed(log: LogState, uuid: Seq<char>, msgs: Seq<MsgView>)
    requires
        log.wf(),
        log.next_id + msgs.len() <= u64::MAX,
        forall|i: int| 0 <= i < msgs.len() ==> (#[trigger] msgs[i]).uuid == uuid,
    ensures
        log.inserted_all(msgs).read_last(uuid, msgs.len()) == records_of(msgs).reverse(),
{
    lemma_inserted_all(log, uuid, msgs);
    let ids = ids_from(log.next_id, msgs.len());
    if msgs.len() > 0 {
        assert forall|key: Seq<u8>| #[trigger] log.partition(uuid).contains_key(key) implies lex_lt(
            key,
            u64_be(ids[0]),
        ) by {
            assert(log.trees.contains_key(encode_utf8(uuid)));
            assert(log.trees[encode_utf8(uuid)].contains_key(key));
        }
    }
    law_read_last_reverses_appends(log.partition(uuid), ids, records_of(msgs));
}

/// A message that was inserted is found under its sequence number: the
/// partition of its device holds a record under that number, the record
/// can be read, and the message read from it is the one inserted.
pub proof fn law_inserted_is_found(log: LogState, msg: MsgView)
    ensures
        log.inserted(msg).partition(msg.uuid).contains_key(u64_be(log.next_id)),
        log.inserted(msg).partition(msg.uuid)[u64_be(log.next_id)] == msg_record(msg),
        readable(msg_record(msg)),
        msg_of_record(msg.uuid, msg_record(msg)) == msg,
{
    law_msg_round_trip(msg);
}

/// The message inserted last is the one read first: after an insertion
/// into a log that is well formed, what is read of the device's messages
/// begins with the record of the message inserted, and goes on with what
/// was read before.
pub proof fn law_inserted_is_read_first(log: LogState, msg: MsgView, n: nat)
    requires
        log.wf(),
        log.next_id < u64::MAX,
        n > 0,
    ensures
        log.inserted(msg).read_last(msg.uuid, n) == seq![msg_record(msg)] + log.read_last(
            msg.uuid,
            (n - 1) as nat,
        ),
{
    lemma_inserted_wf(log, msg);
    let before = log.partition(msg.uuid);
    let after = log.inserted(msg).partition(msg.uuid);
    assert(after =~= before.insert(u64_be(log.next_id), msg_record(msg)));
    lemma_insert_after_all(before, log.next_id, msg_record(msg));
    lemma_tail_step(after, u64_be(log.next_id), n);
}

/// What is read after inserting messages for one device, for every number
/// asked for: the last `n` of the messages inserted, the newest first; and
/// where more are asked for than were inserted, all of them, and then what
/// was read before, as far as it is asked for.
pub proof fn law_inserted_are_read_back(log: LogState, uuid: Seq<char>, msgs: Seq<MsgView>, n: nat)
    requires
        log.wf(),
        log.next_id + msgs.len() <= u64::MAX,
        forall|i: int| 0 <= i < msgs.len() ==> (#[trigger] msgs[i]).uuid == uuid,
    ensures
        log.inserted_all(msgs).read_last(uuid, n) == if n <= msgs.len() {
            records_of(msgs).reverse().take(n as int)
        } else {
            records_of(msgs).reverse() + log.read_last(uuid, (n - msgs.len()) as nat)
        },
{
    lemma_inserted_all(log, uuid, msgs);
    let ids = ids_from(log.next_id, msgs.len());
    if msgs.len() > 0 {
        assert forall|key: Seq<u8>| #[trigger] log.partition(uuid).contains_key(key) implies lex_lt(
            key,
            u64_be(ids[0]),
        ) by {
            assert(log.trees.contains_key(encode_utf8(uuid)));
            assert(log.trees[encode_utf8(uuid)].contains_key(key));
        }
    }
    law_read_last_after_appends(log.partition(uuid), ids, records_of(msgs), n);
}

/// Asking for more messages than a device has gives all of them and
/// nothing else: what is read of a log that is well formed is as long as
/// the smaller of the number asked for and the number of records that the
/// partition holds.
pub proof fn law_reading_is_bounded(log: LogState, uuid: Seq<char>, n: nat)
    requires
        log.wf(),
    ensures
        log.partition(uuid).dom().finite(),
        log.read_last(uuid, n).len() == if n <= log.partition(uuid).dom().len() {
            n
        } else {
            log.partition(uuid).dom().len()
        },
        n >= log.partition(uuid).dom().len() ==> forall|key: Seq<u8>| #[trigger]
            log.partition(uuid).contains_key(key) ==> log.read_last(uuid, n).contains(
                log.partition(uuid)[key],
            ),
{
    if log.trees.contains_key(encode_utf8(uuid)) {
        assert(log.trees[encode_utf8(uuid)].dom().finite());
    } else {
        assert(log.partition(uuid).dom() =~= Set::<Seq<u8>>::empty());
    }
    law_read_last_is_bounded(log.partition(uuid), n);
}

/// Looking makes no partition and loses no message: a log that has no
/// tree for a device is the same log after that device was looked into,
/// no tree is there afterwards that was not there before, and every
/// device has afterwards the records that it had.
pub proof fn law_looking_makes_no_partition(log: LogState, uuid: Seq<char>)
    ensures
        !log.trees.contains_key(encode_utf8(uuid)) ==> log.looked_into(uuid) == log,
        forall|name: Seq<u8>| #[trigger]
            log.looked_into(uuid).trees.contains_key(name) ==> log.trees.contains_key(name),
        forall|other: Seq<char>| #[trigger]
            log.looked_into(uuid).partition(other) == log.partition(other),
{
    if !log.trees.contains_key(encode_utf8(uuid)) {
        assert(log.trees.remove(encode_utf8(uuid)) =~= log.trees);
    }
    assert forall|other: Seq<char>| #[trigger]
        log.looked_into(uuid).partition(other) == log.partition(other) by {
        if is_vacant(log.partition(uuid)) && encode_utf8(other) == encode_utf8(uuid) {
            assert(log.looked_into(uuid).partition(other) =~= log.partition(other));
        }
    }
}

/// A device for which nothing was ever stored has nothing to read.
pub proof fn law_missing_partition_reads_empty(log: LogState, uuid: Seq<char>, n: nat)
    requires
        !log.trees.contains_key(encode_utf8(uuid)),
    ensures
        log.read_last(uuid, n) == Seq::<Seq<u8>>::empty(),
{
    lemma_tail_of_vacant(log.partition(uuid), n);
}

/// Inserts a message into the partition of its device and returns the
/// sequence number under which it is stored.
///
/// The sequence number is the next one of the store, which moves past it.
/// The record of the message goes under the big-endian bytes of that
/// number; the partition is made if it was not there, and no other
/// partition changes. The only failures are those of the store.
pub fn insert_msg(db: &mut MsgDb, msg: &Msg) -> (r: Result<u64, DbError>)
    ensures
        final(db)@.next_id == id_after(old(db)@.next_id),
        r matches Ok(id) ==> id == old(db)@.next_id,
        r matches Err(e) ==> e is Sled,
        old(db)@.intact && r is Ok ==> {
            &&& final(db)@ == old(db)@.inserted(msg@)
            &&& old(db)@.wf() && old(db)@.next_id < u64::MAX ==> final(db)@.wf()
        },
{
    proof {
        if old(db)@.wf() && old(db)@.next_id < u64::MAX {
            lemma_inserted_wf(old(db)@, msg@);
        }
    }
    let id = match crate::store::generate_id(&mut db.db) {
        Ok(id) => id,
        Err(e) => {
            return Err(DbError::Sled(e));
        },
    };
    let key = u64_to_be_bytes(id);
    let value = msg.to_ivec();
    match crate::store::tree_insert(&mut db.db, msg.uuid.as_str(), key.as_slice(), value) {
        Ok(()) => Ok(id),
        Err(e) => Err(DbError::Sled(e)),
    }
}

/// Gets the message with the given sequence number from the partition of
/// the device `uuid`; nothing if the partition has no such message.
///
/// Looking makes no partition: where nothing is stored for the device,
/// the log lists no partition for it afterwards either.
pub fn get_msg(db: &mut MsgDb, uuid: &str, id: u64) -> (r: Result<Option<Msg>, DbError>)
    ensures
        final(db)@.next_id == old(db)@.next_id,
        r matches Err(e) ==> !(e is SerdeJson),
        old(db)@.intact && !(r matches Err(DbError::Sled(_))) ==> {
            &&& final(db)@ == old(db)@.looked_into(uuid@)
            &&& old(db)@.wf() ==> final(db)@.wf()
        },
        old(db)@.intact ==> (match r {
            Ok(Some(msg)) => {
                let records = old(db)@.partition(uuid@);
                &&& records.contains_key(u64_be(id))
                &&& readable(records[u64_be(id)])
                &&& msg@ == msg_of_record(uuid@, records[u64_be(id)])
            },
            Ok(None) => !old(db)@.partition(uuid@).contains_key(u64_be(id)),
            Err(DbError::IVecNotLongEnough) => {
                let records = old(db)@.partition(uuid@);
                records.contains_key(u64_be(id)) && !has_header(records[u64_be(id)])
            },
            Err(DbError::InvalidUtf8String(_)) => {
                let records = old(db)@.partition(uuid@);
                &&& records.contains_key(u64_be(id))
                &&& has_header(records[u64_be(id)])
                &&& !readable(records[u64_be(id)])
            },
            Err(_) => true,
        }),
{
    let ghost name = encode_utf8(uuid@);
    let ghost whole = old(db)@.partition(uuid@);
    let key = u64_to_be_bytes(id);
    let found = match crate::store::tree_get(&mut db.db, uuid, key.as_slice()) {
        Ok(found) => found,
        Err(e) => {
            return Err(DbError::Sled(e));
        },
    };
    match found {
        Some(value) => {
            proof {
                if old(db)@.intact {
                    assert(whole.contains_key(key@));
                    assert(old(db)@.trees.contains_key(name));
                }
            }
            match Msg::from_ivec(uuid.to_owned(), value.as_slice()) {
                Ok(msg) => Ok(Some(msg)),
                Err(e) => Err(e),
            }
        },
        None => {
            // Opening the tree to look has made it where it was not there.
            // It stays only if it holds something.
            proof {
                if old(db)@.intact {
                    assert(tree_of(db@.trees, name) =~= whole);
                }
            }
            match crate::store::tree_last(&mut db.db, uuid) {
                Err(e) => Err(DbError::Sled(e)),
                Ok(Some(entry)) => {
                    proof {
                        if old(db)@.intact {
                            assert(whole.contains_key(entry.0@));
                            assert(old(db)@.trees.contains_key(name));
                        }
                    }
                    Ok(None)
                },
                Ok(None) => match crate::store::drop_tree(&mut db.db, uuid) {
                    Err(e) => Err(DbError::Sled(e)),
                    Ok(_) => {
                        proof {
                            if old(db)@.intact {
                                assert(opened(opened(old(db)@.trees, name), name).remove(name)
                                    =~= old(db)@.trees.remove(name));
                                if old(db)@.wf() {
                                    lemma_wf_kept(old(db)@, db@);
                                }
                            }
                        }
                        Ok(None)
                    },
                },
            }
        },
    }
}

/// Drops the partition of the device `uuid` with all its messages.
/// Dropping a partition that is not there changes nothing.
pub fn drop(db: &mut MsgDb, uuid: &str) -> (r: Result<(), DbError>)
    ensures
        final(db)@.next_id == old(db)@.next_id,
        r matches Err(e) ==> e is Sled,
        old(db)@.intact && r is Ok ==> {
            &&& final(db)@.intact
            &&& final(db)@.trees == old(db)@.trees.remove(encode_utf8(uuid@))
            &&& old(db)@.wf() ==> final(db)@.wf()
        },
{
    match crate::store::drop_tree(&mut db.db, uuid) {
        Ok(_) => {
            proof {
                if old(db)@.intact && old(db)@.wf() {
                    lemma_wf_kept(old(db)@, db@);
                }
            }
            Ok(())
        },
        Err(e) => Err(DbError::Sled(e)),
    }
}

/// The first record of `records` that cannot be read as a message is at
/// index `at`.
pub open spec fn first_unreadable(records: Seq<Seq<u8>>, at: int) -> bool {
    &&& 0 <= at < records.len()
    &&& !readable(records[at])
    &&& forall|j: int| 0 <= j < at ==> readable(#[trigger] records[j])
}

/// `msgs` are the messages that the records `records` of the partition
/// `uuid` hold, in the same order.
pub open spec fn msgs_of_records(msgs: Seq<Msg>, uuid: Seq<char>, records: Seq<Seq<u8>>) -> bool {
    &&& msgs.len() == records.len()
    &&& forall|i: int|
        #![trigger records[i]]
        #![trigger msgs[i]]
        0 <= i < records.len() ==> readable(records[i]) && msgs[i]@ == msg_of_record(
            uuid,
            records[i],
        )
}

/// Gets the last `nums` messages of the partition of the device `uuid`,
/// the newest first; all of them where the partition holds fewer.
///
/// The partition is walked from its last key backwards. A partition that
/// holds nothing, or was never written to, gives no messages and is
/// dropped, so that reading leaves no empty partition behind. The first
/// record on the way that cannot be read ends the walk with the error
/// that says why; a failure of the store ends it as well.
pub fn get_last_msg(db: &mut MsgDb, uuid: &str, nums: usize) -> (r: Result<Vec<Msg>, DbError>)
    ensures
        final(db)@.next_id == old(db)@.next_id,
        r matches Err(e) ==> !(e is SerdeJson),
        old(db)@.intact && !(r matches Err(DbError::Sled(_))) ==> {
            &&& final(db)@.intact
            &&& old(db)@.wf() ==> final(db)@.wf()
        },
        old(db)@.intact ==> (match r {
            Ok(msgs) => {
                &&& msgs_of_records(msgs@, uuid@, old(db)@.read_last(uuid@, nums as nat))
                &&& final(db)@ == old(db)@.looked_into(uuid@)
            },
            Err(DbError::IVecNotLongEnough) => {
                let records = old(db)@.read_last(uuid@, nums as nat);
                &&& final(db)@ == old(db)@
                &&& exists|at: int| first_unreadable(records, at) && !has_header(records[at])
            },
            Err(DbError::InvalidUtf8String(_)) => {
                let records = old(db)@.read_last(uuid@, nums as nat);
                &&& final(db)@ == old(db)@
                &&& exists|at: int| first_unreadable(records, at) && has_header(records[at])
            },
            Err(_) => true,
        }),
{
    let ghost sound = old(db)@.intact;
    let ghost name = encode_utf8(uuid@);
    let ghost whole = old(db)@.partition(uuid@);
    let ghost wanted = tail(whole, nums as nat);
    let mut msgs: Vec<Msg> = Vec::new();
    let mut cursor = match crate::store::tree_last(&mut db.db, uuid) {
        Err(e) => {
            return Err(DbError::Sled(e));
        },
        Ok(None) => {
            return match crate::store::drop_tree(&mut db.db, uuid) {
                Ok(_) => {
                    proof {
                        if sound {
                            lemma_tail_of_vacant(whole, nums as nat);
                            assert(opened(old(db)@.trees, name).remove(name)
                                =~= old(db)@.trees.remove(name));
                            if old(db)@.wf() {
                                lemma_wf_kept(old(db)@, db@);
                            }
                        }
                    }
                    Ok(msgs)
                },
                Err(e) => Err(DbError::Sled(e)),
            };
        },
        Ok(Some(entry)) => entry,
    };
    proof {
        if sound {
            assert(whole.contains_key(cursor.0@));
            assert(old(db)@.trees.contains_key(name));
            lemma_whole_is_up_to(whole, cursor.0@);
        }
    }
    if nums == 0 {
        return Ok(msgs);
    }
    loop
        invariant
            sound == old(db)@.intact,
            db@.next_id == old(db)@.next_id,
            name == encode_utf8(uuid@),
            msgs@.len() < nums,
            sound ==> {
                &&& db@ == old(db)@
                &&& whole == old(db)@.partition(uuid@)
                &&& old(db)@.trees.contains_key(name)
                &&& !is_vacant(whole)
                &&& wanted == tail(whole, nums as nat)
                &&& is_greatest(up_to(whole, cursor.0@), cursor.0@)
                &&& whole[cursor.0@] == cursor.1@
                &&& msgs@.len() <= wanted.len()
                &&& msgs_of_records(msgs@, uuid@, wanted.take(msgs@.len() as int))
                &&& wanted == wanted.take(msgs@.len() as int) + tail(
                    up_to(whole, cursor.0@),
                    (nums - msgs@.len()) as nat,
                )
            },
        decreases nums - msgs@.len(),
    {
        let ghost done = msgs@.len() as int;
        let ghost rest = up_to(whole, cursor.0@);
        proof {
            if sound {
                lemma_tail_step(rest, cursor.0@, (nums - done) as nat);
                assert(rest[cursor.0@] == cursor.1@);
                assert(wanted[done] == cursor.1@);
            }
        }
        let msg = match Msg::from_ivec(uuid.to_owned(), cursor.1.as_slice()) {
            Ok(msg) => msg,
            Err(e) => {
                proof {
                    if sound {
                        assert forall|j: int| 0 <= j < done implies readable(
                            #[trigger] wanted[j],
                        ) by {
                            assert(wanted.take(done)[j] == wanted[j]);
                        }
                        assert(first_unreadable(wanted, done));
                        assert(wanted == old(db)@.read_last(uuid@, nums as nat));
                        assert(has_header(wanted[done]) <==> e is InvalidUtf8String);
                    }
                }
                return Err(e);
            },
        };
        msgs.push(msg);
        proof {
            if sound {
                assert forall|i: int| 0 <= i < done + 1 implies readable(
                    #[trigger] wanted.take(done + 1)[i],
                ) && msgs@[i]@ == msg_of_record(uuid@, wanted.take(done + 1)[i]) by {
                    if i < done {
                        assert(wanted.take(done)[i] == wanted[i]);
                    }
                }
            }
        }
        if msgs.len() >= nums {
            proof {
                if sound {
                    assert(wanted =~= wanted.take(done + 1));
                }
            }
            return Ok(msgs);
        }
        match crate::store::tree_get_lt(&mut db.db, uuid, cursor.0.as_slice()) {
            Err(e) => {
                return Err(DbError::Sled(e));
            },
            Ok(None) => {
                proof {
                    if sound {
                        assert(below(rest, cursor.0@) =~= below(whole, cursor.0@));
                        lemma_tail_of_vacant(below(rest, cursor.0@), (nums - done - 1) as nat);
                        assert(wanted =~= wanted.take(done + 1));
                        assert(opened(old(db)@.trees, name) == old(db)@.trees);
                    }
                }
                return Ok(msgs);
            },
            Ok(Some(entry)) => {
                proof {
                    if sound {
                        assert(below(rest, cursor.0@) =~= below(whole, cursor.0@));
                        lemma_below_is_up_to(whole, cursor.0@, entry.0@);
                        assert(wanted.take(done + 1) =~= wanted.take(done) + seq![cursor.1@]);
                        assert(opened(old(db)@.trees, name) == old(db)@.trees);
                    }
                }
                cursor = entry;
            },
        }
    }
}

/// The name of the tree that the store keeps for itself. It is no
/// partition of the log.
pub open spec fn default_tree() -> Seq<u8> {
    encode_utf8("__sled__default"@)
}

/// Every name of `names` is text.
pub open spec fn all_text(names: Seq<Seq<u8>>) -> bool {
    forall|i: int| 0 <= i < names.len() ==> valid_utf8(#[trigger] names[i])
}

/// The partitions among the tree names `names`: each name but that of the
/// store's own tree, as text, in the order of `names`.
pub open spec fn listed(names: Seq<Seq<u8>>) -> Seq<Seq<char>>
    decreases names.len(),
{
    if names.len() == 0 {
        Seq::empty()
    } else if names.last() == default_tree() {
        listed(names.drop_last())
    } else {
        listed(names.drop_last()).push(decode_utf8(names.last()))
    }
}

/// The device `uuid` has a partition among `trees`.
pub open spec fn is_partition(trees: Map<Seq<u8>, Records>, uuid: Seq<char>) -> bool {
    trees.contains_key(encode_utf8(uuid)) && encode_utf8(uuid) != default_tree()
}

/// What [`listed`] holds, for names that are text and occur once each: a
/// device is listed if and only if its encoded name is among the names
/// and is not the store's own; and no device is listed twice.
pub proof fn lemma_listed(names: Seq<Seq<u8>>)
    requires
        all_text(names),
        names.no_duplicates(),
    ensures
        listed(names).no_duplicates(),
        forall|uuid: Seq<char>| #[trigger]
            listed(names).contains(uuid) <==> names.contains(encode_utf8(uuid)) && encode_utf8(uuid)
                != default_tree(),
    decreases names.len(),
{
    if names.len() > 0 {
        let front = names.drop_last();
        let last = names.last();
        lemma_listed(front);
        decode_utf8_encode_utf8(last);
        assert forall|uuid: Seq<char>| #[trigger]
            listed(names).contains(uuid) <==> names.contains(encode_utf8(uuid)) && encode_utf8(uuid)
                != default_tree() by {
            encode_utf8_decode_utf8(uuid);
            if listed(names).contains(uuid) {
                if listed(front).contains(uuid) {
                    let j = choose|j: int| 0 <= j < front.len() && front[j] == encode_utf8(uuid);
                    assert(names[j] == encode_utf8(uuid));
                } else {
                    assert(last != default_tree());
                    let j = choose|j: int| 0 <= j < listed(names).len() && listed(names)[j] == uuid;
                    assert(uuid == decode_utf8(last));
                    assert(names[names.len() - 1] == encode_utf8(uuid));
                }
            }
            if names.contains(encode_utf8(uuid)) && encode_utf8(uuid) != default_tree() {
                let j = choose|j: int| 0 <= j < names.len() && names[j] == encode_utf8(uuid);
                if j < front.len() {
                    assert(front[j] == encode_utf8(uuid));
                    assert(listed(front).contains(uuid));
                    let at = choose|at: int| 0 <= at < listed(front).len() && listed(front)[at] == uuid;
                    assert(listed(names)[at] == uuid);
                } else {
                    assert(listed(names)[listed(names).len() - 1] == uuid);
                }
            }
        }
        if last != default_tree() {
            if listed(front).contains(decode_utf8(last)) {
                let j = choose|j: int| 0 <= j < front.len() && front[j] == last;
                assert(names[j] == names[names.len() - 1]);
            }
        }
    }
}

/// Tells the partitions among the names of the store's trees: the names
/// as text, in their order, without the name of the store's own tree.
/// A name that is not UTF-8 is an error.
pub fn partition_names(names: &Vec<Vec<u8>>) -> (r: Result<Vec<String>, DbError>)
    ensures
        r is Ok <==> all_text(names.deep_view()),
        r matches Ok(uuids) ==> uuids.deep_view() == listed(names.deep_view()),
        r matches Err(e) ==> e is InvalidUtf8String,
{
    let reserved = "__sled__default";
    let mut uuids: Vec<String> = Vec::new();
    let mut i: usize = 0;
    while i < names.len()
        invariant
            i <= names@.len(),
            reserved@ == "__sled__default"@,
            all_text(names.deep_view().take(i as int)),
            uuids.deep_view() == listed(names.deep_view().take(i as int)),
        decreases names@.len() - i,
    {
        let ghost seen = names.deep_view().take(i as int);
        let ghost next = names.deep_view().take(i + 1);
        proof {
            assert(next.drop_last() =~= seen);
            assert(next.last() == names@[i as int]@);
        }
        let text = match string_from_utf8(slice_to_vec(names[i].as_slice())) {
            Ok(text) => text,
            Err(e) => {
                proof {
                    assert(!valid_utf8(names.deep_view()[i as int]));
                }
                return Err(DbError::InvalidUtf8String(e));
            },
        };
        if !bytes_equal(names[i].as_slice(), reserved.as_bytes()) {
            uuids.push(text);
            proof {
                assert(uuids.deep_view() =~= listed(seen).push(decode_utf8(next.last())));
            }
        }
        proof {
            assert forall|j: int| 0 <= j < next.len() implies valid_utf8(#[trigger] next[j]) by {
                if j < i {
                    assert(seen[j] == next[j]);
                }
            }
        }
        i += 1;
    }
    proof {
        assert(names.deep_view().take(i as int) =~= names.deep_view());
    }
    Ok(uuids)
}

/// Gets the devices that have a partition in the log, each once, in no
/// particular order. The tree that the store keeps for itself is not
/// among them. A tree whose name is not UTF-8 is an error.
pub fn get_all_uuid(db: &MsgDb) -> (r: Result<Vec<String>, DbError>)
    ensures
        r matches Err(e) ==> e is InvalidUtf8String,
        db@.intact ==> {
            &&& (r is Ok) <==> (forall|name: Seq<u8>| #[trigger]
                db@.trees.contains_key(name) ==> valid_utf8(name))
            &&& r matches Ok(uuids) ==> {
                &&& uuids.deep_view().no_duplicates()
                &&& forall|uuid: Seq<char>|
                    #![trigger uuids.deep_view().contains(uuid)]
                    #![trigger is_partition(db@.trees, uuid)]
                    uuids.deep_view().contains(uuid) <==> is_partition(db@.trees, uuid)
            }
        },
{
    let names = crate::store::tree_names(&db.db);
    proof {
        if db@.intact {
            let all = names.deep_view();
            assert forall|name: Seq<u8>| all.contains(name) <==> db@.trees.contains_key(name) by {
                assert(all.to_set().contains(name) <==> all.contains(name));
            }
            if all_text(all) {
                lemma_listed(all);
                assert forall|name: Seq<u8>| #[trigger]
                    db@.trees.contains_key(name) implies valid_utf8(name) by {
                    let j = choose|j: int| 0 <= j < all.len() && all[j] == name;
                }
            } else {
                let j = choose|j: int| 0 <= j < all.len() && !valid_utf8(#[trigger] all[j]);
                assert(all.contains(all[j]));
            }
        }
    }
    partition_names(&names)
}

/// The encoded names of the first `upto` devices of `uuids`.
pub open spec fn names_until(uuids: Seq<Seq<char>>, upto: int) -> Set<Seq<u8>> {
    Set::new(|name: Seq<u8>| exists|j: int| 0 <= j < upto && name == encode_utf8(#[trigger] uuids[j]))
}

/// Drops every partition of the log. The tree that the store keeps for
/// itself stays as it is.
///
/// Where the name of some tree is not UTF-8, that is the error, and
/// nothing is dropped; where every name is, the only failure is that of
/// the store, which ends the work where it stands.
pub fn drop_all(db: &mut MsgDb) -> (r: Result<(), DbError>)
    ensures
        final(db)@.next_id == old(db)@.next_id,
        r matches Err(e) ==> e is Sled || e is InvalidUtf8String,
        r matches Err(DbError::InvalidUtf8String(_)) ==> final(db)@ == old(db)@,
        old(db)@.intact ==> {
            &&& (r matches Err(DbError::InvalidUtf8String(_))) <==> (exists|name: Seq<u8>|
                old(db)@.trees.contains_key(name) && !valid_utf8(name))
            &&& r is Ok ==> {
                &&& final(db)@.intact
                &&& final(db)@.trees == old(db)@.trees.restrict(
                    Set::empty().insert(default_tree()),
                )
                &&& old(db)@.wf() ==> final(db)@.wf()
            }
        },
{
    let ghost sound = old(db)@.intact;
    let uuids = match get_all_uuid(db) {
        Ok(uuids) => uuids,
        Err(e) => {
            return Err(e);
        },
    };
    let mut i: usize = 0;
    while i < uuids.len()
        invariant
            i <= uuids@.len(),
            sound == old(db)@.intact,
            db@.next_id == old(db)@.next_id,
            sound ==> {
                &&& db@.intact
                &&& db@.trees == old(db)@.trees.remove_keys(
                    names_until(uuids.deep_view(), i as int),
                )
                &&& forall|name: Seq<u8>| #[trigger]
                    old(db)@.trees.contains_key(name) ==> valid_utf8(name)
            },
        decreases uuids@.len() - i,
    {
        let ghost before = db@.trees;
        match crate::store::drop_tree(&mut db.db, uuids[i].as_str()) {
            Ok(_) => {},
            Err(e) => {
                return Err(DbError::Sled(e));
            },
        }
        proof {
            if sound {
                let name = encode_utf8(uuids@[i as int]@);
                assert(name == encode_utf8(uuids.deep_view()[i as int]));
                assert(names_until(uuids.deep_view(), i + 1) =~= names_until(
                    uuids.deep_view(),
                    i as int,
                ).insert(name));
                assert(before.remove(name) =~= old(db)@.trees.remove_keys(
                    names_until(uuids.deep_view(), i + 1),
                ));
            }
        }
        i += 1;
    }
    proof {
        if sound {
            let all = uuids.deep_view();
            let kept = old(db)@.trees.restrict(Set::empty().insert(default_tree()));
            assert forall|name: Seq<u8>| db@.trees.contains_key(name) <==> kept.contains_key(
                name,
            ) by {
                if old(db)@.trees.contains_key(name) {
                    if name != default_tree() {
                        decode_utf8_encode_utf8(name);
                        assert(is_partition(old(db)@.trees, decode_utf8(name)));
                        assert(all.contains(decode_utf8(name)));
                        let j = choose|j: int| 0 <= j < all.len() && all[j] == decode_utf8(name);
                        assert(name == encode_utf8(all[j]));
                        assert(names_until(all, i as int).contains(name));
                    } else {
                        if names_until(all, i as int).contains(name) {
                            let j = choose|j: int|
                                0 <= j < i && name == encode_utf8(#[trigger] all[j]);
                            assert(all.contains(all[j]));
                            assert(is_partition(old(db)@.trees, all[j]));
                        }
                    }
                }
            }
            assert(db@.trees == old(db)@.trees.remove_keys(names_until(all, i as int)));
            assert(db@.trees.dom() =~= kept.dom());
            assert(db@.trees =~= kept);
            if old(db)@.wf() {
                lemma_wf_kept(old(db)@, db@);
            }
        }
    }
    Ok(())
}

/// The message that the engine's report `detail_json` of the kind `kind`
/// makes at the time `now`, where it names the device `uuid`.
pub open spec fn event(now: i64, kind: i32, uuid: Seq<char>, detail_json: Seq<char>) -> MsgView {
    MsgView { time: now, kind, uuid, body: detail_json }
}

/// The name of the partition that a member `uuid` stands for: the device
/// identifier that it holds where it is a string, so that a device's
/// messages are found under the identifier that its session reports;
/// its JSON text where it is of another kind.
pub open spec fn key_of(json: Seq<char>, string: Option<Seq<char>>) -> Seq<char> {
    match string {
        Some(identifier) => identifier,
        None => json,
    }
}

/// The partition that the engine's report `detail_json` belongs to:
/// nothing where the report is not JSON; no partition where it has no
/// member `uuid`; else the partition that the member stands for.
pub open spec fn event_key(detail_json: Seq<char>) -> Option<Option<Seq<char>>> {
    match (json_member(detail_json, "uuid"@), json_member_string(detail_json, "uuid"@)) {
        (Some(Some(json)), Some(string)) => Some(Some(key_of(json, string))),
        (Some(Some(json)), None) => Some(Some(json)),
        (Some(None), _) => Some(None),
        (None, _) => None,
    }
}

/// Tells the name of the partition that a member `uuid` stands for.
pub fn device_key(member: Member) -> (key: String)
    ensures
        key@ == key_of(member.json@, string_of(member)),
{
    match member.string {
        Some(identifier) => identifier,
        None => member.json,
    }
}

/// Stores the message that the engine emitted at the time `now`.
///
/// The partition is named by the member `uuid` of the message's JSON
/// text, as [`device_key`] tells. A message that is not JSON is refused;
/// one without that member is dropped without a trace; every other is
/// inserted as [`insert_msg`] does, and its sequence number returned.
pub fn store_event(db: &mut MsgDb, now: i64, msg: MessageType, detail_json: &str) -> (r: Result<
    Option<u64>,
    DbError,
>)
    ensures
        match event_key(detail_json@) {
            None => r matches Err(DbError::SerdeJson(_)) && final(db)@ == old(db)@,
            Some(None) => r == Ok::<Option<u64>, DbError>(None) && final(db)@ == old(db)@,
            Some(Some(uuid)) => {
                &&& final(db)@.next_id == id_after(old(db)@.next_id)
                &&& match r {
                    Ok(Some(id)) => {
                        &&& id == old(db)@.next_id
                        &&& old(db)@.intact ==> {
                            &&& final(db)@ == old(db)@.inserted(
                                event(now, msg.0, uuid, detail_json@),
                            )
                            &&& old(db)@.wf() && id < u64::MAX ==> final(db)@.wf()
                        }
                    },
                    Ok(None) => false,
                    Err(e) => e is Sled,
                }
            },
        },
{
    let uuid = match crate::json::member(detail_json, "uuid") {
        Err(e) => {
            return Err(DbError::SerdeJson(e));
        },
        Ok(None) => {
            return Ok(None);
        },
        Ok(Some(found)) => device_key(found),
    };
    let msg = Msg { time: now, type_: msg, uuid, body: detail_json.to_owned() };
    match insert_msg(db, &msg) {
        Ok(id) => Ok(Some(id)),
        Err(e) => Err(e),
    }
}

/// Stores the message that the engine emitted at the time `now` in the
/// log. Whatever goes wrong is swallowed: the engine that calls back
/// expects no answer and could not handle one.
///
/// A message that is not JSON or names no device leaves the log as it
/// was; for every other the store's sequence number moves on by one, and
/// the message is in the log unless the store failed.
pub fn maa_store_callback(db: &mut MsgDb, now: i64, msg: MessageType, detail_json: &str)
    ensures
        match event_key(detail_json@) {
            Some(Some(uuid)) => final(db)@.next_id == id_after(old(db)@.next_id),
            _ => final(db)@ == old(db)@,
        },
{
    let _ = store_event(db, now, msg, detail_json);
}

} // verus!
