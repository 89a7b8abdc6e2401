//! The registry of the sessions that are alive, and the errors that the
//! server answers with.

use std::collections::HashMap;
use vstd::prelude::*;
use vstd::std_specs::hash::*;
use vstd::std_specs::iter::IteratorSpec;
use crate::database::DbError;
use crate::maa_sys::{Maa, MaaError};

pub mod task;

verus! {

broadcast use group_hash_axioms;

/// What the server answers when a request fails.
#[derive(Debug, PartialEq, Eq, Structural, Clone, Copy)]
pub enum ApiError {
    /// Something failed below the server: the event log or the engine.
    Internal,
    /// No session is alive under the id of the request.
    InstanceNotFound,
    /// The request does not make sense.
    InvalidRequest,
}

/// The text that tells a client what went wrong.
pub open spec fn error_message(e: ApiError) -> Seq<char> {
    match e {
        ApiError::Internal => "Internal Error"@,
        ApiError::InstanceNotFound => "Instance Not Found"@,
        ApiError::InvalidRequest => "Invalid Request"@,
    }
}

impl ApiError {
    /// The text that tells a client what went wrong.
    pub fn message(&self) -> (text: &'static str)
        ensures
            text@ == error_message(*self),
    {
        match self {
            ApiError::Internal => "Internal Error",
            ApiError::InstanceNotFound => "Instance Not Found",
            ApiError::InvalidRequest => "Invalid Request",
        }
    }

    /// The status with which the server answers a failed request. The
    /// failure is told in the body; the status is always the same.
    pub fn status_code(&self) -> (status: u16)
        ensures
            status == 200,
    {
        200
    }
}

/// Every failure of the event log is internal to the server.
impl From<DbError> for ApiError {
    fn from(e: DbError) -> (r: ApiError) {
        ApiError::Internal
    }
}

impl vstd::std_specs::convert::FromSpecImpl<DbError> for ApiError {
    open spec fn obeys_from_spec() -> bool {
        true
    }

    open spec fn from_spec(e: DbError) -> ApiError {
        ApiError::Internal
    }
}

/// Every failure of a session is internal to the server.
impl From<MaaError> for ApiError {
    fn from(e: MaaError) -> (r: ApiError) {
        ApiError::Internal
    }
}

impl vstd::std_specs::convert::FromSpecImpl<MaaError> for ApiError {
    open spec fn obeys_from_spec() -> bool {
        true
    }

    open spec fn from_spec(e: MaaError) -> ApiError {
        ApiError::Internal
    }
}

/// What the parameters of a task are, as the request gave them.
#[derive(Debug, PartialEq, Eq, Structural, Clone, Copy)]
pub enum ParamsKind {
    /// No parameters at all.
    Null,
    /// An object.
    Object,
    /// Any other JSON value.
    Other,
}

/// The parameters to hand to a session for a task: the text of an object
/// as it is, an empty object for no parameters. Anything else is no
/// parameters of a task.
pub fn task_params(kind: ParamsKind, text: String) -> (r: Result<String, ApiError>)
    ensures
        match kind {
            ParamsKind::Null => r matches Ok(params) && params@ == "{}"@,
            ParamsKind::Object => r matches Ok(params) && params@ == text@,
            ParamsKind::Other => r == Err::<String, ApiError>(ApiError::InvalidRequest),
        },
{
    match kind {
        ParamsKind::Null => Ok("{}".to_owned()),
        ParamsKind::Object => Ok(text),
        ParamsKind::Other => Err(ApiError::InvalidRequest),
    }
}

/// The number of messages to read where the request names `nums`: as
/// many as can be named where it names none. The number is taken as it
/// is, so that a negative one wraps around to a large one.
pub fn message_count(nums: Option<i64>) -> (count: usize)
    ensures
        count == match nums {
            Some(n) => n as usize,
            None => i64::MAX as usize,
        },
{
    match nums {
        Some(n) => #[verifier::truncate] (n as usize),
        None => #[verifier::truncate] (i64::MAX as usize),
    }
}

/// A point on the screen of the device.
#[derive(Debug, PartialEq, Eq, Structural, Clone, Copy)]
pub struct Coord {
    pub x: i32,
    pub y: i32,
}

/// The sessions that are alive, as a value: the ids in use, and the id
/// that was given out last.
pub struct Registry {
    pub live: Set<i64>,
    pub last: i64,
}

impl Registry {
    /// Every id in use was given out: it is positive and not after the
    /// last one.
    pub open spec fn wf(self) -> bool {
        &&& 0 <= self.last
        &&& forall|id: i64| #[trigger] self.live.contains(id) ==> 0 < id <= self.last
    }

    /// The id that the next session gets.
    pub open spec fn next_id(self) -> i64 {
        (self.last + 1) as i64
    }

    /// The registry after a session was created.
    pub open spec fn created(self) -> Registry {
        Registry { live: self.live.insert(self.next_id()), last: self.next_id() }
    }

    /// The registry after the session `id` was deleted.
    pub open spec fn deleted(self, id: i64) -> Registry {
        Registry { live: self.live.remove(id), last: self.last }
    }
}

/// What a client asks of the registry.
pub enum Request {
    /// To create a session.
    Create,
    /// To delete the session under this id.
    Delete(i64),
}

/// The registry after it served `requests`, one after the other.
pub open spec fn served(start: Registry, requests: Seq<Request>) -> Registry
    decreases requests.len(),
{
    if requests.len() == 0 {
        start
    } else {
        let before = served(start, requests.drop_last());
        match requests.last() {
            Request::Create => before.created(),
            Request::Delete(id) => before.deleted(id),
        }
    }
}

/// The ids that the registry gave out while it served `requests`, in the
/// order in which it gave them out.
pub open spec fn given_out(start: Registry, requests: Seq<Request>) -> Seq<i64>
    decreases requests.len(),
{
    if requests.len() == 0 {
        Seq::empty()
    } else {
        let ids = given_out(start, requests.drop_last());
        match requests.last() {
            Request::Create => ids.push(served(start, requests.drop_last()).next_id()),
            Request::Delete(_) => ids,
        }
    }
}

/// Ids only go up, one by one: whatever sessions are created and deleted
/// in between, the ids that the registry gives out are the numbers after
/// the one it gave out last, in their order. So each is greater than the
/// one before and than every id that was in use at the start, no id is
/// used twice, and none comes back after its session was deleted.
pub proof fn law_ids_increase(start: Registry, requests: Seq<Request>)
    requires
        start.wf(),
        start.last + requests.len() <= i64::MAX,
    ensures
        served(start, requests).wf(),
        served(start, requests).last == start.last + given_out(start, requests).len(),
        given_out(start, requests).len() <= requests.len(),
        forall|i: int|
            0 <= i < given_out(start, requests).len() ==> #[trigger] given_out(start, requests)[i]
                == start.last + 1 + i,
        forall|i: int|
            0 <= i < given_out(start, requests).len() ==> !start.live.contains(
                #[trigger] given_out(start, requests)[i],
            ),
        forall|i: int, j: int|
            0 <= i < j < given_out(start, requests).len() ==> given_out(start, requests)[i]
                < given_out(start, requests)[j],
    decreases requests.len(),
{
    let ids = given_out(start, requests);
    if requests.len() > 0 {
        let front = requests.drop_last();
        law_ids_increase(start, front);
        let before = served(start, front);
        let earlier = given_out(start, front);
        match requests.last() {
            Request::Create => {
                assert forall|id: i64| #[trigger]
                    before.created().live.contains(id) implies 0 < id <= before.created().last by {
                    if id != before.next_id() {
                        assert(before.live.contains(id));
                    }
                }
                assert(ids == earlier.push(before.next_id()));
                assert forall|i: int| 0 <= i < ids.len() implies #[trigger] ids[i] == start.last + 1
                    + i by {
                    if i < earlier.len() {
                        assert(ids[i] == earlier[i]);
                    }
                }
            },
            Request::Delete(gone) => {
                assert forall|id: i64| #[trigger]
                    before.deleted(gone).live.contains(id) implies 0 < id <= before.deleted(
                    gone,
                ).last by {
                    assert(before.live.contains(id));
                }
            },
        }
    }
    assert forall|i: int| 0 <= i < ids.len() implies !start.live.contains(#[trigger] ids[i]) by {
        if start.live.contains(ids[i]) {
            assert(ids[i] <= start.last);
        }
    }
}

/// Who was alive stays alive: serving requests takes out of use the ids
/// that were deleted and no other, and puts into use the ids given out
/// and no other.
pub proof fn law_live_sessions(start: Registry, requests: Seq<Request>, id: i64)
    requires
        start.wf(),
        start.last + requests.len() <= i64::MAX,
        forall|i: int| 0 <= i < requests.len() ==> #[trigger] requests[i] != Request::Delete(id),
    ensures
        served(start, requests).live.contains(id) <==> start.live.contains(id) || given_out(
            start,
            requests,
        ).contains(id),
    decreases requests.len(),
{
    if requests.len() > 0 {
        let front = requests.drop_last();
        assert forall|i: int| 0 <= i < front.len() implies #[trigger] front[i] != Request::Delete(
            id,
        ) by {
            assert(front[i] == requests[i]);
        }
        law_live_sessions(start, front, id);
        let earlier = given_out(start, front);
        let ids = given_out(start, requests);
        assert(requests.last() == requests[requests.len() - 1]);
        match requests.last() {
            Request::Create => {
                assert(ids == earlier.push(served(start, front).next_id()));
                if earlier.contains(id) {
                    let at = choose|at: int| 0 <= at < earlier.len() && earlier[at] == id;
                    assert(ids[at] == id);
                }
                if ids.contains(id) {
                    let at = choose|at: int| 0 <= at < ids.len() && ids[at] == id;
                    if at < earlier.len() {
                        assert(earlier[at] == id);
                    }
                }
                if id == served(start, front).next_id() {
                    assert(ids[ids.len() - 1] == id);
                }
            },
            Request::Delete(gone) => {},
        }
    }
}

/// The id that a registry gives out next is not in use.
pub proof fn law_next_id_is_fresh(registry: Registry)
    requires
        registry.wf(),
        registry.last < i64::MAX,
    ensures
        !registry.live.contains(registry.next_id()),
        registry.created().wf(),
{
    if registry.live.contains(registry.next_id()) {
        assert(registry.next_id() <= registry.last);
    }
    assert forall|id: i64| #[trigger] registry.created().live.contains(id) implies 0 < id
        <= registry.created().last by {
        if id != registry.next_id() {
            assert(registry.live.contains(id));
        }
    }
}

/// Deleting a session twice is deleting it once: after the first time no
/// session is under the id, and the second time changes nothing.
pub proof fn law_delete_is_idempotent(registry: Registry, id: i64)
    ensures
        !registry.deleted(id).live.contains(id),
        registry.deleted(id).deleted(id) == registry.deleted(id),
        registry.deleted(id).next_id() == registry.next_id(),
{
    assert(registry.live.remove(id).remove(id) =~= registry.live.remove(id));
}

/// `HashMap::get_mut`: the entry under `id`, to be changed in place. What
/// the caller leaves behind the reference is what the map then holds
/// under `id`; no other entry changes. Taken on trust from the standard
/// library's documentation.
#[verifier::external_body]
fn entry_mut(instances: &mut HashMap<i64, Maa>, id: i64) -> (r: Option<&mut Maa>)
    ensures
        match r {
            Some(maa) => {
                &&& old(instances)@.contains_key(id)
                &&& *maa == old(instances)@[id]
                &&& final(instances)@ == old(instances)@.insert(id, *final(maa))
            },
            None => !old(instances)@.contains_key(id) && final(instances)@ == old(instances)@,
        },
{
    instances.get_mut(&id)
}

/// The registry of the sessions that are alive, each under its id.
pub struct MaaManager {
    instances: HashMap<i64, Maa>,
    id: i64,
}

impl MaaManager {
    /// The sessions that are alive, by id.
    pub closed spec fn instances(&self) -> Map<i64, Maa> {
        self.instances@
    }

    /// The id that was given out last; zero before the first.
    pub closed spec fn last_id(&self) -> i64 {
        self.id
    }

    /// The ids in use and the id given out last.
    pub open spec fn registry(&self) -> Registry {
        Registry { live: self.instances().dom(), last: self.last_id() }
    }

    /// Every session is under an id that was given out. A registry is made
    /// so and stays so.
    pub open spec fn wf(&self) -> bool {
        self.registry().wf()
    }

    /// A registry without sessions.
    pub fn new() -> (manager: MaaManager)
        ensures
            manager.instances() == Map::<i64, Maa>::empty(),
            manager.last_id() == 0,
            manager.wf(),
    {
        MaaManager { instances: HashMap::new(), id: 0 }
    }

    /// The session that is alive under `id`.
    pub fn get(&self, id: i64) -> (r: Option<&Maa>)
        ensures
            match r {
                Some(maa) => self.instances().contains_key(id) && *maa == self.instances()[id],
                None => !self.instances().contains_key(id),
            },
    {
        self.instances.get(&id)
    }

    /// The session that is alive under `id`, to be worked on. The
    /// registry holds whatever the caller makes of it; nothing else
    /// changes.
    pub fn get_mut(&mut self, id: i64) -> (r: Option<&mut Maa>)
        ensures
            final(self).last_id() == old(self).last_id(),
            final(self).instances().dom() == old(self).instances().dom(),
            match r {
                Some(maa) => {
                    &&& old(self).instances().contains_key(id)
                    &&& *maa == old(self).instances()[id]
                    &&& final(self).instances() == old(self).instances().insert(id, *final(maa))
                },
                None => !old(self).instances().contains_key(id) && final(self).instances() == old(
                    self,
                ).instances(),
            },
    {
        let r = entry_mut(&mut self.instances, id);
        proof {
            if r is Some {
                assert(old(self).instances@.insert(id, *final(r->0)).dom() =~= old(
                    self,
                ).instances@.dom());
            }
        }
        r
    }

    /// The ids of the sessions that are alive, each once, in no
    /// particular order.
    pub fn get_all_id(&self) -> (ids: Vec<i64>)
        ensures
            ids@.no_duplicates(),
            ids@.to_set() == self.instances().dom(),
    {
        let mut ids: Vec<i64> = Vec::new();
        let ghost all = self.instances.keys().remaining().unref();
        proof {
            assert(self.instances.keys().remaining().unref().to_set() == self.instances@.dom());
        }
        for id in walk: self.instances.keys()
            invariant
                all == walk.seq().unref(),
                ids@ == all.take(walk.index() as int),
        {
            proof {
                assert(all.take(walk.index() + 1) =~= all.take(walk.index() as int).push(*id));
            }
            ids.push(*id);
        }
        proof {
            assert(ids@ =~= all);
        }
        ids
    }

    /// What the session under `id` is connected to; nothing where no
    /// such session is alive or it is not connected.
    pub fn get_target(&self, id: i64) -> (target: Option<String>)
        ensures
            match target {
                Some(text) => self.instances().contains_key(id) && self.instances()[id]@.target
                    == Some(text@),
                None => !self.instances().contains_key(id) || self.instances()[id]@.target is None,
            },
    {
        match self.get(id) {
            Some(maa) => maa.target(),
            None => None,
        }
    }

    /// Removes the session under `id` and hands it out, to be taken
    /// apart. Where no session is alive under `id`, nothing changes.
    pub fn delete(&mut self, id: i64) -> (r: Option<Maa>)
        ensures
            final(self).instances() == old(self).instances().remove(id),
            final(self).last_id() == old(self).last_id(),
            final(self).registry() == old(self).registry().deleted(id),
            old(self).wf() ==> final(self).wf(),
            match r {
                Some(maa) => old(self).instances().contains_key(id) && maa == old(self).instances()[id],
                None => !old(self).instances().contains_key(id),
            },
    {
        let r = self.instances.remove(&id);
        proof {
            assert(self.instances@.dom() =~= old(self).instances@.dom().remove(id));
        }
        r
    }

    /// The id that was given out last.
    pub fn current_id(&self) -> (id: i64)
        ensures
            id == self.last_id(),
    {
        self.id
    }

    /// Gives out the next id: one more than the last. No id is given out
    /// twice.
    pub fn gen_id(&mut self) -> (id: i64)
        requires
            old(self).last_id() < i64::MAX,
        ensures
            id == old(self).last_id() + 1,
            id == old(self).registry().next_id(),
            final(self).last_id() == id,
            final(self).instances() == old(self).instances(),
            old(self).wf() ==> final(self).wf() && !old(self).instances().contains_key(id),
    {
        self.id += 1;
        proof {
            if old(self).wf() {
                if old(self).instances().contains_key(self.id) {
                    assert(old(self).registry().live.contains(self.id));
                }
                assert forall|k: i64| #[trigger] self.registry().live.contains(k) implies 0 < k
                    <= self.registry().last by {
                    assert(old(self).registry().live.contains(k));
                }
            }
        }
        self.id
    }

    /// Creates a session and puts it under the next id, which is
    /// returned.
    ///
    /// The session is made by `open`, which is handed the id: the engine
    /// is told it, so that what the session's callback stores can be
    /// traced back.
    pub fn create<F: FnOnce(i64) -> Maa>(&mut self, open: F) -> (id: i64)
        requires
            old(self).last_id() < i64::MAX,
            forall|id: i64| open.requires((id,)),
        ensures
            id == old(self).last_id() + 1,
            final(self).last_id() == id,
            final(self).instances().contains_key(id),
            open.ensures((id,), final(self).instances()[id]),
            final(self).instances() == old(self).instances().insert(
                id,
                final(self).instances()[id],
            ),
            final(self).registry() == old(self).registry().created(),
            old(self).wf() ==> final(self).wf() && !old(self).instances().contains_key(id),
    {
        let id = self.gen_id();
        let maa = open(id);
        let ghost before = self.registry();
        self.instances.insert(id, maa);
        proof {
            assert(self.instances@.dom() =~= old(self).instances@.dom().insert(id));
            if old(self).wf() {
                assert forall|k: i64| #[trigger] self.registry().live.contains(k) implies 0 < k
                    <= self.registry().last by {
                    if k != id {
                        assert(before.live.contains(k));
                    }
                }
            }
        }
        id
    }
}

} // verus!
