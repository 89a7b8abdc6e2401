//! The protocol that sizes a buffer for a result of unknown length.
//!
//! The engine writes such a result into a buffer that the caller supplies
//! and reports how much it wrote, or reports a sentinel when the buffer is
//! too small. The caller then offers a buffer of twice the capacity, up to
//! a ceiling that depends on the kind of data.

use vstd::prelude::*;

verus! {

/// The kinds of data that the engine hands out through a buffer.
#[derive(Debug, PartialEq, Eq, Structural, Clone, Copy)]
pub enum BufferKind {
    /// The identifier of the connected device, as text.
    Uuid,
    /// One frame of the device's screen.
    Image,
    /// The ids of the tasks that the engine knows.
    TaskList,
}

/// The capacity that the first buffer for data of `kind` has.
pub open spec fn initial_capacity(kind: BufferKind) -> usize {
    match kind {
        BufferKind::Uuid => 1024,
        BufferKind::Image => 16_588_800,
        BufferKind::TaskList => 1024,
    }
}

/// The capacity that no buffer for data of `kind` may exceed.
pub open spec fn capacity_ceiling(kind: BufferKind) -> usize {
    match kind {
        BufferKind::Uuid => 1_048_576,
        BufferKind::Image => 82_944_000,
        BufferKind::TaskList => 1_048_576,
    }
}

impl BufferKind {
    /// The capacity that the first buffer has.
    pub fn initial(&self) -> (capacity: usize)
        ensures
            capacity == initial_capacity(*self),
            capacity > 0,
    {
        match self {
            BufferKind::Uuid => 1024,
            BufferKind::Image => 16_588_800,
            BufferKind::TaskList => 1024,
        }
    }

    /// The capacity that no buffer may exceed.
    pub fn ceiling(&self) -> (capacity: usize)
        ensures
            capacity == capacity_ceiling(*self),
    {
        match self {
            BufferKind::Uuid => 1_048_576,
            BufferKind::Image => 82_944_000,
            BufferKind::TaskList => 1_048_576,
        }
    }
}

/// `initial` doubled `doublings` times.
pub open spec fn capacity_after(initial: nat, doublings: nat) -> nat
    decreases doublings,
{
    if doublings == 0 {
        initial
    } else {
        2 * capacity_after(initial, (doublings - 1) as nat)
    }
}

/// A negotiation under way: the capacity that is offered next, the
/// ceiling, and how often the capacity was doubled so far.
#[derive(Debug, PartialEq, Eq, Structural, Clone, Copy)]
pub struct Negotiation {
    pub capacity: usize,
    pub ceiling: usize,
    pub retries: usize,
}

/// What the report of one attempt means for the negotiation.
#[derive(Debug, PartialEq, Eq, Structural, Clone, Copy)]
pub enum Verdict {
    /// The buffer was too small: offer the capacity of this negotiation.
    Retry(Negotiation),
    /// The engine wrote this many items: the negotiation is over.
    Done(usize),
    /// The result is larger than a buffer may be: the negotiation failed.
    Oversized,
}

/// The verdict on the report `reported` of an attempt with the capacity of
/// `state`, where `sentinel` is what the engine reports for a buffer that
/// is too small.
///
/// The sentinel doubles the capacity, unless the doubled capacity is over
/// the ceiling. Any other report is the length of the result, unless it
/// claims more than the buffer could hold.
pub open spec fn verdict(state: Negotiation, reported: u64, sentinel: u64) -> Verdict {
    if reported == sentinel {
        if 2 * state.capacity > state.ceiling {
            Verdict::Oversized
        } else {
            Verdict::Retry(
                Negotiation {
                    capacity: (2 * state.capacity) as usize,
                    ceiling: state.ceiling,
                    retries: (state.retries + 1) as usize,
                },
            )
        }
    } else if reported > state.capacity {
        Verdict::Oversized
    } else {
        Verdict::Done(reported as usize)
    }
}

/// Whether the report `reported` for a buffer of `capacity` items ends a
/// negotiation as oversized: it is the sentinel and twice the capacity is
/// over the ceiling, or it claims more than the buffer could hold.
pub open spec fn refuses(capacity: usize, ceiling: usize, reported: u64, sentinel: u64) -> bool {
    if reported == sentinel {
        2 * capacity > ceiling
    } else {
        reported > capacity
    }
}

/// How a whole negotiation ends.
pub enum Outcome {
    /// The engine wrote `len` items after `retries` doublings.
    Done { len: usize, retries: usize },
    /// The negotiation failed after `retries` doublings.
    Oversized { retries: usize },
}

/// What the foreign call `call` reports when it is offered `capacity`.
pub open spec fn reported_for(call: spec_fn(usize) -> u64, capacity: usize) -> u64 {
    call(capacity)
}

/// How the negotiation that stands at `state` ends against a foreign call
/// that reports `call(capacity)` when it is offered `capacity`.
pub open spec fn outcome(state: Negotiation, call: spec_fn(usize) -> u64, sentinel: u64) -> Outcome
    decreases state.ceiling - state.capacity,
    when state.capacity > 0
{
    if state.capacity > state.ceiling {
        Outcome::Oversized { retries: state.retries }
    } else {
        match verdict(state, call(state.capacity), sentinel) {
            Verdict::Retry(next) => outcome(next, call, sentinel),
            Verdict::Done(len) => Outcome::Done { len, retries: state.retries },
            Verdict::Oversized => Outcome::Oversized { retries: state.retries },
        }
    }
}

impl Negotiation {
    /// A negotiation is well formed when it offers room for something and
    /// has doubled its capacity no more often than that capacity allows.
    pub open spec fn wf(&self) -> bool {
        self.retries < self.capacity
    }

    /// Starts a negotiation at the capacity `initial`.
    pub fn new(initial: usize, ceiling: usize) -> (state: Negotiation)
        requires
            initial > 0,
        ensures
            state == (Negotiation { capacity: initial, ceiling, retries: 0 }),
            state.wf(),
    {
        Negotiation { capacity: initial, ceiling, retries: 0 }
    }

    /// Starts a negotiation for data of `kind`.
    pub fn of_kind(kind: BufferKind) -> (state: Negotiation)
        ensures
            state == (Negotiation {
                capacity: initial_capacity(kind),
                ceiling: capacity_ceiling(kind),
                retries: 0,
            }),
            state.wf(),
    {
        Negotiation { capacity: kind.initial(), ceiling: kind.ceiling(), retries: 0 }
    }

    /// The capacity to offer next; none where it is over the ceiling,
    /// which ends the negotiation as oversized.
    pub fn offer(&self) -> (capacity: Option<usize>)
        ensures
            capacity == if self.capacity <= self.ceiling {
                Some(self.capacity)
            } else {
                None
            },
    {
        if self.capacity <= self.ceiling {
            Some(self.capacity)
        } else {
            None
        }
    }

    /// Takes the report of the attempt with the offered capacity.
    pub fn step(&self, reported: u64, sentinel: u64) -> (v: Verdict)
        requires
            self.wf(),
        ensures
            v == verdict(*self, reported, sentinel),
            v is Oversized <==> refuses(self.capacity, self.ceiling, reported, sentinel),
            v matches Verdict::Retry(next) ==> next.wf() && next.capacity <= next.ceiling,
    {
        if reported == sentinel {
            if self.capacity > self.ceiling / 2 {
                Verdict::Oversized
            } else {
                Verdict::Retry(
                    Negotiation {
                        capacity: 2 * self.capacity,
                        ceiling: self.ceiling,
                        retries: self.retries + 1,
                    },
                )
            }
        } else if reported > self.capacity as u64 {
            Verdict::Oversized
        } else {
            Verdict::Done(reported as usize)
        }
    }
}

/// Doubling once more is doubling the start once.
pub proof fn lemma_capacity_after_shift(initial: nat, doublings: nat)
    ensures
        capacity_after(2 * initial, doublings) == capacity_after(initial, doublings + 1),
        capacity_after(initial, doublings) >= initial,
    decreases doublings,
{
    assert(capacity_after(initial, doublings + 1) == 2 * capacity_after(initial, doublings));
    if doublings > 0 {
        lemma_capacity_after_shift(initial, (doublings - 1) as nat);
    }
}

/// A foreign call that needs `k` doublings is retried exactly `k` times:
/// where it reports the sentinel for the first `k` capacities and a
/// length that fits for the next one, which is within the ceiling, the
/// negotiation ends with that length after `k` retries.
pub proof fn law_success_after_doublings(
    state: Negotiation,
    call: spec_fn(usize) -> u64,
    sentinel: u64,
    k: nat,
)
    requires
        state.wf(),
        capacity_after(state.capacity as nat, k) <= state.ceiling,
        forall|j: nat| j < k ==> call(capacity_after(state.capacity as nat, j) as usize) == sentinel,
        call(capacity_after(state.capacity as nat, k) as usize) != sentinel,
        call(capacity_after(state.capacity as nat, k) as usize) <= capacity_after(
            state.capacity as nat,
            k,
        ),
    ensures
        outcome(state, call, sentinel) == (Outcome::Done {
            len: call(capacity_after(state.capacity as nat, k) as usize) as usize,
            retries: (state.retries + k) as usize,
        }),
{
    lemma_outcome_after_retries(state, call, sentinel, k);
    lemma_capacity_after_shift(state.capacity as nat, k);
}

/// The number of further doublings after which a negotiation that
/// stands at `state` has offered its last capacity: that capacity is
/// within the ceiling, and its double is over it.
pub open spec fn exhausted_after(state: Negotiation, doublings: nat) -> bool {
    &&& capacity_after(state.capacity as nat, doublings) <= state.ceiling
    &&& capacity_after(state.capacity as nat, doublings + 1) > state.ceiling
}

/// A foreign call that always reports the sentinel makes the negotiation
/// fail, and it is never offered more than the ceiling: the last capacity
/// offered is within the ceiling, and its double is over it.
pub proof fn law_sentinel_forever_is_oversized(
    state: Negotiation,
    call: spec_fn(usize) -> u64,
    sentinel: u64,
)
    requires
        state.wf(),
        state.capacity <= state.ceiling,
        forall|capacity: usize| #[trigger] reported_for(call, capacity) == sentinel,
    ensures
        outcome(state, call, sentinel) is Oversized,
        outcome(state, call, sentinel)->Oversized_retries >= state.retries,
        exhausted_after(
            state,
            (outcome(state, call, sentinel)->Oversized_retries - state.retries) as nat,
        ),
    decreases state.ceiling - state.capacity,
{
    assert(reported_for(call, state.capacity) == sentinel);
    assert(capacity_after(state.capacity as nat, 0) == state.capacity);
    assert(capacity_after(state.capacity as nat, 1) == 2 * capacity_after(
        state.capacity as nat,
        0,
    ));
    if 2 * state.capacity <= state.ceiling {
        let next = Negotiation {
            capacity: (2 * state.capacity) as usize,
            ceiling: state.ceiling,
            retries: (state.retries + 1) as usize,
        };
        assert(verdict(state, call(state.capacity), sentinel) == Verdict::Retry(next));
        assert(outcome(state, call, sentinel) == outcome(next, call, sentinel));
        law_sentinel_forever_is_oversized(next, call, sentinel);
        let retries = outcome(next, call, sentinel)->Oversized_retries;
        let k = (retries - next.retries) as nat;
        lemma_capacity_after_shift(state.capacity as nat, k);
        lemma_capacity_after_shift(state.capacity as nat, k + 1);
        assert(exhausted_after(state, k + 1));
    } else {
        assert(verdict(state, call(state.capacity), sentinel) == Verdict::Oversized);
        assert(outcome(state, call, sentinel) == Outcome::Oversized { retries: state.retries });
        assert(exhausted_after(state, 0));
    }
}

/// Doubling more often gives no less.
pub proof fn lemma_capacity_grows(initial: nat, fewer: nat, more: nat)
    requires
        fewer <= more,
    ensures
        capacity_after(initial, fewer) <= capacity_after(initial, more),
    decreases more - fewer,
{
    if fewer < more {
        lemma_capacity_grows(initial, fewer, (more - 1) as nat);
    }
}

/// How often the first capacity for data of `kind` can be doubled before
/// the ceiling is passed.
pub open spec fn doublings_within(kind: BufferKind) -> nat {
    match kind {
        BufferKind::Uuid => 10,
        BufferKind::Image => 2,
        BufferKind::TaskList => 10,
    }
}

/// The capacities for each kind of data run out where they should: the
/// first capacity, doubled as often as [`doublings_within`] says, is
/// within the ceiling, and doubled once more it is over it. A frame is
/// offered 16 588 800, 33 177 600 and 66 355 200 bytes and no more; an
/// identifier or a task list is offered eleven capacities from 1 024 up to
/// 1 048 576.
pub proof fn law_capacities_of_kinds(kind: BufferKind)
    ensures
        exhausted_after(
            Negotiation {
                capacity: initial_capacity(kind),
                ceiling: capacity_ceiling(kind),
                retries: 0,
            },
            doublings_within(kind),
        ),
        kind == BufferKind::Image ==> {
            &&& capacity_after(initial_capacity(kind) as nat, 1) == 33_177_600
            &&& capacity_after(initial_capacity(kind) as nat, 2) == 66_355_200
        },
        kind != BufferKind::Image ==> capacity_after(initial_capacity(kind) as nat, 10)
            == 1_048_576,
{
    reveal_with_fuel(capacity_after, 12);
}

/// A foreign call that never stops reporting the sentinel is given up on
/// after exactly as many retries as the kind of data allows: two for a
/// frame, which is three calls, and ten for an identifier or a task list.
pub proof fn law_kinds_give_up(kind: BufferKind, call: spec_fn(usize) -> u64, sentinel: u64)
    requires
        forall|capacity: usize| #[trigger] reported_for(call, capacity) == sentinel,
    ensures
        outcome(
            Negotiation {
                capacity: initial_capacity(kind),
                ceiling: capacity_ceiling(kind),
                retries: 0,
            },
            call,
            sentinel,
        ) == (Outcome::Oversized { retries: doublings_within(kind) as usize }),
{
    let start = Negotiation {
        capacity: initial_capacity(kind),
        ceiling: capacity_ceiling(kind),
        retries: 0,
    };
    law_capacities_of_kinds(kind);
    law_sentinel_forever_is_oversized(start, call, sentinel);
    let retries = outcome(start, call, sentinel)->Oversized_retries as nat;
    let within = doublings_within(kind);
    if retries < within {
        lemma_capacity_grows(start.capacity as nat, retries + 1, within);
    }
    if retries > within {
        lemma_capacity_grows(start.capacity as nat, within + 1, retries);
    }
}

/// What one attempt brought back: the engine's report, and the buffer as
/// the engine left it.
pub struct Reply<T> {
    /// The number of items written, or the sentinel.
    pub reported: u64,
    /// The buffer that was offered.
    pub data: Vec<T>,
}

/// What a negotiation that succeeded hands out.
pub struct Negotiated<T> {
    /// The result, exactly as long as the engine reported.
    pub data: Vec<T>,
    /// How often the capacity was doubled.
    pub retries: usize,
}

/// A buffer cut to the reported length: its first `len` items, with
/// `fill` in the places that the buffer does not reach.
pub open spec fn fitted<T>(data: Seq<T>, len: nat, fill: T) -> Seq<T> {
    Seq::new(
        len,
        |i: int|
            if i < data.len() {
                data[i]
            } else {
                fill
            },
    )
}

/// A buffer that reaches as far as the report is simply cut: the result
/// has the reported length and holds, place by place, what the engine
/// wrote; nothing of the buffer beyond that length is in it, and nothing
/// is filled in.
pub proof fn law_fitted_is_cut<T>(data: Seq<T>, len: nat, fill: T)
    requires
        len <= data.len(),
    ensures
        fitted(data, len, fill) == data.take(len as int),
        fitted(data, len, fill).len() == len,
{
    assert(fitted(data, len, fill) =~= data.take(len as int));
}

/// Cuts a buffer to the reported length, so that nothing beyond what the
/// engine wrote is ever seen.
pub fn fit<T: Copy>(data: Vec<T>, len: usize, fill: T) -> (out: Vec<T>)
    ensures
        out@ == fitted(data@, len as nat, fill),
{
    let mut out = data;
    out.truncate(len);
    while out.len() < len
        invariant
            out@.len() <= len,
            data@.len() <= out@.len() || out@.len() == len,
            forall|i: int| 0 <= i < out@.len() ==> out@[i] == fitted(data@, len as nat, fill)[i],
        decreases len - out@.len(),
    {
        out.push(fill);
    }
    assert(out@ =~= fitted(data@, len as nat, fill));
    out
}

/// Why a negotiation failed.
#[derive(Debug, PartialEq, Eq, Structural, Clone, Copy)]
pub struct OversizedResult {
    /// How often the capacity was doubled before the negotiation failed.
    pub retries: usize,
}

/// The foreign call `fetch` can report `reported` when it is offered a
/// buffer of `capacity` items for the handle `handle`.
pub open spec fn may_report<T, F: Fn(usize, usize) -> Reply<T>>(
    fetch: F,
    handle: usize,
    capacity: usize,
    reported: u64,
) -> bool {
    exists|reply: Reply<T>| fetch.ensures((handle, capacity), reply) && reply.reported == reported
}

/// The foreign call `fetch` can have reported the sentinel for each of the
/// first `retries` capacities of a negotiation that starts at `initial`.
pub open spec fn retried<T, F: Fn(usize, usize) -> Reply<T>>(
    fetch: F,
    handle: usize,
    initial: usize,
    sentinel: u64,
    retries: usize,
) -> bool {
    forall|j: nat|
        j < retries ==> may_report(
            fetch,
            handle,
            #[trigger] capacity_after(initial as nat, j) as usize,
            sentinel,
        )
}

/// The negotiation with `fetch` can have brought `found`: after
/// `found.retries` doublings the capacity was within the ceiling, and
/// `fetch` answered with a length that fits and the data that `found`
/// holds, cut to that length.
pub open spec fn brought<T, F: Fn(usize, usize) -> Reply<T>>(
    fetch: F,
    handle: usize,
    initial: usize,
    ceiling: usize,
    sentinel: u64,
    fill: T,
    found: Negotiated<T>,
) -> bool {
    let last = capacity_after(initial as nat, found.retries as nat);
    &&& last <= ceiling
    &&& retried(fetch, handle, initial, sentinel, found.retries)
    &&& exists|reply: Reply<T>|
        {
            &&& #[trigger] fetch.ensures((handle, last as usize), reply)
            &&& reply.reported != sentinel
            &&& reply.reported <= last
            &&& found.data@ == fitted(reply.data@, reply.reported as nat, fill)
        }
}

/// The negotiation with `fetch` can have failed after `retries`
/// doublings: the first capacity was over the ceiling already and nothing
/// was called, or the last capacity offered was within the ceiling and
/// `fetch` answered with a report that ends the negotiation.
pub open spec fn gave_up<T, F: Fn(usize, usize) -> Reply<T>>(
    fetch: F,
    handle: usize,
    initial: usize,
    ceiling: usize,
    sentinel: u64,
    retries: usize,
) -> bool {
    let last = capacity_after(initial as nat, retries as nat);
    &&& retried(fetch, handle, initial, sentinel, retries)
    &&& if initial > ceiling {
        retries == 0
    } else {
        &&& last <= ceiling
        &&& exists|reported: u64|
            {
                &&& #[trigger] may_report(fetch, handle, last as usize, reported)
                &&& refuses(last as usize, ceiling, reported, sentinel)
            }
    }
}

/// The foreign call `fetch` behaves as `call` says: whatever it brings
/// back for a handle and a capacity, it reports what `call` gives for
/// that capacity.
pub open spec fn reports_as<T, F: Fn(usize, usize) -> Reply<T>>(
    fetch: F,
    handle: usize,
    call: spec_fn(usize) -> u64,
) -> bool {
    forall|capacity: usize, reply: Reply<T>| #[trigger]
        fetch.ensures((handle, capacity), reply) ==> reply.reported == call(capacity)
}

/// A negotiation that succeeds against a foreign call whose reports are
/// known ends as those reports say: with the length that the call reports
/// for the last capacity, after exactly as many doublings as it takes for
/// the call to stop reporting the sentinel.
pub proof fn law_success_follows_the_reports<T, F: Fn(usize, usize) -> Reply<T>>(
    fetch: F,
    handle: usize,
    initial: usize,
    ceiling: usize,
    sentinel: u64,
    fill: T,
    call: spec_fn(usize) -> u64,
    found: Negotiated<T>,
)
    requires
        initial > 0,
        reports_as(fetch, handle, call),
        brought(fetch, handle, initial, ceiling, sentinel, fill, found),
    ensures
        outcome(Negotiation { capacity: initial, ceiling, retries: 0 }, call, sentinel) == (
        Outcome::Done { len: found.data@.len() as usize, retries: found.retries }),
{
    let start = Negotiation { capacity: initial, ceiling, retries: 0 };
    let last = capacity_after(initial as nat, found.retries as nat);
    assert forall|j: nat| j < found.retries implies call(
        capacity_after(initial as nat, j) as usize,
    ) == sentinel by {
        let capacity = capacity_after(initial as nat, j) as usize;
        assert(may_report(fetch, handle, capacity, sentinel));
        let reply = choose|reply: Reply<T>|
            fetch.ensures((handle, capacity), reply) && reply.reported == sentinel;
        assert(fetch.ensures((handle, capacity), reply));
    }
    let reply = choose|reply: Reply<T>|
        {
            &&& #[trigger] fetch.ensures((handle, last as usize), reply)
            &&& reply.reported != sentinel
            &&& reply.reported <= last
            &&& found.data@ == fitted(reply.data@, reply.reported as nat, fill)
        };
    assert(fetch.ensures((handle, last as usize), reply));
    law_success_after_doublings(start, call, sentinel, found.retries as nat);
}

/// A negotiation that fails against a foreign call whose reports are known
/// fails as those reports say: after exactly as many doublings as the
/// model of the negotiation takes to give up.
pub proof fn law_failure_follows_the_reports<T, F: Fn(usize, usize) -> Reply<T>>(
    fetch: F,
    handle: usize,
    initial: usize,
    ceiling: usize,
    sentinel: u64,
    call: spec_fn(usize) -> u64,
    retries: usize,
)
    requires
        initial > 0,
        reports_as(fetch, handle, call),
        gave_up(fetch, handle, initial, ceiling, sentinel, retries),
    ensures
        outcome(Negotiation { capacity: initial, ceiling, retries: 0 }, call, sentinel) == (
        Outcome::Oversized { retries }),
{
    let start = Negotiation { capacity: initial, ceiling, retries: 0 };
    if initial <= ceiling {
        let last = capacity_after(initial as nat, retries as nat);
        assert forall|j: nat| j < retries implies call(
            capacity_after(initial as nat, j) as usize,
        ) == sentinel by {
            let capacity = capacity_after(initial as nat, j) as usize;
            assert(may_report(fetch, handle, capacity, sentinel));
            let reply = choose|reply: Reply<T>|
                fetch.ensures((handle, capacity), reply) && reply.reported == sentinel;
            assert(fetch.ensures((handle, capacity), reply));
        }
        let reported = choose|reported: u64|
            {
                &&& #[trigger] may_report(fetch, handle, last as usize, reported)
                &&& refuses(last as usize, ceiling, reported, sentinel)
            };
        let reply = choose|reply: Reply<T>|
            fetch.ensures((handle, last as usize), reply) && reply.reported == reported;
        assert(fetch.ensures((handle, last as usize), reply));
        lemma_outcome_after_retries(start, call, sentinel, retries as nat);
        lemma_capacity_after_shift(initial as nat, retries as nat);
        let at = Negotiation { capacity: last as usize, ceiling, retries };
        assert(call(at.capacity) == reported);
        assert(verdict(at, reported, sentinel) is Oversized);
        assert(outcome(at, call, sentinel) == Outcome::Oversized { retries });
    }
}

/// Where the first `k` capacities of a negotiation are answered with the
/// sentinel and the next one is within the ceiling, the negotiation goes
/// on from that capacity with `k` more retries.
pub proof fn lemma_outcome_after_retries(
    state: Negotiation,
    call: spec_fn(usize) -> u64,
    sentinel: u64,
    k: nat,
)
    requires
        state.wf(),
        capacity_after(state.capacity as nat, k) <= state.ceiling,
        forall|j: nat| j < k ==> call(capacity_after(state.capacity as nat, j) as usize) == sentinel,
    ensures
        outcome(state, call, sentinel) == outcome(
            Negotiation {
                capacity: capacity_after(state.capacity as nat, k) as usize,
                ceiling: state.ceiling,
                retries: (state.retries + k) as usize,
            },
            call,
            sentinel,
        ),
    decreases k,
{
    lemma_capacity_after_shift(state.capacity as nat, 0);
    if k > 0 {
        assert(call(capacity_after(state.capacity as nat, 0) as usize) == sentinel);
        lemma_capacity_after_shift(state.capacity as nat, (k - 1) as nat);
        lemma_capacity_after_shift(2 * state.capacity as nat, (k - 1) as nat);
        let next = Negotiation {
            capacity: (2 * state.capacity) as usize,
            ceiling: state.ceiling,
            retries: (state.retries + 1) as usize,
        };
        assert(verdict(state, call(state.capacity), sentinel) == Verdict::Retry(next));
        assert forall|j: nat| j < k - 1 implies call(
            capacity_after(next.capacity as nat, j) as usize,
        ) == sentinel by {
            lemma_capacity_after_shift(state.capacity as nat, j);
            assert(call(capacity_after(state.capacity as nat, j + 1) as usize) == sentinel);
        }
        lemma_outcome_after_retries(next, call, sentinel, (k - 1) as nat);
    }
}

/// Negotiates a buffer with the foreign call `fetch` for the handle
/// `handle` and hands out the result, cut to the length that the engine
/// reported.
///
/// `fetch` is called with capacities only that are within the ceiling:
/// the initial one, then twice the one before for as long as it reports
/// the sentinel. Success after some doublings means that each capacity
/// before the last was answered with the sentinel, and the last with a
/// length that fits. Failure means that the sentinel was the answer up to
/// the ceiling, or that a report claimed more than the buffer could hold.
pub fn negotiate<T: Copy, F: Fn(usize, usize) -> Reply<T>>(
    fetch: &F,
    handle: usize,
    initial: usize,
    ceiling: usize,
    sentinel: u64,
    fill: T,
) -> (r: Result<Negotiated<T>, OversizedResult>)
    requires
        initial > 0,
        forall|capacity: usize| 0 < capacity <= ceiling ==> fetch.requires((handle, capacity)),
    ensures
        match r {
            Ok(found) => brought(*fetch, handle, initial, ceiling, sentinel, fill, found),
            Err(e) => gave_up(*fetch, handle, initial, ceiling, sentinel, e.retries),
        },
{
    let mut state = Negotiation::new(initial, ceiling);
    if state.offer().is_none() {
        assert(gave_up(*fetch, handle, initial, ceiling, sentinel, 0));
        return Err(OversizedResult { retries: 0 });
    }
    loop
        invariant
            state.wf(),
            state.ceiling == ceiling,
            state.capacity <= ceiling,
            state.capacity == capacity_after(initial as nat, state.retries as nat),
            initial <= ceiling,
            forall|capacity: usize| 0 < capacity <= ceiling ==> fetch.requires((handle, capacity)),
            retried(*fetch, handle, initial, sentinel, state.retries),
        decreases ceiling - state.capacity,
    {
        let reply = fetch(handle, state.capacity);
        let ghost reached = capacity_after(initial as nat, state.retries as nat);
        proof {
            assert(reached as usize == state.capacity);
            assert(may_report(*fetch, handle, reached as usize, reply.reported));
        }
        match state.step(reply.reported, sentinel) {
            Verdict::Retry(next) => {
                proof {
                    assert forall|j: nat| j < next.retries implies may_report(
                        *fetch,
                        handle,
                        #[trigger] capacity_after(initial as nat, j) as usize,
                        sentinel,
                    ) by {
                        if j == state.retries {
                        }
                    }
                }
                state = next;
            },
            Verdict::Done(len) => {
                let data = fit(reply.data, len, fill);
                let found = Negotiated { data, retries: state.retries };
                proof {
                    assert(fetch.ensures((handle, reached as usize), reply));
                    assert(brought(*fetch, handle, initial, ceiling, sentinel, fill, found));
                }
                return Ok(found);
            },
            Verdict::Oversized => {
                proof {
                    assert(refuses(reached as usize, ceiling, reply.reported, sentinel));
                    assert(gave_up(*fetch, handle, initial, ceiling, sentinel, state.retries));
                }
                return Err(OversizedResult { retries: state.retries });
            },
        }
    }
}

} // verus!
