//! The query pacemaker: which queries are due at each tick of the control
//! period.
//!
//! Five short query frames stand in a fixed order: rudder, wheel encoders,
//! node states, power switch, battery. Every tick sends the first; every
//! second tick the first two, every tenth the first four, every 250th all
//! five. Where several ticks have come due at once, the longest of their
//! sends is made, once.

use crate::autocan::define::Fields;
use crate::autocan::{fresh_bytes, is_frame, Message};
use crate::clock::MILLISECOND;
use crate::pm1::node::{ecu, tcu, vcu, EVERY_INDEX, EVERY_TYPE, STATE};
use vstd::prelude::*;
use vstd::slice::slice_subrange;

verus! {

/// The control period: the time between two ticks.
pub const CONTROL_PERIOD: u64 = 40 * MILLISECOND;

/// The number of ticks after which the schedule repeats.
pub const CYCLE: u16 = 250;

/// The priority of every frame that the host sends.
pub const PRIORITY: u8 = 3;

/// The header fields of a frame that the host sends.
pub open spec fn host_fields(node_type: u8, node_index: u8, msg_type: u8, data_field: bool) -> Fields {
    Fields { network: 0, data_field, proprity: PRIORITY, node_type, node_index, msg_type }
}

/// A message from the host to the node `node_index` of type `node_type`.
pub fn message(node_type: u8, node_index: u8, msg_type: u8, data_field: bool) -> (msg: Message)
    requires
        node_type < 64,
        node_index < 16,
    ensures
        msg@ == fresh_bytes(host_fields(node_type, node_index, msg_type, data_field)),
        msg.fields() == host_fields(node_type, node_index, msg_type, data_field),
        !data_field ==> is_frame(msg.wire()),
        msg@.len() == 14,
{
    Message::new(0, data_field, PRIORITY, node_type, node_index, msg_type)
}

/// The six bytes of the query `msg_type` to every node of type `node_type`.
pub open spec fn query_bytes(node_type: u8, msg_type: u8) -> Seq<u8> {
    fresh_bytes(host_fields(node_type, EVERY_INDEX, msg_type, false)).take(6)
}

/// The five queries, in the order in which they are sent.
pub open spec fn all_queries() -> Seq<u8> {
    query_bytes(tcu::TYPE, tcu::CURRENT_POSITION) + query_bytes(ecu::TYPE, ecu::CURRENT_POSITION)
        + query_bytes(EVERY_TYPE, STATE) + query_bytes(vcu::TYPE, vcu::POWER_SWITCH)
        + query_bytes(vcu::TYPE, vcu::BATTERY_PERCENT)
}

/// The five query frames, back to back.
pub struct Queries(pub [u8; 30]);

impl Queries {
    /// Builds the five query frames.
    pub fn new() -> (queries: Self)
        ensures
            queries.0@ == all_queries(),
    {
        let frames = [
            message(tcu::TYPE, EVERY_INDEX, tcu::CURRENT_POSITION, false),
            message(ecu::TYPE, EVERY_INDEX, ecu::CURRENT_POSITION, false),
            message(EVERY_TYPE, EVERY_INDEX, STATE, false),
            message(vcu::TYPE, EVERY_INDEX, vcu::POWER_SWITCH, false),
            message(vcu::TYPE, EVERY_INDEX, vcu::BATTERY_PERCENT, false),
        ];
        let mut buffer = [0u8; 30];
        let mut i: usize = 0;
        while i < 5
            invariant
                i <= 5,
                forall|k: int|
                    0 <= k < 5 ==> (#[trigger] frames@[k]).wire().len() == 6,
                forall|k: int, j: int|
                    0 <= k < i && 0 <= j < 6 ==> buffer@[6 * k + j] == frames@[k].wire()[j],
            decreases 5 - i,
        {
            let frame = frames[i].as_slice();
            let mut j: usize = 0;
            while j < 6
                invariant
                    i < 5,
                    j <= 6,
                    frame@ == frames@[i as int].wire(),
                    frame@.len() == 6,
                    forall|k: int, j: int|
                        0 <= k < i && 0 <= j < 6 ==> buffer@[6 * k + j] == frames@[k].wire()[j],
                    forall|n: int| 0 <= n < j ==> buffer@[6 * i + n] == frame@[n],
                decreases 6 - j,
            {
                buffer[6 * i + j] = frame[j];
                j += 1;
            }
            i += 1;
        }
        proof {
            assert(frames@[0].wire() =~= query_bytes(tcu::TYPE, tcu::CURRENT_POSITION));
            assert(frames@[1].wire() =~= query_bytes(ecu::TYPE, ecu::CURRENT_POSITION));
            assert(frames@[2].wire() =~= query_bytes(EVERY_TYPE, STATE));
            assert(frames@[3].wire() =~= query_bytes(vcu::TYPE, vcu::POWER_SWITCH));
            assert(frames@[4].wire() =~= query_bytes(vcu::TYPE, vcu::BATTERY_PERCENT));
            assert forall|n: int| 0 <= n < 30 implies buffer@[n] == all_queries()[n] by {
                let k = n / 6;
                let j = n % 6;
                assert(buffer@[6 * k + j] == frames@[k].wire()[j]);
            }
            assert(buffer@ =~= all_queries());
        }
        Queries(buffer)
    }

    /// The first `len` query frames.
    pub fn first<'a>(&'a self, len: usize) -> (bytes: &'a [u8])
        requires
            len <= 5,
        ensures
            bytes@ == self.0@.take(6 * len),
    {
        slice_subrange(self.0.as_slice(), 0, 6 * len)
    }
}

/// The number of query frames that the tick numbered `tick` sends alone.
pub open spec fn due_at(tick: int) -> nat {
    if tick % 250 == 0 {
        5
    } else if tick % 10 == 0 {
        4
    } else if tick % 2 == 0 {
        2
    } else {
        1
    }
}

/// The number of query frames sent for the `count` ticks after tick `from`:
/// the most that any one of them sends alone, nothing for no tick.
pub open spec fn due_over(from: int, count: nat) -> nat
    decreases count,
{
    if count == 0 {
        0
    } else {
        let before = due_over(from, (count - 1) as nat);
        let last = due_at(from + count);
        if before >= last {
            before
        } else {
            last
        }
    }
}

/// Late ticks are coalesced: the send for several ticks is as long as the
/// longest send that any one of them asks for, and no tick goes without its
/// queries.
pub proof fn lemma_due_over_is_longest(from: int, count: nat)
    ensures
        forall|tick: int|
            from < tick <= from + count ==> #[trigger] due_at(tick) <= due_over(from, count),
        count > 0 ==> exists|tick: int|
            from < tick <= from + count && #[trigger] due_at(tick) == due_over(from, count),
        count == 0 ==> due_over(from, count) == 0,
    decreases count,
{
    if count > 0 {
        let before = (count - 1) as nat;
        lemma_due_over_is_longest(from, before);
        if due_over(from, before) >= due_at(from + count) && before > 0 {
            let tick = choose|tick: int|
                from < tick <= from + before && #[trigger] due_at(tick) == due_over(
                    from,
                    before,
                );
            assert(from < tick <= from + count && due_at(tick) == due_over(from, count));
        } else {
            assert(due_at(from + count) == due_over(from, count));
        }
    }
}

/// The number of ticks that have come due at `now`, the next being due at
/// `next`: none while `now` has not passed `next`, then one more for each
/// control period begun.
pub open spec fn ticks_owed(next: u64, now: u64) -> nat {
    if next < now {
        ((now - next + CONTROL_PERIOD - 1) / (CONTROL_PERIOD as int)) as nat
    } else {
        0
    }
}

/// Schedules the queries.
pub struct PM1QuerySender {
    next: u64,
    index: u16,
}

/// What the pacemaker remembers.
pub struct Schedule {
    /// When the next tick is due.
    pub next: u64,
    /// The number of the last tick, counted within the cycle.
    pub index: int,
}

impl View for PM1QuerySender {
    type V = Schedule;

    closed spec fn view(&self) -> Schedule {
        Schedule { next: self.next, index: self.index as int }
    }
}

impl PM1QuerySender {
    #[verifier::type_invariant]
    spec fn within_cycle(self) -> bool {
        self.index < CYCLE
    }

    /// A pacemaker whose first tick is due at `now`.
    pub fn new(now: u64) -> (sender: Self)
        ensures
            sender@ == (Schedule { next: now, index: 0 }),
    {
        Self { next: now, index: 0 }
    }

    /// Takes the ticks that have come due at `now` and tells how many of the
    /// query frames to send for them, from the first on.
    pub fn send(&mut self, now: u64) -> (len: usize)
        ensures
            len == due_over(old(self)@.index, ticks_owed(old(self)@.next, now)),
            final(self)@.index == (old(self)@.index + ticks_owed(old(self)@.next, now)) % 250,
            final(self)@.next == if old(self)@.next + ticks_owed(old(self)@.next, now)
                * CONTROL_PERIOD <= u64::MAX {
                old(self)@.next + ticks_owed(old(self)@.next, now) * CONTROL_PERIOD
            } else {
                u64::MAX as int
            },
            len <= 5,
    {
        proof {
            use_type_invariant(&*self);
        }
        let ghost first = self.next;
        let ghost from = self.index as int;
        let ghost owed = ticks_owed(first, now);
        let ghost mut taken: nat = 0;
        let mut next: u64 = self.next;
        let mut index: u16 = self.index;
        let mut len: usize = 0;
        assert(CONTROL_PERIOD == 40_000_000);
        while next < now
            invariant
                index < CYCLE,
                0 <= from < 250,
                CONTROL_PERIOD == 40_000_000,
                owed == ticks_owed(first, now),
                taken <= owed,
                index == (from + taken) % 250,
                len == due_over(from, taken),
                len == 0 || len == 1 || len == 2 || len == 4 || len == 5,
                next == if first + taken * 40_000_000 <= u64::MAX {
                    first + taken * 40_000_000
                } else {
                    u64::MAX as int
                },
                next >= now ==> taken == owed,
                next < now ==> taken < owed,
            decreases owed - taken,
        {
            let ghost before = next;
            let ghost previous = index;
            let ghost sent = len;
            next = if next > u64::MAX - CONTROL_PERIOD {
                u64::MAX
            } else {
                next + CONTROL_PERIOD
            };
            index = if index + 1 == CYCLE {
                0
            } else {
                index + 1
            };
            if len == 5 {
            } else if index % 250 == 0 {
                len = 5;
            } else if len == 4 {
            } else if index % 10 == 0 {
                len = 4;
            } else if len == 2 {
            } else if index % 2 == 0 {
                len = 2;
            } else {
                len = 1;
            }
            proof {
                lemma_tick_in_cycle(from + taken, previous as int);
                lemma_owed(first, now, taken + 1, before);
                taken = taken + 1;
                assert(due_at(from + taken) == due_at(index as int));
                assert(due_over(from, (taken - 1) as nat) == sent);
                assert(sent == 0 || sent == 1 || sent == 2 || sent == 4 || sent == 5);
            }
        }
        self.next = next;
        self.index = index;
        len
    }
}

/// The tick after `tick`, counted within the cycle, is due what it is due
/// counted from the start.
proof fn lemma_tick_in_cycle(tick: int, index: int)
    requires
        0 <= tick,
        index == tick % 250,
    ensures
        (tick + 1) % 250 == if index + 1 == 250 {
            0
        } else {
            index + 1
        },
        due_at(tick + 1) == due_at((tick + 1) % 250),
{
    let next = tick + 1;
    let within = next % 250;
    assert(next == 250 * (next / 250) + within);
    assert(next % 10 == within % 10) by {
        assert(next == 10 * (25 * (next / 250)) + within);
        vstd::arithmetic::div_mod::lemma_fundamental_div_mod(within, 10);
        vstd::arithmetic::div_mod::lemma_fundamental_div_mod_converse(
            next,
            10,
            25 * (next / 250) + within / 10,
            within % 10,
        );
    }
    assert(next % 2 == within % 2) by {
        vstd::arithmetic::div_mod::lemma_fundamental_div_mod(within, 2);
        vstd::arithmetic::div_mod::lemma_fundamental_div_mod_converse(
            next,
            2,
            125 * (next / 250) + within / 2,
            within % 2,
        );
    }
    assert(within % 250 == within);
}

/// After `taken` ticks from `first`, of which the last was due at `before`
/// and `before` lay before `now`: whether more are owed.
proof fn lemma_owed(first: u64, now: u64, taken: nat, before: u64)
    requires
        taken >= 1,
        before < now,
        before == first + (taken - 1) * 40_000_000,
    ensures
        taken <= ticks_owed(first, now),
        first + taken * 40_000_000 >= now ==> taken == ticks_owed(first, now),
        first + taken * 40_000_000 < now ==> taken < ticks_owed(first, now),
{
    assert(CONTROL_PERIOD == 40_000_000);
    let period = 40_000_000int;
    let span = now - first + period - 1;
    let owed = span / period;
    vstd::arithmetic::div_mod::lemma_fundamental_div_mod(span, period);
    vstd::arithmetic::div_mod::lemma_mod_bound(span, period);
    assert(span == period * owed + span % period);
    assert((taken - 1) * period < now - first);
    assert(taken <= owed) by (nonlinear_arith)
        requires
            (taken - 1) * period < now - first,
            span == now - first + period - 1,
            span == period * owed + span % period,
            0 <= span % period < period,
            period > 0,
    ;
    if first + taken * period >= now {
        assert(taken >= owed) by (nonlinear_arith)
            requires
                taken * period >= now - first,
                span == now - first + period - 1,
                span == period * owed + span % period,
                0 <= span % period < period,
                period > 0,
        ;
    } else {
        assert(taken < owed) by (nonlinear_arith)
            requires
                taken * period < now - first,
                span == now - first + period - 1,
                span == period * owed + span % period,
                0 <= span % period < period,
                period > 0,
        ;
    }
}

} // verus!
