//! The chassis as a state machine: what each frame from the bus changes, and
//! what the host may command in answer.
//!
//! Two rules guard the commands. While the remote pad is in use, and for a
//! while after, the host commands nothing. And a target that the user set
//! counts only while it is fresh and the power switch is on; a stale one
//! gives way to releasing the motors.

use crate::autocan::define::{unpack, Fields};
use crate::autocan::wire::{be_signed, be_unsigned};
use crate::clock::{is_after, MILLISECOND};
use crate::differential::{Joined, Sample};
use crate::pm1::node::{ecu, tcu, vcu, BROADCAST, LOCKED, STATE, STOP};
use vstd::prelude::*;

verus! {

/// How long a target counts after the time it was set for.
pub const TARGET_MEMORY_TIMEOUT: u64 = 200 * MILLISECOND;

/// How long the host stays silent after the remote pad was seen.
pub const PAD_CONTROL_TIMEOUT: u64 = 200 * MILLISECOND;

/// How long the bus may stay silent before the chassis counts as lost.
pub const MESSAGE_PARSE_TIMEOUT: u64 = 250 * MILLISECOND;

/// What a frame from the bus means to the host.
#[derive(Clone, Copy, Debug, PartialEq, Eq)]
pub enum Ingress {
    /// Nothing.
    Ignored,
    /// The remote pad is in use.
    Pad,
    /// A node reports its state.
    State { node_type: u8, node_index: u8, state: u8 },
    /// The battery level, in percent.
    Battery(u8),
    /// The power switch: zero for off.
    PowerSwitch(u8),
    /// The encoder of wheel `which`, in ticks.
    Wheel { which: u8, value: i32 },
    /// The rudder, in ticks.
    Rudder(i16),
}

/// What the chassis tells the user.
#[derive(Clone, Copy, Debug, PartialEq, Eq)]
pub enum PM1Event {
    /// The battery level has changed.
    Battery(u8),
    /// The power switch has changed.
    PowerSwitch(bool),
    /// The wheels have moved by so many ticks.
    Wheels { left: i32, right: i32 },
}

/// What the host commands on a rudder report.
#[derive(Clone, Copy, Debug, PartialEq)]
pub enum Command<P> {
    /// Nothing: no frame is sent.
    Idle,
    /// Release the motors: come to rest, keep the rudder.
    Release,
    /// Go for the target that the user set.
    Follow(P),
}

/// What a frame asks of the caller.
#[derive(Clone, Copy, Debug, PartialEq)]
pub enum Reaction<P> {
    /// Nothing.
    Nothing,
    /// The remote pad is in use: the speed that the host holds drops to zero.
    Pad,
    /// An event for the user.
    Event(PM1Event),
    /// The rudder stands at `pulses`, and the host commands `command`.
    Rudder { pulses: i16, command: Command<P> },
}

/// The first payload byte.
pub open spec fn payload_u8(bytes: Seq<u8>) -> u8 {
    be_unsigned(bytes.subrange(5, 6)) as u8
}

/// The first two payload bytes, as a signed number.
pub open spec fn payload_i16(bytes: Seq<u8>) -> i16 {
    be_signed(bytes.subrange(5, 7)) as i16
}

/// The first four payload bytes, as a signed number.
pub open spec fn payload_i32(bytes: Seq<u8>) -> i32 {
    be_signed(bytes.subrange(5, 9)) as i32
}

/// What the frame with the header `fields` and the fourteen bytes `bytes`
/// means. The message type decides first; only a type below the broadcast
/// range is read by the type of the node that sent it.
pub open spec fn meaning(fields: Fields, bytes: Seq<u8>) -> Ingress {
    if fields.msg_type == STOP {
        Ingress::Pad
    } else if fields.msg_type == STATE {
        Ingress::State {
            node_type: fields.node_type,
            node_index: fields.node_index,
            state: payload_u8(bytes),
        }
    } else if fields.msg_type >= BROADCAST {
        Ingress::Ignored
    } else if fields.node_type == vcu::TYPE {
        if fields.msg_type == vcu::BATTERY_PERCENT && fields.data_field {
            Ingress::Battery(payload_u8(bytes))
        } else if fields.msg_type == vcu::POWER_SWITCH && fields.data_field {
            Ingress::PowerSwitch(payload_u8(bytes))
        } else {
            Ingress::Ignored
        }
    } else if fields.node_type == ecu::TYPE {
        if fields.msg_type == ecu::TARGET_SPEED {
            Ingress::Pad
        } else if fields.msg_type == ecu::CURRENT_POSITION && fields.data_field {
            Ingress::Wheel { which: fields.node_index, value: payload_i32(bytes) }
        } else {
            Ingress::Ignored
        }
    } else if fields.node_type == tcu::TYPE {
        if fields.msg_type == tcu::TARGET_POSITION {
            Ingress::Pad
        } else if fields.msg_type == tcu::CURRENT_POSITION {
            if fields.data_field {
                Ingress::Rudder(payload_i16(bytes))
            } else {
                Ingress::Pad
            }
        } else {
            Ingress::Ignored
        }
    } else {
        Ingress::Ignored
    }
}

/// What the message with the fourteen bytes `bytes` means.
pub open spec fn ingress_of(bytes: Seq<u8>) -> Ingress {
    meaning(unpack(bytes[1], bytes[2], bytes[3]), bytes)
}

/// One frame from the bus, as the chassis takes it.
pub struct Arrival {
    /// When it arrived.
    pub time: u64,
    /// What it means.
    pub ingress: Ingress,
}

/// What the host knows of the chassis.
pub struct Chassis<P> {
    /// When the remote pad was last seen.
    pub using_pad: u64,
    /// The last state byte of each node, by type and index.
    pub node_states: Map<(u8, u8), u8>,
    /// The battery level, in percent.
    pub battery_percent: u8,
    /// Whether the power switch is on.
    pub power_switch: bool,
    /// The time from which the target counts as stale.
    pub deadline: int,
    /// The target that the user set; none once it was dropped.
    pub target: Option<P>,
    /// The wheel-pair joiner.
    pub joined: Joined,
}

impl<P> Chassis<P> {
    /// The chassis as the host first knows it, at `now`: nothing reported,
    /// no target, and the pad taken as just seen.
    pub open spec fn fresh(now: u64) -> Self {
        Chassis {
            using_pad: now,
            node_states: Map::empty(),
            battery_percent: 0,
            power_switch: false,
            deadline: now as int,
            target: None,
            joined: Joined::fresh(),
        }
    }

    /// Whether any node has reported itself locked.
    pub open spec fn locked(self) -> bool {
        exists|node: (u8, u8)|
            self.node_states.contains_key(node) && #[trigger] self.node_states[node] == LOCKED
    }

    /// Whether the host keeps silent at `time` because of the remote pad.
    pub open spec fn lockout(self, time: u64) -> bool {
        !is_after(time, self.using_pad, PAD_CONTROL_TIMEOUT)
    }

    /// Whether the target is stale at `time`.
    pub open spec fn stale(self, time: u64) -> bool {
        time >= self.deadline
    }

    /// What the host commands on a rudder report at `time`, `moving` telling
    /// whether the speed that it holds is other than zero.
    pub open spec fn command(self, time: u64, moving: bool) -> Command<P> {
        if self.lockout(time) {
            Command::Idle
        } else if self.stale(time) {
            if moving {
                Command::Release
            } else {
                Command::Idle
            }
        } else if !self.power_switch {
            Command::Idle
        } else {
            match self.target {
                Some(target) => Command::Follow(target),
                None => Command::Release,
            }
        }
    }

    /// The chassis after a rudder report at `time`: a fresh target is
    /// dropped where the power switch is off.
    pub open spec fn after_rudder(self, time: u64) -> Self {
        if !self.lockout(time) && !self.stale(time) && !self.power_switch {
            Chassis { deadline: time as int, target: None, ..self }
        } else {
            self
        }
    }

    /// The chassis after the user has set `target` for `time`.
    pub open spec fn with_target(self, time: u64, target: P) -> Self {
        Chassis { deadline: time + TARGET_MEMORY_TIMEOUT, target: Some(target), ..self }
    }

    /// The chassis after the frame `ingress` at `time`.
    pub open spec fn after(self, time: u64, ingress: Ingress) -> Self {
        match ingress {
            Ingress::Ignored => self,
            Ingress::Pad => Chassis { using_pad: time, ..self },
            Ingress::State { node_type, node_index, state } => Chassis {
                node_states: self.node_states.insert((node_type, node_index), state),
                ..self
            },
            Ingress::Battery(percent) => Chassis { battery_percent: percent, ..self },
            Ingress::PowerSwitch(switch) => Chassis { power_switch: switch != 0, ..self },
            Ingress::Wheel { which, value } => Chassis {
                joined: self.joined.after((Sample { time, which, value })),
                ..self
            },
            Ingress::Rudder(_) => self.after_rudder(time),
        }
    }

    /// What the frame `ingress` at `time` asks of the caller.
    pub open spec fn reaction(self, time: u64, ingress: Ingress, moving: bool) -> Reaction<P> {
        match ingress {
            Ingress::Ignored => Reaction::Nothing,
            Ingress::Pad => Reaction::Pad,
            Ingress::State { .. } => Reaction::Nothing,
            Ingress::Battery(percent) => if percent != self.battery_percent {
                Reaction::Event(PM1Event::Battery(percent))
            } else {
                Reaction::Nothing
            },
            Ingress::PowerSwitch(switch) => if (switch != 0) != self.power_switch {
                Reaction::Event(PM1Event::PowerSwitch(switch != 0))
            } else {
                Reaction::Nothing
            },
            Ingress::Wheel { which, value } => match self.joined.yields(
                (Sample { time, which, value }),
            ) {
                Some(delta) => Reaction::Event(PM1Event::Wheels { left: delta.0, right: delta.1 }),
                None => Reaction::Nothing,
            },
            Ingress::Rudder(pulses) => Reaction::Rudder {
                pulses,
                command: self.command(time, moving),
            },
        }
    }

    /// The chassis after `arrivals`, taken in order.
    pub open spec fn after_all(self, arrivals: Seq<Arrival>) -> Self
        decreases arrivals.len(),
    {
        if arrivals.len() == 0 {
            self
        } else {
            self.after_all(arrivals.drop_last()).after(
                arrivals.last().time,
                arrivals.last().ingress,
            )
        }
    }
}

/// Frames from the bus never renew a target: after any of them the target
/// is stale no later than it was before.
pub proof fn lemma_deadline_never_grows<P>(chassis: Chassis<P>, arrivals: Seq<Arrival>)
    ensures
        chassis.after_all(arrivals).deadline <= chassis.deadline,
    decreases arrivals.len(),
{
    if arrivals.len() > 0 {
        lemma_deadline_never_grows(chassis, arrivals.drop_last());
    }
}

/// A target goes stale. Once the user has set a target for `issued`, then
/// whatever frames arrive, from 200 ms after `issued` on the host no longer
/// follows it: a rudder report makes it release the motors, or command
/// nothing.
pub proof fn lemma_stale_target_is_released<P>(
    chassis: Chassis<P>,
    issued: u64,
    target: P,
    arrivals: Seq<Arrival>,
    time: u64,
    moving: bool,
)
    requires
        time >= issued + TARGET_MEMORY_TIMEOUT,
    ensures
        ({
            let later = chassis.with_target(issued, target).after_all(arrivals);
            &&& later.stale(time)
            &&& !(later.command(time, moving) is Follow)
            &&& later.command(time, moving) == if !later.lockout(time) && moving {
                Command::<P>::Release
            } else {
                Command::<P>::Idle
            }
        }),
{
    lemma_deadline_never_grows(chassis.with_target(issued, target), arrivals);
}

/// Whether none of `arrivals` came before `time`.
pub open spec fn none_before(arrivals: Seq<Arrival>, time: u64) -> bool {
    forall|i: int| 0 <= i < arrivals.len() ==> (#[trigger] arrivals[i]).time >= time
}

/// While frames arrive no earlier than `seen`, the pad counts as seen no
/// earlier than it did before them, or than `seen`.
proof fn lemma_pad_time_never_shrinks<P>(chassis: Chassis<P>, arrivals: Seq<Arrival>, seen: u64)
    requires
        none_before(arrivals, seen),
        chassis.using_pad >= seen,
    ensures
        chassis.after_all(arrivals).using_pad >= seen,
    decreases arrivals.len(),
{
    if arrivals.len() > 0 {
        let before = arrivals.drop_last();
        assert forall|i: int| 0 <= i < before.len() implies (#[trigger] before[i]).time
            >= seen by {
            assert(before[i] == arrivals[i]);
        }
        lemma_pad_time_never_shrinks(chassis, before, seen);
        assert(arrivals.last() == arrivals[arrivals.len() - 1]);
    }
}

/// The pad locks the host out. Once a frame at `seen` has shown the remote
/// pad in use, then whatever frames arrive after it, up to 200 ms after
/// `seen` the host commands nothing on a rudder report: no frame is sent in
/// answer.
pub proof fn lemma_pad_locks_out<P>(
    chassis: Chassis<P>,
    seen: u64,
    arrivals: Seq<Arrival>,
    time: u64,
    moving: bool,
)
    requires
        none_before(arrivals, seen),
        time <= seen + PAD_CONTROL_TIMEOUT,
    ensures
        ({
            let later = chassis.after(seen, Ingress::Pad).after_all(arrivals);
            &&& later.lockout(time)
            &&& later.command(time, moving) == Command::<P>::Idle
            &&& forall|pulses: i16|
                later.reaction(time, Ingress::Rudder(pulses), moving) == (Reaction::Rudder {
                    pulses,
                    command: Command::<P>::Idle,
                })
            &&& later.after(time, Ingress::Rudder(0)) == later
        }),
{
    lemma_pad_time_never_shrinks(chassis.after(seen, Ingress::Pad), arrivals, seen);
}

} // verus!
