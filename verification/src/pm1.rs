//! The chassis: what it has reported, and what the host may ask of it.

pub mod chassis;
pub mod node;
pub mod pacemaker;
pub mod reply;

use crate::autocan::resync::scan;
use crate::autocan::{Message, MessageBuffer};
use crate::clock::is_after;
use crate::differential::Differential;
use crate::pm1::chassis::{
    ingress_of, Chassis, Command, Ingress, PM1Event, Reaction, MESSAGE_PARSE_TIMEOUT,
    PAD_CONTROL_TIMEOUT, TARGET_MEMORY_TIMEOUT,
};
use crate::pm1::node::{ecu, tcu, vcu, BROADCAST, LOCKED, STATE, STOP};
use crate::pm1::pacemaker::{PM1QuerySender, Schedule};
use crate::pm1::reply::{encode_reply, reply_bytes};
use std::collections::HashMap;
use vstd::prelude::*;

verus! {

broadcast use vstd::std_specs::hash::group_hash_axioms;

/// The number of query frames that the first send of a connection makes.
pub const FIRST_SEND: usize = 5;

/// What the chassis has last reported of its battery and power switch.
#[derive(Clone, Copy, Debug, PartialEq, Eq)]
pub struct PM1Status {
    pub battery_percent: u8,
    pub power_switch: bool,
}

impl PM1Status {
    /// The status after `event`.
    pub open spec fn after(self, event: PM1Event) -> PM1Status {
        match event {
            PM1Event::Battery(percent) => PM1Status { battery_percent: percent, ..self },
            PM1Event::PowerSwitch(on) => PM1Status { power_switch: on, ..self },
            PM1Event::Wheels { .. } => self,
        }
    }

    /// Takes `event` into the status.
    pub fn update(&mut self, event: PM1Event)
        ensures
            *final(self) == old(self).after(event),
    {
        match event {
            PM1Event::Battery(percent) => self.battery_percent = percent,
            PM1Event::PowerSwitch(on) => self.power_switch = on,
            PM1Event::Wheels { .. } => {},
        }
    }
}

/// How a poll of the chassis went.
#[derive(Clone, Copy, Debug, PartialEq)]
pub enum Progress<P> {
    /// A frame was taken in, and asks this of the caller.
    Parsed(Reaction<P>),
    /// No frame is ready: more bytes are needed.
    Starved,
    /// No frame is ready, and none has been for too long.
    Lost,
}

/// The key under which the state of a node is kept.
pub open spec fn key_of(node: (u8, u8)) -> u16 {
    (node.0 * 16 + node.1) as u16
}

/// What the frame `msg` means.
pub fn classify(msg: &Message) -> (ingress: Ingress)
    ensures
        ingress == ingress_of(msg@),
{
    let header = msg.header();
    let data = header.data_field();
    let t_node = header.node_type();
    let i_node = header.node_index();
    let t_msg = header.msg_type();
    if t_msg == STOP {
        Ingress::Pad
    } else if t_msg == STATE {
        Ingress::State { node_type: t_node, node_index: i_node, state: msg.read().read_u8() }
    } else if t_msg >= BROADCAST {
        Ingress::Ignored
    } else if t_node == vcu::TYPE {
        if t_msg == vcu::BATTERY_PERCENT && data {
            Ingress::Battery(msg.read().read_u8())
        } else if t_msg == vcu::POWER_SWITCH && data {
            Ingress::PowerSwitch(msg.read().read_u8())
        } else {
            Ingress::Ignored
        }
    } else if t_node == ecu::TYPE {
        if t_msg == ecu::TARGET_SPEED {
            Ingress::Pad
        } else if t_msg == ecu::CURRENT_POSITION && data {
            Ingress::Wheel { which: i_node, value: msg.read().read_i32() }
        } else {
            Ingress::Ignored
        }
    } else if t_node == tcu::TYPE {
        if t_msg == tcu::TARGET_POSITION {
            Ingress::Pad
        } else if t_msg == tcu::CURRENT_POSITION {
            if data {
                Ingress::Rudder(msg.read().read_i16())
            } else {
                Ingress::Pad
            }
        } else {
            Ingress::Ignored
        }
    } else {
        Ingress::Ignored
    }
}

/// The host's side of one chassis: the bytes received, the state that the
/// frames have reported, and the target that the user has set.
pub struct PM1<P> {
    buffer: MessageBuffer<32>,
    using_pad: u64,
    state_memory: HashMap<u16, u8>,
    status: PM1Status,
    target_since: u64,
    target_window: u64,
    target: Option<P>,
    differential: Differential,
    parsed: u64,
}

impl<P> View for PM1<P> {
    type V = Chassis<P>;

    closed spec fn view(&self) -> Chassis<P> {
        Chassis {
            using_pad: self.using_pad,
            node_states: Map::new(
                |node: (u8, u8)|
                    node.0 < 64 && node.1 < 16 && self.state_memory@.contains_key(key_of(node)),
                |node: (u8, u8)| self.state_memory@[key_of(node)],
            ),
            battery_percent: self.status.battery_percent,
            power_switch: self.status.power_switch,
            deadline: self.target_since + self.target_window,
            target: self.target,
            joined: self.differential@,
        }
    }
}

/// A pacemaker and a chassis for a connection opened at `now`.
pub fn pm1<P: Copy>(now: u64) -> (pair: (PM1QuerySender, PM1<P>))
    ensures
        pair.0@ == (Schedule { next: now, index: 0 }),
        pair.1@ == Chassis::<P>::fresh(now),
        pair.1.received() == Seq::<u8>::empty(),
        pair.1.spare().len() == 32,
        pair.1.parsed() == now,
{
    let chassis = PM1 {
        buffer: MessageBuffer::default(),
        using_pad: now,
        state_memory: HashMap::new(),
        status: PM1Status { battery_percent: 0, power_switch: false },
        target_since: now,
        target_window: 0,
        target: None,
        differential: Differential::new(),
        parsed: now,
    };
    assert(chassis@.node_states =~= Map::empty());
    (PM1QuerySender::new(now), chassis)
}

impl<P> PM1<P> {
    /// The bytes received and not yet cut into frames.
    pub closed spec fn received(self) -> Seq<u8> {
        self.buffer@
    }

    /// The free bytes of the receive buffer, as they stand.
    pub closed spec fn spare(self) -> Seq<u8> {
        self.buffer.spare()
    }

    /// When a frame was last taken in; before the first, when the connection
    /// was opened.
    pub closed spec fn parsed(self) -> u64 {
        self.parsed
    }
}

impl<P: Copy> PM1<P> {
    /// What the chassis has last reported of its battery and power switch.
    pub fn status(&self) -> (status: PM1Status)
        ensures
            status.battery_percent == self@.battery_percent,
            status.power_switch == self@.power_switch,
    {
        self.status
    }

    /// Sets the target `target` for the time `time`: it counts from then on
    /// for 200 ms.
    pub fn set_target(&mut self, time: u64, target: P)
        ensures
            final(self)@ == old(self)@.with_target(time, target),
            final(self).received() == old(self).received(),
            final(self).spare() == old(self).spare(),
            final(self).parsed() == old(self).parsed(),
    {
        self.target_since = time;
        self.target_window = TARGET_MEMORY_TIMEOUT;
        self.target = Some(target);
    }

    /// Whether any node has reported itself locked.
    pub fn locked(&self) -> (locked: bool)
        ensures
            locked == self@.locked(),
    {
        let mut key: u16 = 0;
        while key < 1024
            invariant
                key <= 1024,
                forall|seen: u16|
                    seen < key && self.state_memory@.contains_key(seen)
                        ==> self.state_memory@[seen] != LOCKED,
            decreases 1024 - key,
        {
            match self.state_memory.get(&key) {
                Some(state) => {
                    if *state == LOCKED {
                        proof {
                            let node = ((key / 16) as u8, (key % 16) as u8);
                            assert(key_of(node) == key);
                            assert(self@.node_states.contains_key(node));
                            assert(self@.node_states[node] == LOCKED);
                        }
                        return true;
                    }
                },
                None => {},
            }
            key += 1;
        }
        proof {
            assert forall|node: (u8, u8)| self@.node_states.contains_key(node) implies #[trigger] self@.node_states[node]
                != LOCKED by {
                assert(key_of(node) < 1024);
            }
        }
        false
    }

    /// The frames that carry the command of the given wheel speeds and
    /// rudder, in ticks, back to back.
    pub fn reply(&self, left: i32, right: i32, rudder: i16) -> (bytes: Vec<u8>)
        ensures
            bytes@ == reply_bytes(self@.locked(), left, right, rudder),
            bytes@.len() == if self@.locked() {
                56int
            } else {
                42int
            },
    {
        encode_reply(self.locked(), left, right, rudder)
    }

    /// The remote pad is in use.
    fn detect_control_pad(&mut self, time: u64)
        ensures
            final(self)@ == old(self)@.after(time, Ingress::Pad),
            final(self).buffer == old(self).buffer,
            final(self).parsed == old(self).parsed,
    {
        self.using_pad = time;
    }

    /// The battery level was reported.
    fn update_battery_percent(&mut self, battery_percent: u8) -> (reaction: Reaction<P>)
        ensures
            final(self)@ == old(self)@.after(0, Ingress::Battery(battery_percent)),
            reaction == old(self)@.reaction(0, Ingress::Battery(battery_percent), false),
            final(self).buffer == old(self).buffer,
            final(self).parsed == old(self).parsed,
    {
        if battery_percent != self.status.battery_percent {
            self.status.battery_percent = battery_percent;
            Reaction::Event(PM1Event::Battery(battery_percent))
        } else {
            Reaction::Nothing
        }
    }

    /// The power switch was reported.
    fn update_power_switch(&mut self, power_switch: u8) -> (reaction: Reaction<P>)
        ensures
            final(self)@ == old(self)@.after(0, Ingress::PowerSwitch(power_switch)),
            reaction == old(self)@.reaction(0, Ingress::PowerSwitch(power_switch), false),
            final(self).buffer == old(self).buffer,
            final(self).parsed == old(self).parsed,
    {
        let power_switch = power_switch != 0;
        if power_switch != self.status.power_switch {
            self.status.power_switch = power_switch;
            Reaction::Event(PM1Event::PowerSwitch(power_switch))
        } else {
            Reaction::Nothing
        }
    }

    /// A wheel encoder was reported.
    fn update_odometry(&mut self, time: u64, which: u8, value: i32) -> (reaction: Reaction<P>)
        ensures
            final(self)@ == old(self)@.after(time, (Ingress::Wheel { which, value })),
            reaction == old(self)@.reaction(time, (Ingress::Wheel { which, value }), false),
            final(self).buffer == old(self).buffer,
            final(self).parsed == old(self).parsed,
    {
        match self.differential.update(time, which, value) {
            Some((left, right)) => Reaction::Event(PM1Event::Wheels { left, right }),
            None => Reaction::Nothing,
        }
    }

    /// The rudder was reported: decides what to command.
    fn update_rudder(&mut self, time: u64, moving: bool) -> (command: Command<P>)
        ensures
            final(self)@ == old(self)@.after_rudder(time),
            command == old(self)@.command(time, moving),
            final(self).buffer == old(self).buffer,
            final(self).parsed == old(self).parsed,
    {
        if is_after(time, self.using_pad, PAD_CONTROL_TIMEOUT) {
            if time >= self.target_since && time - self.target_since >= self.target_window {
                if moving {
                    Command::Release
                } else {
                    Command::Idle
                }
            } else if !self.status.power_switch {
                self.target_since = time;
                self.target_window = 0;
                self.target = None;
                Command::Idle
            } else {
                match self.target {
                    Some(target) => Command::Follow(target),
                    None => Command::Release,
                }
            }
        } else {
            Command::Idle
        }
    }

    /// Takes in the frame `msg`, which arrived at `time`; `moving` tells
    /// whether the speed that the caller holds is other than zero.
    pub fn receive(&mut self, time: u64, msg: Message, moving: bool) -> (reaction: Reaction<P>)
        ensures
            final(self)@ == old(self)@.after(time, ingress_of(msg@)),
            reaction == old(self)@.reaction(time, ingress_of(msg@), moving),
            final(self).received() == old(self).received(),
            final(self).spare() == old(self).spare(),
            final(self).parsed() == old(self).parsed(),
    {
        match classify(&msg) {
            Ingress::Ignored => Reaction::Nothing,
            Ingress::Pad => {
                self.detect_control_pad(time);
                Reaction::Pad
            },
            Ingress::State { node_type, node_index, state } => {
                proof {
                    crate::autocan::define::lemma_pack_unpack(msg@[1], msg@[2], msg@[3]);
                }
                let key: u16 = node_type as u16 * 16 + node_index as u16;
                self.state_memory.insert(key, state);
                proof {
                    let node = (node_type, node_index);
                    assert forall|other: (u8, u8)|
                        other.0 < 64 && other.1 < 16 && other != node implies key_of(other)
                        != key by {}
                    assert(self@.node_states =~= old(self)@.node_states.insert(node, state));
                }
                Reaction::Nothing
            },
            Ingress::Battery(percent) => self.update_battery_percent(percent),
            Ingress::PowerSwitch(switch) => self.update_power_switch(switch),
            Ingress::Wheel { which, value } => self.update_odometry(time, which, value),
            Ingress::Rudder(pulses) => {
                let command = self.update_rudder(time, moving);
                Reaction::Rudder { pulses, command }
            },
        }
    }

    /// The free part of the receive buffer, for the next read to fill.
    pub fn as_buf<'a>(&'a mut self) -> (free: &'a mut [u8])
        ensures
            free@ == old(self).spare(),
            final(self).spare() == final(free)@,
            final(self).received() == old(self).received(),
            final(self)@ == old(self)@,
            final(self).parsed() == old(self).parsed(),
            old(self).received().len() + free@.len() == 32,
    {
        self.buffer.as_buf()
    }

    /// Takes the first `n` free bytes of the receive buffer as received.
    pub fn notify_received(&mut self, n: usize)
        requires
            n <= old(self).spare().len(),
        ensures
            final(self).received() == old(self).received() + old(self).spare().take(n as int),
            final(self).spare() == old(self).spare().skip(n as int),
            final(self)@ == old(self)@,
            final(self).parsed() == old(self).parsed(),
    {
        self.buffer.notify_received(n);
    }

    /// Cuts the next frame from the bytes received and takes it in, as
    /// arrived at `time`. Without a frame, tells whether the bus has been
    /// silent for too long.
    pub fn poll(&mut self, time: u64, moving: bool) -> (progress: Progress<P>)
        ensures
            final(self).received() == scan(old(self).received()).1,
            match scan(old(self).received()).0 {
                Some(bytes) => {
                    &&& progress == Progress::Parsed(
                        old(self)@.reaction(time, ingress_of(bytes), moving),
                    )
                    &&& final(self)@ == old(self)@.after(time, ingress_of(bytes))
                    &&& final(self).parsed() == time
                },
                None => {
                    &&& progress == if is_after(time, old(self).parsed(), MESSAGE_PARSE_TIMEOUT) {
                        Progress::<P>::Lost
                    } else {
                        Progress::<P>::Starved
                    }
                    &&& final(self)@ == old(self)@
                    &&& final(self).parsed() == old(self).parsed()
                },
            },
    {
        match self.buffer.next() {
            Some(msg) => {
                let reaction = self.receive(time, msg, moving);
                self.parsed = time;
                Progress::Parsed(reaction)
            },
            None => {
                if is_after(time, self.parsed, MESSAGE_PARSE_TIMEOUT) {
                    Progress::Lost
                } else {
                    Progress::Starved
                }
            },
        }
    }
}

} // verus!
