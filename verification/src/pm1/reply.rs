//! The frames that carry the host's commands to the chassis.

use crate::autocan::{
    fresh_bytes, is_frame, sealed_bytes, Message, MessageWriter, PAYLOAD_BEGIN,
};
use crate::pm1::node::{ecu, tcu, EVERY_INDEX, EVERY_TYPE, LOCKED, STOP};
use crate::pm1::pacemaker::{host_fields, message};
use vstd::prelude::*;

verus! {

/// The fourteen bytes of the frame that carries `value`, in `width`
/// big-endian bytes, as the message `msg_type` to the node `node_index` of
/// type `node_type`.
pub open spec fn command_frame(
    node_type: u8,
    node_index: u8,
    msg_type: u8,
    value: int,
    width: nat,
) -> Seq<u8> {
    sealed_bytes(
        MessageWriter::put(
            fresh_bytes(host_fields(node_type, node_index, msg_type, true)),
            PAYLOAD_BEGIN as int,
            value,
            width,
        ),
    )
}

/// The frame that unlocks every node.
pub open spec fn unlock_frame() -> Seq<u8> {
    command_frame(EVERY_TYPE, EVERY_INDEX, STOP, LOCKED as int, 1)
}

/// The frame that sets the speed of wheel `which`, in ticks.
pub open spec fn speed_frame(which: u8, pulses: i32) -> Seq<u8> {
    command_frame(ecu::TYPE, which, ecu::TARGET_SPEED, pulses as int, 4)
}

/// The frame that sets the rudder, in ticks.
pub open spec fn rudder_frame(pulses: i16) -> Seq<u8> {
    command_frame(tcu::TYPE, 0, tcu::TARGET_POSITION, pulses as int, 2)
}

/// The frames of one command, back to back: the speeds of the left and the
/// right wheel and the rudder, behind an unlock frame where a node is locked.
pub open spec fn reply_bytes(locked: bool, left: i32, right: i32, rudder: i16) -> Seq<u8> {
    (if locked {
        unlock_frame()
    } else {
        Seq::empty()
    }) + speed_frame(0, left) + speed_frame(1, right) + rudder_frame(rudder)
}

/// Puts the bytes of `msg` that go on the wire behind `bytes`.
fn append(bytes: &mut Vec<u8>, msg: &Message)
    ensures
        final(bytes)@ == old(bytes)@ + msg.wire(),
{
    let wire = msg.as_slice();
    let mut i: usize = 0;
    while i < wire.len()
        invariant
            i <= wire@.len(),
            bytes@ == old(bytes)@ + wire@.take(i as int),
        decreases wire@.len() - i,
    {
        bytes.push(wire[i]);
        assert(wire@.take(i + 1) =~= wire@.take(i as int).push(wire@[i as int]));
        i += 1;
    }
    assert(wire@.take(wire@.len() as int) =~= wire@);
}

/// The unlock frame.
pub fn unlock() -> (msg: Message)
    ensures
        msg@ == unlock_frame(),
        msg.wire() == unlock_frame(),
        is_frame(msg.wire()),
        msg.wire().len() == 14,
{
    let blank = message(EVERY_TYPE, EVERY_INDEX, STOP, true);
    let mut writer = blank.write();
    writer.write_u8(LOCKED);
    let ghost written = writer.bytes();
    let msg = writer.finish();
    proof {
        assert(written[1] == written.take(5)[1]);
        assert(written[2] == written.take(5)[2]);
        assert(written[3] == written.take(5)[3]);
        assert(msg.wire() =~= msg@);
    }
    msg
}

/// The frame that sets the speed of wheel `which`.
pub fn target_speed(which: u8, pulses: i32) -> (msg: Message)
    requires
        which < 16,
    ensures
        msg@ == speed_frame(which, pulses),
        msg.wire() == speed_frame(which, pulses),
        is_frame(msg.wire()),
        msg.wire().len() == 14,
{
    let blank = message(ecu::TYPE, which, ecu::TARGET_SPEED, true);
    let mut writer = blank.write();
    writer.write_i32(pulses);
    let ghost written = writer.bytes();
    let msg = writer.finish();
    proof {
        assert(written[1] == written.take(5)[1]);
        assert(written[2] == written.take(5)[2]);
        assert(written[3] == written.take(5)[3]);
        assert(msg.wire() =~= msg@);
    }
    msg
}

/// The frame that sets the rudder.
pub fn target_position(pulses: i16) -> (msg: Message)
    ensures
        msg@ == rudder_frame(pulses),
        msg.wire() == rudder_frame(pulses),
        is_frame(msg.wire()),
        msg.wire().len() == 14,
{
    let blank = message(tcu::TYPE, 0, tcu::TARGET_POSITION, true);
    let mut writer = blank.write();
    writer.write_i16(pulses);
    let ghost written = writer.bytes();
    let msg = writer.finish();
    proof {
        assert(written[1] == written.take(5)[1]);
        assert(written[2] == written.take(5)[2]);
        assert(written[3] == written.take(5)[3]);
        assert(msg.wire() =~= msg@);
    }
    msg
}

/// The frames of one command, back to back.
pub fn encode_reply(locked: bool, left: i32, right: i32, rudder: i16) -> (bytes: Vec<u8>)
    ensures
        bytes@ == reply_bytes(locked, left, right, rudder),
        bytes@.len() == if locked {
            56int
        } else {
            42int
        },
{
    let mut bytes: Vec<u8> = Vec::new();
    if locked {
        append(&mut bytes, &unlock());
    }
    append(&mut bytes, &target_speed(0, left));
    append(&mut bytes, &target_speed(1, right));
    append(&mut bytes, &target_position(rudder));
    bytes
}

} // verus!
