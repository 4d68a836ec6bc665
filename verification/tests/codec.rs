use pm1_sdk::autocan::crc::{crc_calculate_range, CRC8};
use pm1_sdk::autocan::define::Header;
use pm1_sdk::autocan::{Message, MessageBuffer};

fn feed<const LEN: usize>(buffer: &mut MessageBuffer<LEN>, bytes: &[u8]) {
    let free = buffer.as_buf();
    assert!(bytes.len() <= free.len());
    free[..bytes.len()].copy_from_slice(bytes);
    buffer.notify_received(bytes.len());
}

fn drain<const LEN: usize>(buffer: &mut MessageBuffer<LEN>) -> Vec<Vec<u8>> {
    let mut found = Vec::new();
    while let Some(msg) = buffer.next() {
        found.push(msg.as_slice().to_vec());
    }
    found
}

/// The checksum computed bit by bit, with the polynomial x^8 + x^5 + x^4 + 1
/// taken low bit first.
fn bitwise_crc(bytes: &[u8]) -> u8 {
    let mut sum = 0u8;
    for byte in bytes {
        sum ^= byte;
        for _ in 0..8 {
            sum = if sum & 1 != 0 { (sum >> 1) ^ 0x8c } else { sum >> 1 };
        }
    }
    sum
}

#[test]
fn crc_table_has_the_published_constants() {
    assert_eq!(CRC8.len(), 256);
    assert_eq!(&CRC8[..8], &[0, 94, 188, 226, 97, 63, 221, 131]);
    assert_eq!(CRC8[255], 53);
    for byte in 0..=255u8 {
        assert_eq!(CRC8[byte as usize], bitwise_crc(&[byte]));
    }
}

#[test]
fn crc_of_a_range_skips_what_lies_outside() {
    let bytes = [0xfe, 0x10, 0x01, 0x01, 0x00, 0x57];
    assert_eq!(crc_calculate_range(&bytes, 1, 5), 0x57);
    assert_eq!(crc_calculate_range(&bytes, 1, 4), 0xd0);
    assert_eq!(crc_calculate_range(&bytes, 2, 2), 0);
    assert_eq!(crc_calculate_range(&bytes, 0, 6), bitwise_crc(&bytes));
}

#[test]
fn header_packs_fields_into_three_bytes() {
    let header = Header::new(2, true, 5, 0x2a, 0x0c, 0x77);
    assert_eq!(header.0, [0xfe, 0b10_1_101_10, 0b1010_1100, 0x77, 0]);
    assert_eq!(header.network(), 2);
    assert!(header.data_field());
    assert_eq!(header.proprity(), 5);
    assert_eq!(header.node_type(), 0x2a);
    assert_eq!(header.node_index(), 0x0c);
    assert_eq!(header.msg_type(), 0x77);
}

#[test]
fn header_of_all_ones_and_all_zeros() {
    let full = Header::new(3, true, 7, 0x3f, 0x0f, 0xff);
    assert_eq!(full.0, [0xfe, 0xff, 0xff, 0xff, 0]);
    let empty = Header::new(0, false, 0, 0, 0, 0);
    assert_eq!(empty.0, [0xfe, 0, 0, 0, 0]);
    assert!(!empty.data_field());
}

#[test]
fn header_round_trip_over_every_field_value() {
    for network in 0..4u8 {
        for proprity in 0..8u8 {
            for node_type in 0..64u8 {
                for node_index in 0..16u8 {
                    let data_field = (network + proprity + node_type + node_index) % 2 == 0;
                    let msg_type = node_type.wrapping_mul(5).wrapping_add(node_index);
                    let header =
                        Header::new(network, data_field, proprity, node_type, node_index, msg_type);
                    assert_eq!(header.network(), network);
                    assert_eq!(header.data_field(), data_field);
                    assert_eq!(header.proprity(), proprity);
                    assert_eq!(header.node_type(), node_type);
                    assert_eq!(header.node_index(), node_index);
                    assert_eq!(header.msg_type(), msg_type);
                }
            }
        }
    }
}

#[test]
fn header_getters_read_only_their_own_bits() {
    let header = Header([0xfe, 0b01_0_110_01, 0b0111_1000, 0x42, 0]);
    assert_eq!(header.network(), 1);
    assert!(!header.data_field());
    assert_eq!(header.proprity(), 6);
    assert_eq!(header.node_type(), 0b01_0111);
    assert_eq!(header.node_index(), 8);
    let flagged = Header([0xfe, 0b00_1_000_00, 0, 0, 0]);
    assert!(flagged.data_field());
    assert_eq!(flagged.network(), 0);
    assert_eq!(flagged.proprity(), 0);
    assert_eq!(flagged.node_type(), 0);
}

#[test]
fn header_key_is_the_four_bytes_after_the_sync() {
    let header = Header::new(0, false, 3, 0x12, 0x0f, 3);
    assert_eq!(header.0, [0xfe, 0x0d, 0x2f, 0x03, 0x00]);
    assert_eq!(header.key(), 0x0003_2f0d);
}

#[test]
fn short_message_is_sealed_at_construction() {
    let msg = Message::new(0, false, 4, 0, 1, 1);
    assert_eq!(msg.as_slice(), &[0xfe, 0x10, 0x01, 0x01, 0x00, 0x57]);
    let header = msg.header();
    assert_eq!(header.0, [0xfe, 0x10, 0x01, 0x01, 0x00]);
    assert_eq!(header.proprity(), 4);
    assert_eq!(header.node_index(), 1);
}

#[test]
fn long_message_gets_its_checksum_from_the_writer() {
    let blank = Message::new(0, true, 3, 0x10, 0, 1);
    assert_eq!(blank.as_slice(), &[0xfe, 0x2d, 0, 1, 0, 0, 0, 0, 0, 0, 0, 0, 0, 0]);
    assert_eq!(blank.data(), &[0u8; 8]);
    let mut writer = blank.write();
    writer.write_u8(75);
    let msg = writer.finish();
    assert_eq!(msg.as_slice(), &[0xfe, 0x2d, 0, 1, 0, 75, 0, 0, 0, 0, 0, 0, 0, 0x67]);
    assert_eq!(msg.data(), &[75, 0, 0, 0, 0, 0, 0, 0]);
    assert_eq!(msg.as_slice()[13], bitwise_crc(&msg.as_slice()[1..13]));
}

#[test]
fn writer_without_a_write_still_seals() {
    let msg = Message::new(1, true, 0, 0x3f, 2, 9).write().finish();
    assert_eq!(msg.as_slice().len(), 14);
    assert_eq!(msg.as_slice()[13], bitwise_crc(&msg.as_slice()[1..13]));
    let short = Message::new(1, false, 0, 0x3f, 2, 9).write().finish();
    assert_eq!(short.as_slice().len(), 6);
    assert_eq!(short.as_slice()[5], bitwise_crc(&short.as_slice()[1..5]));
}

#[test]
fn payload_is_big_endian_on_the_wire() {
    let mut writer = Message::new(0, true, 3, 0x11, 0, 1).write();
    writer.write_i32(0x0102_0304);
    writer.write_i16(0x0506);
    writer.write_u8(0x07);
    let msg = writer.finish();
    assert_eq!(msg.data(), &[1, 2, 3, 4, 5, 6, 7, 0]);
    let mut reader = msg.read();
    assert_eq!(reader.read_i32(), 0x0102_0304);
    assert_eq!(reader.read_i16(), 0x0506);
    assert_eq!(reader.read_u8(), 0x07);
}

#[test]
fn payload_round_trip_i32() {
    for value in [0, 1, -1, -2, 1000, -1000, 0x7fff_ffff, i32::MIN, 0x1234_5678, -0x1234_5678] {
        let mut writer = Message::new(0, true, 3, 0x11, 0, 1).write();
        writer.write_i32(value);
        let msg = writer.finish();
        assert_eq!(&msg.as_slice()[5..9], &value.to_be_bytes());
        assert_eq!(msg.read().read_i32(), value);
    }
}

#[test]
fn payload_round_trip_i16() {
    for value in [0, 1, -1, 255, 256, -256, -300, i16::MAX, i16::MIN] {
        let mut writer = Message::new(0, true, 3, 0x12, 0, 1).write();
        writer.write_i16(value);
        let msg = writer.finish();
        assert_eq!(&msg.as_slice()[5..7], &value.to_be_bytes());
        assert_eq!(msg.read().read_i16(), value);
    }
}

#[test]
fn payload_round_trip_u8() {
    for value in 0..=255u8 {
        let mut writer = Message::new(0, true, 3, 0x10, 0, 7).write();
        writer.write_u8(value);
        let msg = writer.finish();
        assert_eq!(msg.as_slice()[5], value);
        assert_eq!(msg.read().read_u8(), value);
    }
}

#[test]
fn payload_fills_all_eight_bytes() {
    let mut writer = Message::new(0, true, 3, 0x11, 0, 1).write();
    writer.write_i32(-2);
    writer.write_i32(0x0a0b_0c0d);
    let msg = writer.finish();
    assert_eq!(msg.data(), &[0xff, 0xff, 0xff, 0xfe, 0x0a, 0x0b, 0x0c, 0x0d]);
    let mut reader = msg.read();
    assert_eq!(reader.read_i32(), -2);
    assert_eq!(reader.read_i32(), 0x0a0b_0c0d);
}

#[test]
fn buffer_starts_empty() {
    let mut buffer = MessageBuffer::<32>::default();
    assert_eq!(buffer.as_buf().len(), 32);
    assert!(buffer.next().is_none());
    assert_eq!(buffer.as_buf().len(), 32);
}

#[test]
fn buffer_yields_frame_after_garbage() {
    let msg = Message::new(0, false, 3, 0x12, 0x0f, 3);
    let mut buffer = MessageBuffer::<32>::default();
    feed(&mut buffer, &[1, 2, 3]);
    feed(&mut buffer, msg.as_slice());
    let found = buffer.next().expect("a frame");
    assert_eq!(found.as_slice(), msg.as_slice());
    assert!(buffer.next().is_none());
    assert_eq!(buffer.as_buf().len(), 32);
}

#[test]
fn buffer_drops_bytes_that_hold_no_sync() {
    let mut buffer = MessageBuffer::<32>::default();
    feed(&mut buffer, &[0, 1, 2, 3, 4, 5, 6, 7, 8, 9]);
    assert!(buffer.next().is_none());
    assert_eq!(buffer.as_buf().len(), 32);
}

#[test]
fn buffer_keeps_a_partial_frame_at_the_front() {
    let msg = Message::new(0, false, 3, 0x10, 0x0f, 7);
    let wire = msg.as_slice();
    let mut buffer = MessageBuffer::<32>::default();
    feed(&mut buffer, &[9, 9]);
    feed(&mut buffer, &wire[..4]);
    assert!(buffer.next().is_none());
    assert_eq!(buffer.as_buf().len(), 28);
    feed(&mut buffer, &wire[4..]);
    let found = buffer.next().expect("the completed frame");
    assert_eq!(found.as_slice(), wire);
    assert_eq!(buffer.as_buf().len(), 32);
}

#[test]
fn buffer_waits_for_the_payload_of_a_long_frame() {
    let mut writer = Message::new(0, true, 3, 0x11, 1, 6).write();
    writer.write_i32(123_456);
    let msg = writer.finish();
    let wire = msg.as_slice();
    let mut buffer = MessageBuffer::<32>::default();
    feed(&mut buffer, &wire[..6]);
    assert!(buffer.next().is_none());
    feed(&mut buffer, &wire[6..13]);
    assert!(buffer.next().is_none());
    assert_eq!(buffer.as_buf().len(), 32 - 13);
    feed(&mut buffer, &wire[13..]);
    let found = buffer.next().expect("the long frame");
    assert_eq!(found.as_slice(), wire);
    assert_eq!(found.read().read_i32(), 123_456);
}

#[test]
fn buffer_pads_a_short_frame_with_zeros() {
    let short = Message::new(0, false, 3, 0x10, 0x0f, 1);
    let mut buffer = MessageBuffer::<32>::default();
    feed(&mut buffer, short.as_slice());
    feed(&mut buffer, &[0xaa; 8]);
    let found = buffer.next().expect("the short frame");
    assert_eq!(found.as_slice(), short.as_slice());
    assert_eq!(found.data()[1..], [0u8; 7]);
}

#[test]
fn framing_resync() {
    // A sync byte opens a candidate whose checksum is wrong; the frame
    // behind it is found all the same.
    let bytes = [
        0xfe, 0x10, 0x01, 0x01, 0x00, 0x00, 0xfe, 0x10, 0x01, 0x01, 0x00, 0x57,
    ];
    let mut buffer = MessageBuffer::<32>::default();
    feed(&mut buffer, &bytes);
    let found = buffer.next().expect("the second candidate");
    assert_eq!(found.as_slice(), &bytes[6..]);
    let header = found.header();
    assert_eq!(header.network(), 0);
    assert!(!header.data_field());
    assert_eq!(header.proprity(), 4);
    assert_eq!(header.node_type(), 0);
    assert_eq!(header.node_index(), 1);
    assert_eq!(header.msg_type(), 0x01);
    assert!(buffer.next().is_none());
    assert_eq!(buffer.as_buf().len(), 32);
}

#[test]
fn framing_resync_behind_a_stray_sync_byte() {
    // The stray sync byte announces a long frame, because the sync byte that
    // follows it has bit 5 set. Once fourteen bytes are there the candidate
    // fails its checksum, and the scan goes on one byte further.
    let frame = [0xfe, 0x10, 0x01, 0x01, 0x00, 0x57];
    let mut buffer = MessageBuffer::<32>::default();
    feed(&mut buffer, &[0xfe]);
    feed(&mut buffer, &frame);
    assert!(buffer.next().is_none());
    assert_eq!(buffer.as_buf().len(), 32 - 7);
    feed(&mut buffer, &[0, 0, 0, 0, 0, 0, 0]);
    let found = buffer.next().expect("the frame behind the stray byte");
    assert_eq!(found.as_slice(), &frame);
}

#[test]
fn eleven_bytes_behind_a_doubled_sync_are_not_yet_a_frame() {
    let bytes = [0xfe, 0xfe, 0x10, 0x01, 0x01, 0x00, 0xfe, 0x10, 0x01, 0x01, 0x5e];
    let mut buffer = MessageBuffer::<32>::default();
    feed(&mut buffer, &bytes);
    assert!(buffer.next().is_none());
    assert_eq!(buffer.as_buf().len(), 32 - 11);
}

#[test]
fn garbage_before_a_frame_boundary_changes_nothing() {
    let first = Message::new(0, false, 3, 0x12, 0x0f, 3);
    let mut writer = Message::new(0, true, 3, 0x10, 0, 1).write();
    writer.write_u8(75);
    let second = writer.finish();

    let mut clean = MessageBuffer::<64>::default();
    feed(&mut clean, first.as_slice());
    feed(&mut clean, second.as_slice());
    let expected = drain(&mut clean);
    assert_eq!(expected, vec![first.as_slice().to_vec(), second.as_slice().to_vec()]);

    let garbage = [0x00, 0x7f, 0xff, 0x20, 0xfd];
    let mut dirty = MessageBuffer::<64>::default();
    feed(&mut dirty, &garbage);
    feed(&mut dirty, first.as_slice());
    feed(&mut dirty, &garbage);
    feed(&mut dirty, second.as_slice());
    feed(&mut dirty, &garbage);
    assert_eq!(drain(&mut dirty), expected);
    assert_eq!(dirty.as_buf().len(), 64);
}

#[test]
fn a_damaged_frame_costs_one_frame() {
    let mut writer = Message::new(0, true, 3, 0x11, 0, 6).write();
    writer.write_i32(1000);
    let lost = writer.finish();
    let next = Message::new(0, false, 3, 0x10, 0x0f, 7);

    let mut damaged = lost.as_slice().to_vec();
    damaged.insert(7, 0x33);
    let mut buffer = MessageBuffer::<64>::default();
    feed(&mut buffer, &damaged);
    feed(&mut buffer, next.as_slice());
    assert_eq!(drain(&mut buffer), vec![next.as_slice().to_vec()]);

    let mut intact = MessageBuffer::<64>::default();
    feed(&mut intact, lost.as_slice());
    feed(&mut intact, next.as_slice());
    assert_eq!(
        drain(&mut intact),
        vec![lost.as_slice().to_vec(), next.as_slice().to_vec()]
    );
}

#[test]
fn buffer_of_thirty_two_holds_two_long_frames_and_a_partial() {
    let mut writer = Message::new(0, true, 3, 0x11, 0, 6).write();
    writer.write_i32(-5);
    let msg = writer.finish();
    let mut buffer = MessageBuffer::<32>::default();
    feed(&mut buffer, msg.as_slice());
    feed(&mut buffer, msg.as_slice());
    feed(&mut buffer, &msg.as_slice()[..4]);
    assert_eq!(buffer.as_buf().len(), 0);
    assert_eq!(buffer.next().expect("first").as_slice(), msg.as_slice());
    assert_eq!(buffer.next().expect("second").as_slice(), msg.as_slice());
    assert!(buffer.next().is_none());
    assert_eq!(buffer.as_buf().len(), 28);
}

#[test]
fn garbage_can_complete_a_candidate_that_straddles_the_boundary() {
    // The stray sync byte at the front opens a long candidate that reaches
    // over the short frame into what follows it. As the bytes stand its
    // checksum fails, and the short frame is found.
    let stream = [
        0xfe, 0xfe, 0x10, 0x01, 0x01, 0x00, 0x57, 0x00, 0x00, 0x00, 0x00, 0x00, 0xf4, 0xe2,
    ];
    let mut buffer = MessageBuffer::<32>::default();
    feed(&mut buffer, &stream);
    assert_eq!(drain(&mut buffer), vec![stream[1..7].to_vec()]);
    // One zero byte behind the short frame moves the byte 0xf4 to where the
    // candidate has its checksum, and there it fits.
    let mut shifted = stream.to_vec();
    shifted.insert(7, 0x00);
    let mut buffer = MessageBuffer::<32>::default();
    feed(&mut buffer, &shifted);
    assert_eq!(drain(&mut buffer), vec![shifted[..14].to_vec()]);
}

#[test]
fn a_damaged_frame_whose_checksum_holds_passes_for_a_frame() {
    let frame = [
        0xfe, 0x2d, 0x10, 0x06, 0x00, 0x01, 0x02, 0x03, 0x04, 0x05, 0x06, 0x07, 0xc7, 0x74,
    ];
    let next = Message::new(0, false, 3, 0x10, 0x0f, 7);
    let mut intact = MessageBuffer::<32>::default();
    feed(&mut intact, &frame);
    assert_eq!(drain(&mut intact), vec![frame.to_vec()]);
    // The byte 0x42 before the last payload byte makes that byte the
    // checksum of the fourteen bytes before the old checksum.
    let mut damaged = frame.to_vec();
    damaged.insert(12, 0x42);
    let mut buffer = MessageBuffer::<32>::default();
    feed(&mut buffer, &damaged);
    feed(&mut buffer, next.as_slice());
    assert_eq!(
        drain(&mut buffer),
        vec![damaged[..14].to_vec(), next.as_slice().to_vec()]
    );
}

#[test]
fn frames_do_not_depend_on_how_the_stream_is_cut_into_reads() {
    let mut writer = Message::new(0, true, 3, 0x11, 0, 6).write();
    writer.write_i32(77);
    let long = writer.finish();
    let short = Message::new(0, false, 3, 0x10, 0x0f, 7);
    let mut stream = vec![0x01, 0xfe, 0x02];
    stream.extend_from_slice(long.as_slice());
    stream.extend_from_slice(short.as_slice());
    stream.push(0x09);
    stream.extend_from_slice(short.as_slice());
    stream.extend_from_slice(long.as_slice());

    let mut whole = MessageBuffer::<64>::default();
    feed(&mut whole, &stream);
    let expected = drain(&mut whole);
    assert_eq!(expected.len(), 4);

    for chunk in 1..=9usize {
        let mut buffer = MessageBuffer::<32>::default();
        let mut found = Vec::new();
        for read in stream.chunks(chunk) {
            feed(&mut buffer, read);
            found.extend(drain(&mut buffer));
        }
        assert_eq!(found, expected, "reads of {} bytes", chunk);
    }
}
