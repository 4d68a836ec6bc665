use pm1_sdk::autocan::MessageBuffer;
use pm1_sdk::clock::MILLISECOND;
use pm1_sdk::pm1::node::{ecu, tcu, vcu, EVERY_INDEX, EVERY_TYPE, STATE};
use pm1_sdk::pm1::pacemaker::{message, PM1QuerySender, Queries, CONTROL_PERIOD};
use pm1_sdk::pm1::pm1;

fn ms(n: u64) -> u64 {
    n * MILLISECOND
}

#[test]
fn control_period_is_forty_milliseconds() {
    assert_eq!(CONTROL_PERIOD, 40_000_000);
}

#[test]
fn host_frames_have_priority_three_on_network_zero() {
    let msg = message(vcu::TYPE, 2, 7, true);
    let header = msg.header();
    assert_eq!(header.network(), 0);
    assert_eq!(header.proprity(), 3);
    assert!(header.data_field());
    assert_eq!(header.node_type(), vcu::TYPE);
    assert_eq!(header.node_index(), 2);
    assert_eq!(header.msg_type(), 7);
}

#[test]
fn queries_stand_in_their_fixed_order() {
    let queries = Queries::new();
    assert_eq!(
        queries.0,
        [
            0xfe, 0x0d, 0x2f, 0x03, 0x00, 0x03, 0xfe, 0x0d, 0x1f, 0x06, 0x00, 0x22, 0xfe, 0x0f,
            0xff, 0x80, 0x00, 0x67, 0xfe, 0x0d, 0x0f, 0x07, 0x00, 0xac, 0xfe, 0x0d, 0x0f, 0x01,
            0x00, 0x06,
        ]
    );
    assert_eq!(queries.first(0), &[] as &[u8]);
    assert_eq!(queries.first(1), &queries.0[..6]);
    assert_eq!(queries.first(4), &queries.0[..24]);
    assert_eq!(queries.first(5), &queries.0[..]);

    let mut buffer = MessageBuffer::<32>::default();
    buffer.as_buf()[..30].copy_from_slice(&queries.0);
    buffer.notify_received(30);
    let expected = [
        (tcu::TYPE, tcu::CURRENT_POSITION),
        (ecu::TYPE, ecu::CURRENT_POSITION),
        (EVERY_TYPE, STATE),
        (vcu::TYPE, vcu::POWER_SWITCH),
        (vcu::TYPE, vcu::BATTERY_PERCENT),
    ];
    for (node_type, msg_type) in expected {
        let header = buffer.next().expect("a query").header();
        assert_eq!(header.node_type(), node_type);
        assert_eq!(header.node_index(), EVERY_INDEX);
        assert_eq!(header.msg_type(), msg_type);
        assert!(!header.data_field());
        assert_eq!(header.proprity(), 3);
    }
    assert!(buffer.next().is_none());
}

#[test]
fn nothing_is_due_before_the_first_tick_has_passed() {
    let mut sender = PM1QuerySender::new(ms(100));
    assert_eq!(sender.send(ms(50)), 0);
    assert_eq!(sender.send(ms(100)), 0);
    assert_eq!(sender.send(ms(100) + 1), 1);
}

#[test]
fn schedule_decimates_the_queries() {
    let mut sender = PM1QuerySender::new(0);
    let mut sent = Vec::new();
    for tick in 1..=500u64 {
        let len = sender.send(ms(40) * (tick - 1) + 1);
        sent.push(len);
        let expected = if tick % 250 == 0 {
            5
        } else if tick % 10 == 0 {
            4
        } else if tick % 2 == 0 {
            2
        } else {
            1
        };
        assert_eq!(len, expected, "tick {}", tick);
    }
    assert_eq!(&sent[..10], &[1, 2, 1, 2, 1, 2, 1, 2, 1, 4]);
    assert_eq!(sent[249], 5);
    assert_eq!(sent[499], 5);
}

#[test]
fn a_second_send_within_the_period_sends_nothing() {
    let mut sender = PM1QuerySender::new(0);
    assert_eq!(sender.send(1), 1);
    assert_eq!(sender.send(2), 0);
    assert_eq!(sender.send(ms(40)), 0);
    assert_eq!(sender.send(ms(40) + 1), 2);
}

#[test]
fn late_wake_sends_the_longest_of_the_missed_ticks_once() {
    // Ticks 1 to 3 come due together: the longest is that of tick 2.
    let mut sender = PM1QuerySender::new(0);
    assert_eq!(sender.send(ms(80) + 1), 2);
    // Ticks 4 to 12: tick 10 asks for four frames.
    assert_eq!(sender.send(ms(440) + 1), 4);
    // Tick 13 alone.
    assert_eq!(sender.send(ms(480) + 1), 1);
    // Ticks 14 to 260: tick 250 asks for all five.
    assert_eq!(sender.send(ms(40) * 259 + 1), 5);
    // Tick 261 alone.
    assert_eq!(sender.send(ms(40) * 260 + 1), 1);
}

#[test]
fn pacemaker_of_a_new_connection_is_due_from_its_opening() {
    let (mut sender, _chassis) = pm1::<u8>(ms(7));
    assert_eq!(sender.send(ms(7)), 0);
    assert_eq!(sender.send(ms(8)), 1);
    assert_eq!(sender.send(ms(48)), 2);
}

#[test]
fn ticks_near_the_end_of_the_clock_do_not_overflow() {
    let mut sender = PM1QuerySender::new(u64::MAX - ms(50));
    assert_eq!(sender.send(u64::MAX), 2);
    assert_eq!(sender.send(u64::MAX), 0);
}
