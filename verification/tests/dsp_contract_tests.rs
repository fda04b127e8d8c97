use vehicle_audio_engine::dsp_contract::{EventBuilder, MAX_EVENTS_PER_BLOCK, MAX_PENDING_EVENTS};

#[derive(Clone, Copy, Debug, PartialEq)]
struct Pulse {
    pressure: f32,
    pressure_derivative: f32,
}

#[test]
fn physical_event_and_delayed_bank_cross_block_exactly_once() {
    let mut sink: EventBuilder<Pulse> = EventBuilder::new(44_100, 0);
    sink.begin_block(256);
    let pulse = Pulse { pressure: 0.8, pressure_derivative: 120.0 };
    sink.record_physical(255, 3, pulse, pulse, 10);
    let first = sink.finish_block();
    assert_eq!(first.events.len(), 1);
    assert_eq!((first.events[0].sample_offset, first.events[0].bank), (255, 0));

    sink.begin_block(256);
    let second = sink.finish_block();
    assert_eq!(second.events.len(), 1);
    assert_eq!((second.events[0].sample_offset, second.events[0].bank), (9, 1));
    assert_eq!(second.events[0].payload.pressure_derivative, 120.0);
}

#[test]
fn complete_order_is_stable_without_heap_sort() {
    let mut sink: EventBuilder<Pulse> = EventBuilder::new(44_100, 0);
    sink.begin_block(128);
    let pulse = Pulse { pressure: 1.0, pressure_derivative: 1.0 };
    sink.record_physical(20, 4, pulse, pulse, 0);
    sink.record_physical(20, 1, pulse, pulse, 0);
    let block = sink.finish_block();
    let expected = [(20, 0, 1), (20, 0, 4), (20, 1, 1), (20, 1, 4)];
    assert_eq!(block.events.len(), 4);
    for (event, key) in block.events.iter().zip(expected) {
        assert_eq!((event.sample_offset, event.bank, event.cylinder), key);
    }
}

#[test]
fn block_ids_and_positions_advance() {
    let mut sink: EventBuilder<u8> = EventBuilder::new(48_000, 7);
    sink.begin_block(64);
    assert_eq!(sink.finish_block().stream_block_id, 0);
    sink.begin_block(64);
    sink.record_physical(63, 2, 1, 2, 1);
    let block = sink.finish_block();
    assert_eq!(block.stream_block_id, 1);
    assert_eq!(block.block_samples, 64);
    assert_eq!(block.events.len(), 1);
    sink.begin_block(32);
    let next = sink.finish_block();
    assert_eq!(next.events.len(), 1);
    assert_eq!(next.events[0].sample_offset, 0);
    assert_eq!(next.events[0].payload, 2);
}

#[test]
fn full_block_marks_overflow() {
    let mut sink: EventBuilder<u8> = EventBuilder::new(44_100, 0);
    sink.begin_block(4096);
    for i in 0..(MAX_EVENTS_PER_BLOCK / 2) {
        sink.record_physical((i % 4000) as u32, 0, 0, 0, 0);
    }
    assert!(!sink.overflowed());
    sink.record_physical(1, 0, 0, 0, 0);
    assert!(sink.overflowed());
    assert_eq!(sink.finish_block().events.len(), MAX_EVENTS_PER_BLOCK);
    sink.begin_block(16);
    assert!(!sink.overflowed());
}

#[test]
fn deferred_queue_overflow_is_flagged() {
    let mut sink: EventBuilder<u8> = EventBuilder::new(44_100, 0);
    sink.begin_block(8);
    for _ in 0..MAX_PENDING_EVENTS {
        sink.record_physical(0, 0, 0, 0, 100);
    }
    assert!(!sink.overflowed());
    sink.record_physical(0, 0, 0, 0, 100);
    assert!(sink.overflowed());
}
