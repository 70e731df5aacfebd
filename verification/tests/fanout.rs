use telemetry_core::codec::FixedValue;
use telemetry_core::channel::PublishChannel;
use telemetry_core::record::{VariableEntry, VariableRecord};

fn record(id: &str, int_part: i32) -> VariableRecord {
    VariableRecord {
        entries: vec![VariableEntry {
            id: id.to_string(),
            value: FixedValue { int_part, frac_num: 0 },
        }],
    }
}

#[test]
fn both_early_subscribers_receive_a_published_record() {
    let mut ch = PublishChannel::new(16);
    let mut a = ch.subscribe();
    let mut b = ch.subscribe();
    ch.publish(record("AB01", 7));
    let got_a = ch.recv(&mut a).expect("first subscriber must see the record");
    let got_b = ch.recv(&mut b).expect("second subscriber must see the record");
    assert_eq!(got_a.entry_at(0).id, "AB01");
    assert_eq!(got_a.entry_at(0).value.int_part, 7);
    assert_eq!(got_b.entry_at(0).id, "AB01");
    assert_eq!(got_b.entry_at(0).value.int_part, 7);
    assert!(ch.recv(&mut a).is_none());
    assert!(ch.recv(&mut b).is_none());
}

#[test]
fn late_subscriber_misses_past_records() {
    let mut ch = PublishChannel::new(16);
    ch.publish(record("AB01", 1));
    let mut late = ch.subscribe();
    assert!(ch.recv(&mut late).is_none());
    ch.publish(record("AB02", 2));
    let got = ch.recv(&mut late).expect("records published after attaching do arrive");
    assert_eq!(got.entry_at(0).id, "AB02");
}

#[test]
fn slow_subscriber_is_starved_of_oldest_records() {
    let mut ch = PublishChannel::new(1);
    let mut slow = ch.subscribe();
    ch.publish(record("AB01", 1));
    ch.publish(record("AB02", 2));
    // capacity 1: the first record was evicted before the subscriber read
    // it, so the subscriber lags and skips straight to the second
    let got = ch.recv(&mut slow).expect("the retained record must arrive");
    assert_eq!(got.entry_at(0).id, "AB02");
    assert!(ch.recv(&mut slow).is_none());
}

#[test]
fn publish_order_is_preserved() {
    let mut ch = PublishChannel::new(8);
    let mut sub = ch.subscribe();
    for i in 0..5 {
        ch.publish(record("AB01", i));
    }
    for i in 0..5 {
        assert_eq!(ch.recv(&mut sub).unwrap().entry_at(0).value.int_part, i);
    }
    assert!(ch.recv(&mut sub).is_none());
}
