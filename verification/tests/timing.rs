use can2040_rs::timing::BitTiming;

#[test]
fn sample_point_sits_mid_bit() {
    let mut t = BitTiming::new(16, 4);
    // an idle line: the sample point fires once per period, mid-bit
    let mut samples = 0;
    for i in 1..=32 {
        let r = t.tick(true, false);
        if r.is_some() {
            samples += 1;
            assert!(i % 16 == 8, "sample at tick {}", i);
        }
    }
    assert_eq!(samples, 2);
}

#[test]
fn sof_edge_hard_synchronizes() {
    let mut t = BitTiming::new(16, 4);
    // drift far into a bit while the bus idles recessive
    for _ in 0..6 {
        t.tick(true, true);
    }
    assert_eq!(t.phase, 6);
    // the start-of-frame edge resets the bit boundary entirely
    t.tick(false, true);
    assert_eq!(t.phase, 1);
    // the next sample point comes half a period after the edge
    for i in 2..=8 {
        let r = t.tick(false, false);
        if i < 8 {
            assert!(r.is_none());
        } else {
            assert_eq!(r, Some(false));
        }
    }
}

#[test]
fn soft_sync_pulls_phase_toward_the_edge() {
    let mut t = BitTiming::new(16, 4);
    // drift: an in-frame edge arrives 2 ticks into the bit; the bounded
    // correction removes the drift without a hard reset
    t.tick(true, false);
    t.tick(true, false);
    assert_eq!(t.phase, 2);
    t.tick(false, false); // recessive-to-dominant edge, phase pulled back by 2
    assert_eq!(t.phase, 1);
    assert!(t.synced);
}

#[test]
fn soft_sync_applies_once_per_bit() {
    let mut t = BitTiming::new(16, 4);
    t.tick(true, false);
    t.tick(true, false);
    t.tick(false, false);
    let after_first = t.phase;
    t.tick(true, false);
    t.tick(false, false); // second edge in the same bit: data, not resync
    assert_eq!(t.phase, after_first + 2);
}

use can2040_rs::controller::{Can2040, Notification, NotificationSink};
use can2040_rs::frame::Frame;

struct Quiet;

impl NotificationSink for Quiet {
    fn notify(&mut self, _kind: u32, _frame: Option<&Frame>) {}
}

#[test]
fn tick_level_transmission_crosses_the_bus() {
    // 8 sample ticks per bit: the timing unit picks the sample points
    let mut a = Can2040::<Quiet>::new(0);
    let mut b = Can2040::<Quiet>::new(0);
    a.start(64, 8, 10, 11);
    b.start(64, 8, 10, 11);
    let f = Frame::make(0x321, 2, &vec![0xDE, 0xAD]);
    a.transmit(f.clone()).unwrap();
    let mut drive_a = true;
    let mut drive_b = true;
    let mut tx = 0;
    let mut rx = 0;
    for _ in 0..4000 {
        let bus = drive_a && drive_b;
        let (da, na) = a.handle_tick(bus);
        let (db, nb) = b.handle_tick(bus);
        drive_a = da;
        drive_b = db;
        match na {
            Some(Notification::Tx(g)) => {
                assert_eq!(g, f);
                tx += 1;
            }
            Some(_) => panic!("unexpected notification at the transmitter"),
            None => {}
        }
        match nb {
            Some(Notification::Rx(g)) => {
                assert_eq!(g, f);
                rx += 1;
            }
            Some(_) => panic!("unexpected notification at the receiver"),
            None => {}
        }
    }
    assert_eq!(tx, 1);
    assert_eq!(rx, 1);
}
