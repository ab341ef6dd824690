use can2040_rs::controller::{Can2040, Notification, NotificationSink, Statistics};
use can2040_rs::frame::Frame;

struct Rec {
    events: Vec<(u32, Option<Frame>)>,
}

impl Rec {
    fn new() -> Rec {
        Rec { events: Vec::new() }
    }
}

impl NotificationSink for Rec {
    fn notify(&mut self, kind: u32, frame: Option<&Frame>) {
        self.events.push((kind, frame.cloned()));
    }
}

fn node() -> Can2040<Rec> {
    let mut c = Can2040::<Rec>::new(1);
    c.setup();
    c.set_callback(Rec::new());
    c.start(125_000_000, 500_000, 10, 11);
    c
}

fn frame_std(id: u32, dlc: u32, payload: &[u8]) -> Frame {
    Frame::make(id, dlc, &payload.to_vec())
}

/// Two nodes wired to one bus; the bus level is the AND of both outputs
/// (dominant wins). Returns the notifications of each node in order.
fn run_bus(
    a: &mut Can2040<Rec>,
    b: &mut Can2040<Rec>,
    slots: usize,
) -> (Vec<Notification>, Vec<Notification>) {
    let mut drive_a = true;
    let mut drive_b = true;
    let mut notes_a = Vec::new();
    let mut notes_b = Vec::new();
    for _ in 0..slots {
        let bus = drive_a && drive_b;
        let (da, na) = a.handle_interrupt(bus);
        let (db, nb) = b.handle_interrupt(bus);
        drive_a = da;
        drive_b = db;
        if let Some(n) = na {
            notes_a.push(n);
        }
        if let Some(n) = nb {
            notes_b.push(n);
        }
    }
    (notes_a, notes_b)
}

#[test]
fn make_eff_and_rtr_ids() {
    assert_eq!(Can2040::<Rec>::make_eff_id(0x1234), 0x8000_1234);
    assert_eq!(Can2040::<Rec>::make_rtr_id(0x123), 0x4000_0123);
}

#[test]
fn fresh_controller_statistics_are_zero() {
    let mut c = node();
    let s = c.get_statistics();
    assert_eq!(
        s,
        Statistics {
            rx_total: 0,
            tx_total: 0,
            parse_errors: 0,
            arb_losses: 0,
            tx_retries: 0
        }
    );
}

#[test]
fn transmit_slot_is_depth_one() {
    let mut c = node();
    assert_eq!(c.check_transmit(), 1);
    let f = frame_std(0x123, 1, &[9]);
    assert_eq!(c.transmit(f), Ok(()));
    assert_eq!(c.check_transmit(), 0);
    let g = frame_std(0x124, 1, &[8]);
    assert_eq!(c.transmit(g), Err(-1));
    assert_eq!(c.check_transmit(), 0);
}

#[test]
fn stop_releases_the_slot() {
    let mut c = node();
    c.transmit(frame_std(0x11, 0, &[])).unwrap();
    assert_eq!(c.check_transmit(), 0);
    c.stop();
    assert_eq!(c.check_transmit(), 1);
    // stopped: the handler does nothing and drives recessive
    let (d, n) = c.handle_interrupt(false);
    assert!(d);
    assert!(n.is_none());
}

#[test]
fn clean_transmission_yields_one_tx_and_one_rx() {
    // setup(1), start(125 MHz, 500 kbit/s, rx 10, tx 11),
    // transmit {id 0x123, dlc 2, data AA BB} on an idle bus
    let mut a = node();
    let mut b = node();
    let f = frame_std(0x123, 2, &[0xAA, 0xBB]);
    a.transmit(f.clone()).unwrap();
    let (notes_a, notes_b) = run_bus(&mut a, &mut b, 400);
    assert_eq!(notes_a.len(), 1, "exactly one notification for the sender");
    match &notes_a[0] {
        Notification::Tx(g) => assert_eq!(*g, f),
        other => panic!("expected a TX notification, got {:?} kind", kind_of(other)),
    }
    assert_eq!(notes_b.len(), 1, "exactly one notification for the receiver");
    match &notes_b[0] {
        Notification::Rx(g) => assert_eq!(*g, f),
        other => panic!("expected an RX notification, got {:?} kind", kind_of(other)),
    }
    assert_eq!(a.get_statistics().tx_total, 1);
    assert_eq!(a.get_statistics().parse_errors, 0);
    assert_eq!(b.get_statistics().rx_total, 1);
    assert_eq!(b.get_statistics().parse_errors, 0);
    // the slot is free again only after the TX notification
    assert_eq!(a.check_transmit(), 1);
    // the registered sinks saw the same notifications
    assert_eq!(a.sink.as_ref().unwrap().events.len(), 1);
    assert_eq!(
        a.sink.as_ref().unwrap().events[0].0,
        can2040_rs::controller::NOTIFY_TX
    );
    assert_eq!(b.sink.as_ref().unwrap().events.len(), 1);
    assert_eq!(
        b.sink.as_ref().unwrap().events[0].0,
        can2040_rs::controller::NOTIFY_RX
    );
}

fn kind_of(n: &Notification) -> &'static str {
    match n {
        Notification::Rx(_) => "rx",
        Notification::Tx(_) => "tx",
        Notification::Error(_) => "error",
    }
}

#[test]
fn extended_frame_crosses_the_bus() {
    let mut a = node();
    let mut b = node();
    let f = Frame::make(Can2040::<Rec>::make_eff_id(0xABCDE), 4, &vec![1, 2, 3, 4]);
    a.transmit(f.clone()).unwrap();
    let (notes_a, notes_b) = run_bus(&mut a, &mut b, 500);
    assert_eq!(notes_a.len(), 1);
    assert!(matches!(&notes_a[0], Notification::Tx(g) if *g == f));
    assert_eq!(notes_b.len(), 1);
    assert!(matches!(&notes_b[0], Notification::Rx(g) if *g == f));
}

#[test]
fn lone_transmitter_sees_ack_error_and_retries() {
    // nobody on the bus acknowledges: the ACK slot stays recessive
    let mut a = node();
    let f = frame_std(0x55, 1, &[7]);
    a.transmit(f).unwrap();
    let mut drive_a = true;
    let mut errors = 0;
    let mut tx = 0;
    for _ in 0..200 {
        let bus = drive_a;
        let (da, n) = a.handle_interrupt(bus);
        drive_a = da;
        match n {
            Some(Notification::Error(e)) => {
                assert_eq!(e, can2040_rs::frame::CanError::AckError);
                errors += 1;
            }
            Some(Notification::Tx(_)) => tx += 1,
            _ => {}
        }
    }
    assert!(errors >= 1, "a lone transmitter gets no acknowledgment");
    assert_eq!(tx, 0);
    // the frame stays queued for retry
    assert_eq!(a.check_transmit(), 0);
    assert!(a.get_statistics().tx_retries >= 1);
    assert_eq!(a.get_statistics().tx_total, 0);
}

#[test]
fn arbitration_goes_to_the_lower_identifier() {
    let mut a = node();
    let mut b = node();
    let fa = frame_std(0x100, 1, &[1]);
    let fb = frame_std(0x200, 1, &[2]);
    a.transmit(fa.clone()).unwrap();
    b.transmit(fb.clone()).unwrap();
    let (notes_a, notes_b) = run_bus(&mut a, &mut b, 800);
    // the dominant identifier wins the first exchange and never loses
    assert_eq!(a.get_statistics().arb_losses, 0);
    assert_eq!(b.get_statistics().arb_losses, 1);
    assert_eq!(b.get_statistics().tx_retries, 1);
    // no spurious TX for the loser's first attempt: its first event is the
    // winner's frame, then its own retried transmission succeeds
    assert_eq!(notes_a.len(), 2);
    assert!(matches!(&notes_a[0], Notification::Tx(g) if *g == fa));
    assert!(matches!(&notes_a[1], Notification::Rx(g) if *g == fb));
    assert_eq!(notes_b.len(), 2);
    assert!(matches!(&notes_b[0], Notification::Rx(g) if *g == fa));
    assert!(matches!(&notes_b[1], Notification::Tx(g) if *g == fb));
    assert_eq!(a.get_statistics().tx_total, 1);
    assert_eq!(b.get_statistics().tx_total, 1);
    assert_eq!(a.get_statistics().rx_total, 1);
    assert_eq!(b.get_statistics().rx_total, 1);
}

#[test]
fn six_dominant_bits_raise_one_stuff_error() {
    // a stuff violation injected into an active receive
    let mut b = node();
    let bits = [
        false, true, false, true, false, false, false, false, false, false,
    ];
    let mut notes = Vec::new();
    for &bit in bits.iter() {
        let (_, n) = b.handle_interrupt(bit);
        if let Some(n) = n {
            notes.push(n);
        }
    }
    assert_eq!(notes.len(), 1);
    assert!(matches!(
        &notes[0],
        Notification::Error(can2040_rs::frame::CanError::StuffError)
    ));
    assert_eq!(b.get_statistics().parse_errors, 1);
    assert_eq!(b.get_statistics().rx_total, 0);
    // the engine then drives the six-bit error flag, dominant, and
    // returns to idle
    for k in 0..6 {
        let (d, n) = b.handle_interrupt(true);
        assert!(n.is_none());
        if k < 5 {
            assert!(!d, "error flag bit {} must be dominant", k);
        } else {
            assert!(d, "the line is released after the error flag");
        }
    }
}

#[test]
fn setup_resets_statistics() {
    let mut b = node();
    for &bit in [false, false, false, false, false, false].iter() {
        b.handle_interrupt(bit);
    }
    assert_eq!(b.get_statistics().parse_errors, 1);
    b.setup();
    assert_eq!(b.get_statistics().parse_errors, 0);
    assert_eq!(b.check_transmit(), 1);
}

#[test]
fn standard_format_wins_arbitration_tie() {
    // same 11 high identifier bits: the standard frame's dominant IDE
    // decides against the extended frame's recessive SRR/IDE
    let mut a = node();
    let mut b = node();
    let fa = frame_std(0x123, 1, &[1]);
    let fb_id = Can2040::<Rec>::make_eff_id((0x123 << 18) | 0x5);
    let fb = Frame::make(fb_id, 1, &vec![2]);
    a.transmit(fa.clone()).unwrap();
    b.transmit(fb.clone()).unwrap();
    let (notes_a, notes_b) = run_bus(&mut a, &mut b, 900);
    assert_eq!(a.get_statistics().arb_losses, 0);
    assert_eq!(b.get_statistics().arb_losses, 1);
    assert_eq!(notes_a.len(), 2);
    assert_eq!(notes_b.len(), 2);
    assert!(matches!(&notes_a[0], Notification::Tx(g) if *g == fa));
    assert!(matches!(&notes_b[0], Notification::Rx(g) if *g == fa));
    assert!(matches!(&notes_a[1], Notification::Rx(g) if *g == fb));
    assert!(matches!(&notes_b[1], Notification::Tx(g) if *g == fb));
}
