use vstd::prelude::*;
use crate::encode::encode;
use crate::encode::wire_bits;
use crate::frame::CanError;
use crate::frame::Frame;
use crate::frame::FrameView;
use crate::frame::ID_EFF;
use crate::frame::ID_RTR;
use crate::rx::RxEngine;
use crate::rx::RxEventView;
use crate::rx::RxGhost;
use crate::rx::RxPhase;
use crate::rx::rx_drive;
use crate::rx::rx_init;
use crate::rx::rx_step;
use crate::timing::BitTiming;
use crate::timing::timing_step;

verus! {

/// Notification kind passed to a sink: a frame was received.
pub const NOTIFY_RX: u32 = 1;
/// Notification kind passed to a sink: a queued frame was transmitted.
pub const NOTIFY_TX: u32 = 2;
/// Notification kind passed to a sink: a protocol error was handled.
pub const NOTIFY_ERROR: u32 = 4;

/// Monotonically increasing operation counters, reset only by `setup`.
#[derive(Clone, Copy, PartialEq, Eq, Structural, Debug)]
pub struct Statistics {
    pub rx_total: u32,
    pub tx_total: u32,
    pub parse_errors: u32,
    pub arb_losses: u32,
    pub tx_retries: u32,
}

/// A saturating counter increment: the counters never wrap.
pub open spec fn bump(c: u32) -> u32 {
    if c == 0xFFFF_FFFF {
        c
    } else {
        (c + 1) as u32
    }
}

fn bump1(c: u32) -> (r: u32)
    ensures
        r == bump(c),
{
    if c < 0xFFFF_FFFF {
        c + 1
    } else {
        c
    }
}

/// The registered notification sink: called once per completed receive,
/// completed transmit or handled error, with one of the `NOTIFY_*` kinds
/// and, for RX and TX, a reference to the frame. The reference is valid
/// only for the duration of the call; a sink that needs the data longer
/// must copy it. The call must not block.
pub trait NotificationSink {
    fn notify(&mut self, kind: u32, frame: Option<&Frame>);
}

/// What one sampling event produced for the application.
pub enum Notification {
    Rx(Frame),
    Tx(Frame),
    Error(CanError),
}

/// The mathematical value of a [`Notification`].
pub ghost enum NotificationView {
    Rx(FrameView),
    Tx(FrameView),
    Error(CanError),
}

pub open spec fn note_view(n: Option<Notification>) -> Option<NotificationView> {
    match n {
        None => None,
        Some(Notification::Rx(f)) => Some(NotificationView::Rx(f@)),
        Some(Notification::Tx(f)) => Some(NotificationView::Tx(f@)),
        Some(Notification::Error(e)) => Some(NotificationView::Error(e)),
    }
}

/// Is the receive engine inside the arbitration field (identifier bits and
/// the framing bits interleaved with them)? While a transmitter is in this
/// region, a dominant bus level against its own recessive output means
/// arbitration was lost, not a bus error.
pub open spec fn in_arbitration(p: RxPhase) -> bool {
    match p {
        RxPhase::BaseId => true,
        RxPhase::FlagSrr => true,
        RxPhase::FlagIde => true,
        RxPhase::ExtId => true,
        RxPhase::FlagRtr => true,
        _ => false,
    }
}

/// The mathematical state of the controller context.
pub ghost struct CtrlGhost {
    pub started: bool,
    pub rx: RxGhost,
    pub pending: Option<FrameView>,
    pub tx_bits: Seq<bool>,
    pub tx_pos: nat,
    pub tx_active: bool,
    pub stats: Statistics,
}

impl CtrlGhost {
    pub open spec fn wf(self) -> bool {
        &&& self.rx.wf()
        &&& self.tx_active ==> self.pending is Some
        &&& self.tx_pos <= self.tx_bits.len()
        &&& self.pending is Some ==> self.tx_bits == wire_bits(self.pending->Some_0)
    }
}

/// The controller state right after `setup`: stopped, idle, empty transmit
/// slot, zeroed statistics.
pub open spec fn ctrl_init() -> CtrlGhost {
    CtrlGhost {
        started: false,
        rx: rx_init(),
        pending: None,
        tx_bits: Seq::empty(),
        tx_pos: 0,
        tx_active: false,
        stats: Statistics {
            rx_total: 0,
            tx_total: 0,
            parse_errors: 0,
            arb_losses: 0,
            tx_retries: 0,
        },
    }
}

/// One sampling event: the sampled bus level for the bit time that just
/// ended is fed to the receive engine and, when a transmission is in
/// flight, compared against the transmitted bit to detect arbitration
/// loss and a missing acknowledgment.
pub open spec fn ctrl_step(c: CtrlGhost, level: bool) -> (CtrlGhost, Option<NotificationView>) {
    if !c.started {
        (c, None)
    } else {
        let rx2 = rx_step(c.rx, level).0;
        let ev = rx_step(c.rx, level).1;
        if c.tx_active {
            let sent = if c.tx_pos < c.tx_bits.len() {
                c.tx_bits[c.tx_pos as int]
            } else {
                true
            };
            if in_arbitration(c.rx.phase) && sent && !level {
                // transmitted recessive, sampled dominant: arbitration lost;
                // the incoming frame keeps decoding and the slot is retried
                (
                    CtrlGhost {
                        rx: rx2,
                        tx_active: false,
                        tx_pos: 0,
                        stats: Statistics {
                            arb_losses: bump(c.stats.arb_losses),
                            tx_retries: bump(c.stats.tx_retries),
                            ..c.stats
                        },
                        ..c
                    },
                    None,
                )
            } else if c.rx.phase == RxPhase::AckSlot && level {
                // the acknowledge slot stayed recessive: no receiver saw the
                // frame; drive the error flag, abort and retry
                (
                    CtrlGhost {
                        rx: RxGhost { phase: RxPhase::ErrorFlag, cnt: 6, ..rx2 },
                        tx_active: false,
                        tx_pos: 0,
                        stats: Statistics { tx_retries: bump(c.stats.tx_retries), ..c.stats },
                        ..c
                    },
                    Some(NotificationView::Error(CanError::AckError)),
                )
            } else {
                match ev {
                    Some(RxEventView::Done(fv)) => (
                        CtrlGhost {
                            rx: rx2,
                            tx_active: false,
                            tx_pos: 0,
                            pending: None,
                            tx_bits: Seq::empty(),
                            stats: Statistics { tx_total: bump(c.stats.tx_total), ..c.stats },
                            ..c
                        },
                        Some(NotificationView::Tx(fv)),
                    ),
                    Some(RxEventView::Fail(e)) => (
                        CtrlGhost {
                            rx: rx2,
                            tx_active: false,
                            tx_pos: 0,
                            stats: Statistics {
                                parse_errors: bump(c.stats.parse_errors),
                                tx_retries: bump(c.stats.tx_retries),
                                ..c.stats
                            },
                            ..c
                        },
                        Some(NotificationView::Error(e)),
                    ),
                    None => (
                        CtrlGhost {
                            rx: rx2,
                            tx_pos: if c.tx_pos < c.tx_bits.len() {
                                c.tx_pos + 1
                            } else {
                                c.tx_pos
                            },
                            ..c
                        },
                        None,
                    ),
                }
            }
        } else {
            match ev {
                Some(RxEventView::Done(fv)) => (
                    CtrlGhost {
                        rx: rx2,
                        stats: Statistics { rx_total: bump(c.stats.rx_total), ..c.stats },
                        ..c
                    },
                    Some(NotificationView::Rx(fv)),
                ),
                Some(RxEventView::Fail(e)) => (
                    CtrlGhost {
                        rx: rx2,
                        stats: Statistics { parse_errors: bump(c.stats.parse_errors), ..c.stats },
                        ..c
                    },
                    Some(NotificationView::Error(e)),
                ),
                None => if c.pending is Some && !c.tx_active && rx2.phase == RxPhase::Idle
                    && level {
                    // the bus is idle: arm the queued frame; its
                    // start-of-frame bit is driven in the next bit time
                    (CtrlGhost { rx: rx2, tx_active: true, tx_pos: 0, ..c }, None)
                } else {
                    (CtrlGhost { rx: rx2, ..c }, None)
                },
            }
        }
    }
}

/// The level the controller drives onto the bus during the next bit time.
pub open spec fn ctrl_drive(c: CtrlGhost) -> bool {
    if !c.started {
        true
    } else if c.tx_active {
        if c.tx_pos < c.tx_bits.len() {
            c.tx_bits[c.tx_pos as int]
        } else {
            true
        }
    } else {
        rx_drive(c.rx)
    }
}

/// The controller context: owns the receive engine, the single-slot
/// transmit queue, the running statistics and the registered notification
/// sink, and is driven once per sampled bit time.
pub struct Can2040<S: NotificationSink> {
    pub pio_num: u32,
    pub sys_clock: u32,
    pub bitrate: u32,
    pub gpio_rx: u32,
    pub gpio_tx: u32,
    pub bit_period: u32,
    pub timing: BitTiming,
    pub started: bool,
    pub rx: RxEngine,
    pub pending: Option<Frame>,
    pub tx_bits: Vec<bool>,
    pub tx_pos: usize,
    pub tx_active: bool,
    pub stats: Statistics,
    pub sink: Option<S>,
}

impl<S: NotificationSink> View for Can2040<S> {
    type V = CtrlGhost;

    open spec fn view(&self) -> CtrlGhost {
        CtrlGhost {
            started: self.started,
            rx: self.rx@,
            pending: match self.pending {
                Some(f) => Some(f@),
                None => None,
            },
            tx_bits: self.tx_bits@,
            tx_pos: self.tx_pos as nat,
            tx_active: self.tx_active,
            stats: self.stats,
        }
    }
}

impl<S: NotificationSink> Can2040<S> {
    /// Allocate a fresh controller context for the given sampling channel,
    /// with zeroed statistics and an empty transmit slot.
    pub fn new(pio_num: u32) -> (r: Can2040<S>)
        ensures
            r@ == ctrl_init(),
            r@.wf(),
            r.pio_num == pio_num,
            r.sys_clock == 0,
            r.bitrate == 0,
            r.gpio_rx == 0,
            r.gpio_tx == 0,
            r.bit_period == 0,
            (r.sink is None),
    {
        let r = Can2040 {
            pio_num,
            sys_clock: 0,
            bitrate: 0,
            gpio_rx: 0,
            gpio_tx: 0,
            bit_period: 0,
            timing: BitTiming::new(8, 1),
            started: false,
            rx: RxEngine::new(),
            pending: None,
            tx_bits: Vec::new(),
            tx_pos: 0,
            tx_active: false,
            stats: Statistics {
                rx_total: 0,
                tx_total: 0,
                parse_errors: 0,
                arb_losses: 0,
                tx_retries: 0,
            },
            sink: None,
        };
        proof {
            assert(r@ =~= ctrl_init());
        }
        r
    }

    /// Re-initialize the context: zero the statistics, drop any queued
    /// frame and return the engine to idle. The configuration and the
    /// registered sink are kept.
    pub fn setup(&mut self)
        ensures
            final(self)@ == ctrl_init(),
            final(self)@.wf(),
            final(self).pio_num == old(self).pio_num,
            final(self).sys_clock == old(self).sys_clock,
            final(self).bitrate == old(self).bitrate,
            final(self).gpio_rx == old(self).gpio_rx,
            final(self).gpio_tx == old(self).gpio_tx,
            final(self).bit_period == old(self).bit_period,
            final(self).timing == old(self).timing,
            final(self).sink == old(self).sink,
    {
        self.started = false;
        self.rx = RxEngine::new();
        self.pending = None;
        self.tx_bits = Vec::new();
        self.tx_pos = 0;
        self.tx_active = false;
        self.stats = Statistics {
            rx_total: 0,
            tx_total: 0,
            parse_errors: 0,
            arb_losses: 0,
            tx_retries: 0,
        };
        proof {
            assert(self@ =~= ctrl_init());
        }
    }

    /// Configure the bit timing from the system clock and the target bit
    /// rate, record the pins, and begin sampling-driven operation.
    /// Re-invocation re-arms with the new parameters.
    pub fn start(&mut self, sys_clock: u32, bitrate: u32, gpio_rx: u32, gpio_tx: u32)
        requires
            1 <= bitrate,
            4 * bitrate <= sys_clock,
        ensures
            final(self)@ == (CtrlGhost { started: true, ..old(self)@ }),
            old(self)@.wf() ==> final(self)@.wf(),
            final(self).sys_clock == sys_clock,
            final(self).bitrate == bitrate,
            final(self).gpio_rx == gpio_rx,
            final(self).gpio_tx == gpio_tx,
            final(self).bit_period == sys_clock / bitrate,
            final(self).timing.wf(),
            final(self).timing.period == sys_clock / bitrate,
            final(self).pio_num == old(self).pio_num,
            final(self).sink == old(self).sink,
    {
        self.sys_clock = sys_clock;
        self.bitrate = bitrate;
        self.gpio_rx = gpio_rx;
        self.gpio_tx = gpio_tx;
        self.bit_period = sys_clock / bitrate;
        proof {
            assert(sys_clock / bitrate >= 4) by (nonlinear_arith)
                requires
                    1 <= bitrate,
                    4 * bitrate <= sys_clock,
            ;
        }
        let mut sjw: u32 = self.bit_period / 8;
        if sjw < 1 {
            sjw = 1;
        }
        if sjw > self.bit_period / 4 {
            sjw = self.bit_period / 4;
        }
        self.timing = BitTiming::new(self.bit_period, sjw);
        self.started = true;
        proof {
            assert(self@ =~= CtrlGhost { started: true, ..old(self)@ });
        }
    }

    /// Halt sampling: no further notifications fire, the transmit slot is
    /// released and protocol-level retrying of a queued frame ends.
    pub fn stop(&mut self)
        ensures
            final(self)@ == (CtrlGhost {
                started: false,
                pending: None,
                tx_bits: Seq::empty(),
                tx_pos: 0,
                tx_active: false,
                ..old(self)@
            }),
            old(self)@.wf() ==> final(self)@.wf(),
            final(self).pio_num == old(self).pio_num,
            final(self).sys_clock == old(self).sys_clock,
            final(self).bitrate == old(self).bitrate,
            final(self).gpio_rx == old(self).gpio_rx,
            final(self).gpio_tx == old(self).gpio_tx,
            final(self).bit_period == old(self).bit_period,
            final(self).timing == old(self).timing,
            final(self).sink == old(self).sink,
    {
        self.started = false;
        self.pending = None;
        self.tx_bits = Vec::new();
        self.tx_pos = 0;
        self.tx_active = false;
        proof {
            assert(self@ =~= CtrlGhost {
                started: false,
                pending: None,
                tx_bits: Seq::empty(),
                tx_pos: 0,
                tx_active: false,
                ..old(self)@
            });
        }
    }

    /// Number of free transmit slots: 1 when the single-slot queue is
    /// empty, 0 while a frame is queued or being retried.
    pub fn check_transmit(&mut self) -> (r: i32)
        ensures
            *final(self) == *old(self),
            r == (if old(self)@.pending is None {
                1int
            } else {
                0int
            }),
    {
        if self.pending.is_some() {
            0
        } else {
            1
        }
    }

    /// Queue one frame for transmission. Fails with `Err(-1)` if the slot
    /// is already occupied; the caller polls `check_transmit` and retries.
    /// On success the frame's wire bit stream is prepared and transmission
    /// starts at the next bus-idle opportunity.
    pub fn transmit(&mut self, msg: Frame) -> (r: Result<(), i32>)
        requires
            msg@.wf(),
        ensures
            ((old(self)@.pending is Some) ==> r == Err::<(), i32>(-1i32) && final(self)@ == old(
                self,
            )@),
            ((old(self)@.pending is None) ==> r == Ok::<(), i32>(()) && final(self)@ == (CtrlGhost {
                pending: Some(msg@),
                tx_bits: wire_bits(msg@),
                tx_pos: 0,
                tx_active: false,
                ..old(self)@
            })),
            old(self)@.wf() ==> final(self)@.wf(),
            final(self).pio_num == old(self).pio_num,
            final(self).sys_clock == old(self).sys_clock,
            final(self).bitrate == old(self).bitrate,
            final(self).gpio_rx == old(self).gpio_rx,
            final(self).gpio_tx == old(self).gpio_tx,
            final(self).bit_period == old(self).bit_period,
            final(self).timing == old(self).timing,
            final(self).sink == old(self).sink,
    {
        if self.pending.is_some() {
            return Err(-1);
        }
        self.tx_bits = encode(&msg);
        self.tx_pos = 0;
        self.tx_active = false;
        self.pending = Some(msg);
        proof {
            assert(self@ =~= CtrlGhost {
                pending: Some(msg@),
                tx_bits: wire_bits(msg@),
                tx_pos: 0,
                tx_active: false,
                ..old(self)@
            });
        }
        Ok(())
    }

    /// Register the notification sink invoked from the sampling handler.
    /// The callback becomes the sole sink; everything else is untouched.
    pub fn set_callback(&mut self, callback: S)
        ensures
            *final(self) == (Can2040 { sink: Some(callback), ..*old(self) }),
            final(self)@ == old(self)@,
    {
        self.sink = Some(callback);
        proof {
            assert(self@ =~= old(self)@);
        }
    }

    /// Snapshot of the running statistics.
    pub fn get_statistics(&mut self) -> (r: Statistics)
        ensures
            *final(self) == *old(self),
            r == old(self)@.stats,
    {
        self.stats
    }

    /// Mark an identifier as extended-format.
    pub fn make_eff_id(id: u32) -> (r: u32)
        ensures
            r == id | ID_EFF,
    {
        id | ID_EFF
    }

    /// Mark an identifier as a remote transmission request.
    pub fn make_rtr_id(id: u32) -> (r: u32)
        ensures
            r == id | ID_RTR,
    {
        id | ID_RTR
    }

    /// The sampling-event handler: called once per bit time with the bus
    /// level sampled during the bit that just ended. Returns the level to
    /// drive during the next bit time and the notification raised by this
    /// bit, if any; the same notification is also delivered to the
    /// registered sink.
    pub fn handle_interrupt(&mut self, level: bool) -> (r: (bool, Option<Notification>))
        requires
            old(self)@.wf(),
        ensures
            final(self)@ == ctrl_step(old(self)@, level).0,
            note_view(r.1) == ctrl_step(old(self)@, level).1,
            r.0 == ctrl_drive(final(self)@),
            final(self)@.wf(),
            final(self).pio_num == old(self).pio_num,
            final(self).sys_clock == old(self).sys_clock,
            final(self).bitrate == old(self).bitrate,
            final(self).gpio_rx == old(self).gpio_rx,
            final(self).gpio_tx == old(self).gpio_tx,
            final(self).bit_period == old(self).bit_period,
            final(self).timing == old(self).timing,
    {
        if !self.started {
            proof {
                assert(self@ =~= ctrl_step(old(self)@, level).0);
            }
            return (true, None);
        }
        let ghost c0 = self@;
        let prev_phase = self.rx.phase;
        let ev = self.rx.step(level);
        let mut note: Option<Notification> = None;
        if self.tx_active {
            let sent: bool = if self.tx_pos < self.tx_bits.len() {
                self.tx_bits[self.tx_pos]
            } else {
                true
            };
            let in_arb: bool = matches!(
                prev_phase,
                RxPhase::BaseId | RxPhase::FlagSrr | RxPhase::FlagIde | RxPhase::ExtId
                    | RxPhase::FlagRtr
            );
            if in_arb && sent && !level {
                self.tx_active = false;
                self.tx_pos = 0;
                self.stats.arb_losses = bump1(self.stats.arb_losses);
                self.stats.tx_retries = bump1(self.stats.tx_retries);
            } else if matches!(prev_phase, RxPhase::AckSlot) && level {
                self.rx.phase = RxPhase::ErrorFlag;
                self.rx.cnt = 6;
                self.tx_active = false;
                self.tx_pos = 0;
                self.stats.tx_retries = bump1(self.stats.tx_retries);
                note = Some(Notification::Error(CanError::AckError));
            } else {
                match ev {
                    Some(crate::rx::RxEvent::Done(fv)) => {
                        self.tx_active = false;
                        self.tx_pos = 0;
                        self.pending = None;
                        self.tx_bits = Vec::new();
                        self.stats.tx_total = bump1(self.stats.tx_total);
                        note = Some(Notification::Tx(fv));
                    },
                    Some(crate::rx::RxEvent::Fail(e)) => {
                        self.tx_active = false;
                        self.tx_pos = 0;
                        self.stats.parse_errors = bump1(self.stats.parse_errors);
                        self.stats.tx_retries = bump1(self.stats.tx_retries);
                        note = Some(Notification::Error(e));
                    },
                    None => {
                        if self.tx_pos < self.tx_bits.len() {
                            self.tx_pos = self.tx_pos + 1;
                        }
                    },
                }
            }
        } else {
            match ev {
                Some(crate::rx::RxEvent::Done(fv)) => {
                    self.stats.rx_total = bump1(self.stats.rx_total);
                    note = Some(Notification::Rx(fv));
                },
                Some(crate::rx::RxEvent::Fail(e)) => {
                    self.stats.parse_errors = bump1(self.stats.parse_errors);
                    note = Some(Notification::Error(e));
                },
                None => {
                    if self.pending.is_some() && matches!(self.rx.phase, RxPhase::Idle) && level {
                        self.tx_active = true;
                        self.tx_pos = 0;
                    }
                },
            }
        }
        proof {
            assert(self@ =~= ctrl_step(c0, level).0);
        }
        // deliver to the registered sink, if any
        match &note {
            Some(Notification::Rx(f)) => {
                match &mut self.sink {
                    Some(s) => s.notify(NOTIFY_RX, Some(f)),
                    None => {},
                }
            },
            Some(Notification::Tx(f)) => {
                match &mut self.sink {
                    Some(s) => s.notify(NOTIFY_TX, Some(f)),
                    None => {},
                }
            },
            Some(Notification::Error(_)) => {
                match &mut self.sink {
                    Some(s) => s.notify(NOTIFY_ERROR, None),
                    None => {},
                }
            },
            None => {},
        }
        let drive: bool = if self.tx_active {
            if self.tx_pos < self.tx_bits.len() {
                self.tx_bits[self.tx_pos]
            } else {
                true
            }
        } else {
            self.rx.drive()
        };
        (drive, note)
    }

    /// The tick-level entry point for platforms that deliver raw sample
    /// ticks rather than one sample per bit: the bit timing unit tracks
    /// the phase within the current bit, hard-synchronizes on the
    /// start-of-frame edge while the receiver is idle, soft-synchronizes
    /// on the first in-frame edge of a bit, and hands the level sampled at
    /// the bit's sample point to the per-bit handler.
    pub fn handle_tick(&mut self, level: bool) -> (r: (bool, Option<Notification>))
        requires
            old(self)@.wf(),
            old(self).timing.wf(),
        ensures
            final(self).timing == timing_step(
                old(self).timing,
                level,
                old(self).rx.phase == RxPhase::Idle,
            ).0,
            final(self).timing.wf(),
            final(self)@.wf(),
            final(self).pio_num == old(self).pio_num,
            final(self).sys_clock == old(self).sys_clock,
            final(self).bitrate == old(self).bitrate,
            final(self).gpio_rx == old(self).gpio_rx,
            final(self).gpio_tx == old(self).gpio_tx,
            final(self).bit_period == old(self).bit_period,
            ({
                let sampled = timing_step(
                    old(self).timing,
                    level,
                    old(self).rx.phase == RxPhase::Idle,
                ).1;
                if sampled is Some {
                    &&& final(self)@ == ctrl_step(old(self)@, sampled->Some_0).0
                    &&& note_view(r.1) == ctrl_step(old(self)@, sampled->Some_0).1
                    &&& r.0 == ctrl_drive(final(self)@)
                } else {
                    &&& final(self)@ == old(self)@
                    &&& r.1 is None
                    &&& r.0 == ctrl_drive(final(self)@)
                }
            }),
    {
        let bus_idle: bool = matches!(self.rx.phase, RxPhase::Idle);
        let sample = self.timing.tick(level, bus_idle);
        proof {
            assert(self@ =~= old(self)@);
        }
        match sample {
            Some(bit) => self.handle_interrupt(bit),
            None => {
                let drive: bool = if !self.started {
                    true
                } else if self.tx_active {
                    if self.tx_pos < self.tx_bits.len() {
                        self.tx_bits[self.tx_pos]
                    } else {
                        true
                    }
                } else {
                    self.rx.drive()
                };
                (drive, None)
            },
        }
    }
}

/// Slot discipline: the single transmit slot is freed exactly when a TX
/// notification fires for the queued frame, never fills by itself, and is
/// otherwise left untouched by the sampling handler.
pub proof fn lemma_slot_discipline(c: CtrlGhost, level: bool)
    requires
        c.wf(),
    ensures
        ({
            let c2 = ctrl_step(c, level).0;
            let n = ctrl_step(c, level).1;
            &&& (((c.pending is Some) && (c2.pending is None)) <==> (n matches Some(
                NotificationView::Tx(_),
            )))
            &&& ((c.pending is None) ==> (c2.pending is None))
            &&& (((c.pending is Some) && !(n matches Some(NotificationView::Tx(_)))) ==> c2.pending
                == c.pending)
        }),
{
}

/// Every frame carried by an RX or TX notification satisfies the frame
/// invariant: data length code at most 8, an 8-byte payload buffer with
/// the unused tail zeroed, and identifier value bits under the two flags.
pub proof fn lemma_notified_frame_wf(c: CtrlGhost, level: bool)
    requires
        c.wf(),
    ensures
        (match ctrl_step(c, level).1 {
            Some(NotificationView::Rx(f)) => f.wf(),
            Some(NotificationView::Tx(f)) => f.wf(),
            _ => true,
        }),
{
    crate::rx::lemma_delivered_frame_wf(c.rx, level);
}

} // verus!
