use vstd::prelude::*;
use vstd::arithmetic::power2::pow2;
use vstd::arithmetic::power2::lemma_pow2_adds;
use vstd::arithmetic::power2::lemma_pow2_strictly_increases;
use vstd::arithmetic::power2::lemma2_to64;
use crate::crc::Crc15;
use crate::crc::crc_step;
use crate::frame::CanError;
use crate::frame::Frame;
use crate::frame::FrameView;
use crate::frame::ID_EFF;
use crate::frame::ID_RTR;

verus! {

/// The field the receive state machine is currently reading. Phases from
/// `BaseId` through `CrcSeq` read destuffed bits; the rest read raw bits.
#[derive(Clone, Copy, PartialEq, Eq, Structural, Debug)]
pub enum RxPhase {
    Idle,
    BaseId,
    FlagSrr,
    FlagIde,
    ExtId,
    FlagRtr,
    Res1,
    Res0,
    Dlc,
    Data,
    CrcSeq,
    CrcDelim,
    AckSlot,
    AckDelim,
    Eof,
    ErrorFlag,
}

/// What one consumed bit produced: a completed frame or a protocol error.
pub enum RxEvent {
    Done(Frame),
    Fail(CanError),
}

/// The mathematical value of an [`RxEvent`].
pub ghost enum RxEventView {
    Done(FrameView),
    Fail(CanError),
}

/// The mathematical state of the receive engine.
pub ghost struct RxGhost {
    pub phase: RxPhase,
    pub ds_val: bool,
    pub ds_run: nat,
    pub crc: u16,
    pub acc: nat,
    pub cnt: nat,
    pub id: nat,
    pub extended: bool,
    pub rtr_tmp: bool,
    pub rtr: bool,
    pub dlc: nat,
    pub data: Seq<u8>,
}

pub open spec fn bitn(b: bool) -> nat {
    if b {
        1
    } else {
        0
    }
}

/// Payload byte count transmitted for a data length code.
pub open spec fn min8(d: nat) -> nat {
    if d < 8 {
        d
    } else {
        8
    }
}

/// Zero-pad a payload to the 8-byte frame buffer.
pub open spec fn pad8(s: Seq<u8>) -> Seq<u8> {
    if s.len() <= 8 {
        s + Seq::new((8 - s.len()) as nat, |i: int| 0u8)
    } else {
        s
    }
}

/// Phases before the data field begins: the byte buffer is still empty.
pub open spec fn before_data(p: RxPhase) -> bool {
    match p {
        RxPhase::BaseId => true,
        RxPhase::FlagSrr => true,
        RxPhase::FlagIde => true,
        RxPhase::ExtId => true,
        RxPhase::FlagRtr => true,
        RxPhase::Res1 => true,
        RxPhase::Res0 => true,
        RxPhase::Dlc => true,
        _ => false,
    }
}

/// Phases after the data field is complete: the byte buffer holds exactly
/// the payload.
pub open spec fn after_data(p: RxPhase) -> bool {
    match p {
        RxPhase::CrcSeq => true,
        RxPhase::CrcDelim => true,
        RxPhase::AckSlot => true,
        RxPhase::AckDelim => true,
        RxPhase::Eof => true,
        _ => false,
    }
}

/// Does this phase read destuffed bits?
pub open spec fn in_stuffed(p: RxPhase) -> bool {
    match p {
        RxPhase::BaseId => true,
        RxPhase::FlagSrr => true,
        RxPhase::FlagIde => true,
        RxPhase::ExtId => true,
        RxPhase::FlagRtr => true,
        RxPhase::Res1 => true,
        RxPhase::Res0 => true,
        RxPhase::Dlc => true,
        RxPhase::Data => true,
        RxPhase::CrcSeq => true,
        _ => false,
    }
}

/// The engine state immediately after a start-of-frame bit: counters
/// cleared, the destuff run primed with the dominant SOF bit, and the CRC
/// register fed with it.
pub open spec fn sof_state() -> RxGhost {
    RxGhost {
        phase: RxPhase::BaseId,
        ds_val: false,
        ds_run: 1,
        crc: crc_step(0, false),
        acc: 0,
        cnt: 11,
        id: 0,
        extended: false,
        rtr_tmp: false,
        rtr: false,
        dlc: 0,
        data: Seq::empty(),
    }
}

/// The idle engine, as set up before any traffic.
pub open spec fn rx_init() -> RxGhost {
    RxGhost {
        phase: RxPhase::Idle,
        ds_val: true,
        ds_run: 0,
        crc: 0,
        acc: 0,
        cnt: 0,
        id: 0,
        extended: false,
        rtr_tmp: false,
        rtr: false,
        dlc: 0,
        data: Seq::empty(),
    }
}

/// Abort into the error-flag sequence: six dominant bits are driven before
/// the engine returns to idle.
pub open spec fn error_state(g: RxGhost) -> RxGhost {
    RxGhost { phase: RxPhase::ErrorFlag, cnt: 6, ..g }
}

/// The frame assembled from a completed receive.
pub open spec fn rx_frame(g: RxGhost) -> FrameView {
    FrameView {
        id: (g.id + (if g.extended {
            ID_EFF as nat
        } else {
            0
        }) + (if g.rtr {
            ID_RTR as nat
        } else {
            0
        })) as u32,
        dlc: g.dlc as u32,
        data: pad8(g.data),
    }
}

/// One destuffed bit consumed by the frame-field decoder (phases `BaseId`
/// through `CrcSeq`).
pub open spec fn fs_step(g: RxGhost, d: bool) -> (RxGhost, Option<RxEventView>) {
    match g.phase {
        RxPhase::BaseId => {
            let g2 = RxGhost {
                acc: 2 * g.acc + bitn(d),
                crc: crc_step(g.crc, d),
                cnt: (g.cnt - 1) as nat,
                phase: if g.cnt == 1 {
                    RxPhase::FlagSrr
                } else {
                    RxPhase::BaseId
                },
                ..g
            };
            (g2, None)
        },
        RxPhase::FlagSrr => (
            RxGhost { rtr_tmp: d, crc: crc_step(g.crc, d), phase: RxPhase::FlagIde, ..g },
            None,
        ),
        RxPhase::FlagIde => if d {
            (
                RxGhost {
                    extended: true,
                    crc: crc_step(g.crc, d),
                    phase: RxPhase::ExtId,
                    cnt: 18,
                    ..g
                },
                None,
            )
        } else {
            (
                RxGhost {
                    extended: false,
                    rtr: g.rtr_tmp,
                    id: g.acc,
                    crc: crc_step(g.crc, d),
                    phase: RxPhase::Res0,
                    ..g
                },
                None,
            )
        },
        RxPhase::ExtId => {
            let a2 = 2 * g.acc + bitn(d);
            let g2 = RxGhost {
                acc: a2,
                crc: crc_step(g.crc, d),
                cnt: (g.cnt - 1) as nat,
                phase: if g.cnt == 1 {
                    RxPhase::FlagRtr
                } else {
                    RxPhase::ExtId
                },
                id: if g.cnt == 1 {
                    a2
                } else {
                    g.id
                },
                ..g
            };
            (g2, None)
        },
        RxPhase::FlagRtr => (
            RxGhost { rtr: d, crc: crc_step(g.crc, d), phase: RxPhase::Res1, ..g },
            None,
        ),
        RxPhase::Res1 => (RxGhost { crc: crc_step(g.crc, d), phase: RxPhase::Res0, ..g }, None),
        RxPhase::Res0 => (
            RxGhost { crc: crc_step(g.crc, d), phase: RxPhase::Dlc, cnt: 4, acc: 0, ..g },
            None,
        ),
        RxPhase::Dlc => {
            let a2 = 2 * g.acc + bitn(d);
            if g.cnt == 1 {
                let n = if g.rtr {
                    0
                } else {
                    min8(a2)
                };
                if n == 0 {
                    (
                        RxGhost {
                            acc: 0,
                            crc: crc_step(g.crc, d),
                            cnt: 15,
                            dlc: min8(a2),
                            phase: RxPhase::CrcSeq,
                            ..g
                        },
                        None,
                    )
                } else {
                    (
                        RxGhost {
                            acc: 0,
                            crc: crc_step(g.crc, d),
                            cnt: 8 * n,
                            dlc: min8(a2),
                            data: Seq::empty(),
                            phase: RxPhase::Data,
                            ..g
                        },
                        None,
                    )
                }
            } else {
                (
                    RxGhost {
                        acc: a2,
                        crc: crc_step(g.crc, d),
                        cnt: (g.cnt - 1) as nat,
                        ..g
                    },
                    None,
                )
            }
        },
        RxPhase::Data => {
            let a2 = 2 * g.acc + bitn(d);
            let c2 = (g.cnt - 1) as nat;
            let push = c2 % 8 == 0;
            let g2 = RxGhost {
                acc: if push {
                    0
                } else {
                    a2
                },
                crc: crc_step(g.crc, d),
                cnt: if c2 == 0 {
                    15
                } else {
                    c2
                },
                data: if push {
                    g.data + seq![a2 as u8]
                } else {
                    g.data
                },
                phase: if c2 == 0 {
                    RxPhase::CrcSeq
                } else {
                    RxPhase::Data
                },
                ..g
            };
            (g2, None)
        },
        RxPhase::CrcSeq => {
            let a2 = 2 * g.acc + bitn(d);
            if g.cnt == 1 {
                if a2 == g.crc {
                    (RxGhost { acc: a2, cnt: 0, phase: RxPhase::CrcDelim, ..g }, None)
                } else {
                    (
                        error_state(RxGhost { acc: a2, ..g }),
                        Some(RxEventView::Fail(CanError::CrcError)),
                    )
                }
            } else {
                (RxGhost { acc: a2, cnt: (g.cnt - 1) as nat, ..g }, None)
            }
        },
        _ => (g, None),
    }
}

/// One raw sampled bit consumed by the receive engine: destuffing where the
/// phase calls for it, then the frame-field decoder.
pub open spec fn rx_step(g: RxGhost, b: bool) -> (RxGhost, Option<RxEventView>) {
    match g.phase {
        RxPhase::Idle => if !b {
            (sof_state(), None)
        } else {
            (g, None)
        },
        RxPhase::ErrorFlag => if g.cnt <= 1 {
            (RxGhost { phase: RxPhase::Idle, cnt: 0, ..g }, None)
        } else {
            (RxGhost { cnt: (g.cnt - 1) as nat, ..g }, None)
        },
        RxPhase::CrcDelim => if g.ds_run == 5 {
            if b == g.ds_val {
                (error_state(g), Some(RxEventView::Fail(CanError::StuffError)))
            } else {
                (RxGhost { ds_val: b, ds_run: 1, ..g }, None)
            }
        } else if b {
            (RxGhost { phase: RxPhase::AckSlot, ..g }, None)
        } else {
            (error_state(g), Some(RxEventView::Fail(CanError::FormError)))
        },
        RxPhase::AckSlot => (RxGhost { phase: RxPhase::AckDelim, ..g }, None),
        RxPhase::AckDelim => if b {
            (RxGhost { phase: RxPhase::Eof, cnt: 7, ..g }, None)
        } else {
            (error_state(g), Some(RxEventView::Fail(CanError::FormError)))
        },
        RxPhase::Eof => if b {
            if g.cnt == 1 {
                (
                    RxGhost { phase: RxPhase::Idle, cnt: 0, ..g },
                    Some(RxEventView::Done(rx_frame(g))),
                )
            } else {
                (RxGhost { cnt: (g.cnt - 1) as nat, ..g }, None)
            }
        } else {
            (error_state(g), Some(RxEventView::Fail(CanError::FormError)))
        },
        _ => {
            // a phase that reads destuffed bits
            if g.ds_run == 5 {
                if b == g.ds_val {
                    (error_state(g), Some(RxEventView::Fail(CanError::StuffError)))
                } else {
                    (RxGhost { ds_val: b, ds_run: 1, ..g }, None)
                }
            } else {
                let g1 = RxGhost {
                    ds_val: b,
                    ds_run: if b == g.ds_val {
                        g.ds_run + 1
                    } else {
                        1
                    },
                    ..g
                };
                fs_step(g1, b)
            }
        },
    }
}

/// The engine folded over a whole bit sequence, collecting every event.
pub open spec fn rx_run(g: RxGhost, s: Seq<bool>) -> (RxGhost, Seq<RxEventView>)
    decreases s.len(),
{
    if s.len() == 0 {
        (g, Seq::empty())
    } else {
        let first = rx_step(g, s[0]);
        let rest = rx_run(first.0, s.skip(1));
        (
            rest.0,
            (match first.1 {
                Some(e) => seq![e],
                None => Seq::empty(),
            }) + rest.1,
        )
    }
}

/// The events a fresh engine yields over a raw bit stream.
pub open spec fn rx_events(s: Seq<bool>) -> Seq<RxEventView> {
    rx_run(rx_init(), s).1
}

pub proof fn lemma_rx_run_concat(g: RxGhost, x: Seq<bool>, y: Seq<bool>)
    ensures
        rx_run(g, x + y).0 == rx_run(rx_run(g, x).0, y).0,
        rx_run(g, x + y).1 == rx_run(g, x).1 + rx_run(rx_run(g, x).0, y).1,
    decreases x.len(),
{
    if x.len() == 0 {
        assert(x + y =~= y);
        assert(rx_run(g, x).1 + rx_run(rx_run(g, x).0, y).1 =~= rx_run(g, y).1);
    } else {
        assert((x + y).skip(1) =~= x.skip(1) + y);
        let first = rx_step(g, x[0]);
        lemma_rx_run_concat(first.0, x.skip(1), y);
        let e0 = match first.1 {
            Some(e) => seq![e],
            None => Seq::<RxEventView>::empty(),
        };
        assert(e0 + (rx_run(first.0, x.skip(1)).1 + rx_run(rx_run(g, x).0, y).1) =~= (e0 + rx_run(
            first.0,
            x.skip(1),
        ).1) + rx_run(rx_run(g, x).0, y).1);
    }
}

impl RxGhost {
    /// Bounds that keep every counter and accumulator of the executable
    /// engine within its machine type.
    pub open spec fn wf(self) -> bool {
        &&& self.ds_run <= 5
        &&& self.id < 0x2000_0000
        &&& self.dlc <= 8
        &&& self.data.len() <= 8
        &&& self.acc < 0x2000_0000
        &&& (self.phase == RxPhase::BaseId ==> 1 <= self.cnt <= 11 && self.acc < pow2(
            (11 - self.cnt) as nat,
        ))
        &&& (self.phase == RxPhase::ExtId ==> 1 <= self.cnt <= 18 && self.acc < pow2(
            (29 - self.cnt) as nat,
        ))
        &&& (self.phase == RxPhase::FlagSrr || self.phase == RxPhase::FlagIde ==> self.acc < pow2(
            11,
        ))
        &&& (self.phase == RxPhase::Dlc ==> 1 <= self.cnt <= 4 && self.acc < pow2(
            (4 - self.cnt) as nat,
        ))
        &&& (self.phase == RxPhase::Data ==> {
            &&& 1 <= self.cnt
            &&& !self.rtr
            &&& 8 * self.data.len() + ((8 - self.cnt % 8) % 8) == 8 * min8(self.dlc) - self.cnt
            &&& self.acc < pow2((((8 - self.cnt % 8) % 8)) as nat)
        })
        &&& (self.phase == RxPhase::CrcSeq ==> 1 <= self.cnt <= 15 && self.acc < pow2(
            (15 - self.cnt) as nat,
        ))
        &&& (self.phase == RxPhase::Eof ==> 1 <= self.cnt <= 7)
        &&& (self.phase == RxPhase::ErrorFlag ==> 1 <= self.cnt <= 6)
        &&& (self.phase == RxPhase::ExtId ==> self.extended)
        &&& (!self.extended ==> self.id < 2048)
        &&& (before_data(self.phase) ==> self.data.len() == 0)
        &&& (after_data(self.phase) ==> self.data.len() == (if self.rtr {
            0int
        } else {
            self.dlc as int
        }))
    }
}

proof fn lemma_acc_grow(a: nat, k: nat)
    requires
        a < pow2(k),
    ensures
        2 * a + 1 < pow2(k + 1),
        2 * a < pow2(k + 1),
        pow2(k + 1) == 2 * pow2(k),
{
    lemma_pow2_adds(k, 1);
    lemma2_to64();
}

/// The mathematical value of an optional receive event.
pub open spec fn ev_view(ev: Option<RxEvent>) -> Option<RxEventView> {
    match ev {
        None => None,
        Some(RxEvent::Done(f)) => Some(RxEventView::Done(f@)),
        Some(RxEvent::Fail(e)) => Some(RxEventView::Fail(e)),
    }
}

/// The receive state machine: consumes one raw sampled bit per call and
/// yields a completed frame or an error condition.
pub struct RxEngine {
    pub phase: RxPhase,
    pub ds_val: bool,
    pub ds_run: u8,
    pub crc: Crc15,
    pub acc: u32,
    pub cnt: u32,
    pub id: u32,
    pub extended: bool,
    pub rtr_tmp: bool,
    pub rtr: bool,
    pub dlc: u32,
    pub data: Vec<u8>,
}

impl View for RxEngine {
    type V = RxGhost;

    open spec fn view(&self) -> RxGhost {
        RxGhost {
            phase: self.phase,
            ds_val: self.ds_val,
            ds_run: self.ds_run as nat,
            crc: self.crc.reg,
            acc: self.acc as nat,
            cnt: self.cnt as nat,
            id: self.id as nat,
            extended: self.extended,
            rtr_tmp: self.rtr_tmp,
            rtr: self.rtr,
            dlc: self.dlc as nat,
            data: self.data@,
        }
    }
}

impl RxEngine {
    pub fn new() -> (r: RxEngine)
        ensures
            r@ == rx_init(),
            r@.wf(),
    {
        let r = RxEngine {
            phase: RxPhase::Idle,
            ds_val: true,
            ds_run: 0,
            crc: Crc15 { reg: 0 },
            acc: 0,
            cnt: 0,
            id: 0,
            extended: false,
            rtr_tmp: false,
            rtr: false,
            dlc: 0,
            data: Vec::new(),
        };
        proof {
            assert(r@ =~= rx_init());
        }
        r
    }

    /// The level the engine drives onto the bus during the next bit time:
    /// dominant while acknowledging a valid frame or driving the error
    /// flag, recessive otherwise.
    pub fn drive(&self) -> (r: bool)
        ensures
            r == rx_drive(self@),
    {
        !(matches!(self.phase, RxPhase::AckSlot) || matches!(self.phase, RxPhase::ErrorFlag))
    }

    /// Consume one raw sampled bus bit.
    #[verifier::rlimit(80)]
    pub fn step(&mut self, b: bool) -> (ev: Option<RxEvent>)
        requires
            old(self)@.wf(),
        ensures
            final(self)@ == rx_step(old(self)@, b).0,
            ev_view(ev) == rx_step(old(self)@, b).1,
            final(self)@.wf(),
    {
        proof {
            lemma2_to64();
        }
        match self.phase {
            RxPhase::Idle => {
                if !b {
                    self.phase = RxPhase::BaseId;
                    self.ds_val = false;
                    self.ds_run = 1;
                    self.crc = Crc15 { reg: 0 };
                    self.crc.feed(false);
                    self.acc = 0;
                    self.cnt = 11;
                    self.id = 0;
                    self.extended = false;
                    self.rtr_tmp = false;
                    self.rtr = false;
                    self.dlc = 0;
                    self.data = Vec::new();
                    proof {
                        assert(self@ =~= sof_state());
                    }
                }
                None
            },
            RxPhase::ErrorFlag => {
                if self.cnt <= 1 {
                    self.phase = RxPhase::Idle;
                    self.cnt = 0;
                } else {
                    self.cnt = self.cnt - 1;
                }
                None
            },
            RxPhase::CrcDelim => {
                if self.ds_run == 5 {
                    if b == self.ds_val {
                        self.phase = RxPhase::ErrorFlag;
                        self.cnt = 6;
                        Some(RxEvent::Fail(CanError::StuffError))
                    } else {
                        self.ds_val = b;
                        self.ds_run = 1;
                        None
                    }
                } else if b {
                    self.phase = RxPhase::AckSlot;
                    None
                } else {
                    self.phase = RxPhase::ErrorFlag;
                    self.cnt = 6;
                    Some(RxEvent::Fail(CanError::FormError))
                }
            },
            RxPhase::AckSlot => {
                self.phase = RxPhase::AckDelim;
                None
            },
            RxPhase::AckDelim => {
                if b {
                    self.phase = RxPhase::Eof;
                    self.cnt = 7;
                    None
                } else {
                    self.phase = RxPhase::ErrorFlag;
                    self.cnt = 6;
                    Some(RxEvent::Fail(CanError::FormError))
                }
            },
            RxPhase::Eof => {
                if b {
                    if self.cnt == 1 {
                        self.phase = RxPhase::Idle;
                        self.cnt = 0;
                        let f = self.assemble();
                        Some(RxEvent::Done(f))
                    } else {
                        self.cnt = self.cnt - 1;
                        None
                    }
                } else {
                    self.phase = RxPhase::ErrorFlag;
                    self.cnt = 6;
                    Some(RxEvent::Fail(CanError::FormError))
                }
            },
            _ => {
                if self.ds_run == 5 {
                    if b == self.ds_val {
                        self.phase = RxPhase::ErrorFlag;
                        self.cnt = 6;
                        return Some(RxEvent::Fail(CanError::StuffError));
                    }
                    self.ds_val = b;
                    self.ds_run = 1;
                    return None;
                }
                if b == self.ds_val {
                    self.ds_run = self.ds_run + 1;
                } else {
                    self.ds_val = b;
                    self.ds_run = 1;
                }
                self.field_step(b)
            },
        }
    }

    /// One destuffed bit into the frame-field decoder.
    #[verifier::rlimit(80)]
    fn field_step(&mut self, d: bool) -> (ev: Option<RxEvent>)
        requires
            old(self)@.wf(),
            in_stuffed(old(self).phase),
        ensures
            final(self)@ == fs_step(old(self)@, d).0,
            ev_view(ev) == fs_step(old(self)@, d).1,
            final(self)@.wf(),
    {
        proof {
            lemma2_to64();
        }
        let inc: u32 = if d {
            1
        } else {
            0
        };
        match self.phase {
            RxPhase::BaseId => {
                proof {
                    lemma_acc_grow(self.acc as nat, (11 - self.cnt) as nat);
                    if self.cnt > 1 {
                        lemma_pow2_strictly_increases((12 - self.cnt) as nat, 11);
                    }
                }
                self.acc = 2 * self.acc + inc;
                self.crc.feed(d);
                self.cnt = self.cnt - 1;
                if self.cnt == 0 {
                    self.phase = RxPhase::FlagSrr;
                }
                None
            },
            RxPhase::FlagSrr => {
                self.rtr_tmp = d;
                self.crc.feed(d);
                self.phase = RxPhase::FlagIde;
                None
            },
            RxPhase::FlagIde => {
                self.crc.feed(d);
                if d {
                    self.extended = true;
                    self.phase = RxPhase::ExtId;
                    self.cnt = 18;
                    proof {
                        lemma_pow2_strictly_increases(11, 29);
                    }
                } else {
                    self.extended = false;
                    self.rtr = self.rtr_tmp;
                    self.id = self.acc;
                    self.phase = RxPhase::Res0;
                    proof {
                        lemma_pow2_strictly_increases(11, 29);
                    }
                }
                None
            },
            RxPhase::ExtId => {
                proof {
                    lemma_acc_grow(self.acc as nat, (29 - self.cnt) as nat);
                    if self.cnt > 1 {
                        lemma_pow2_strictly_increases((30 - self.cnt) as nat, 29);
                    }
                }
                self.acc = 2 * self.acc + inc;
                self.crc.feed(d);
                self.cnt = self.cnt - 1;
                if self.cnt == 0 {
                    self.id = self.acc;
                    self.phase = RxPhase::FlagRtr;
                }
                None
            },
            RxPhase::FlagRtr => {
                self.rtr = d;
                self.crc.feed(d);
                self.phase = RxPhase::Res1;
                None
            },
            RxPhase::Res1 => {
                self.crc.feed(d);
                self.phase = RxPhase::Res0;
                None
            },
            RxPhase::Res0 => {
                self.crc.feed(d);
                self.phase = RxPhase::Dlc;
                self.cnt = 4;
                self.acc = 0;
                None
            },
            RxPhase::Dlc => {
                proof {
                    lemma_acc_grow(self.acc as nat, (4 - self.cnt) as nat);
                    if self.cnt > 1 {
                        lemma_pow2_strictly_increases((5 - self.cnt) as nat, 4);
                    }
                }
                self.acc = 2 * self.acc + inc;
                self.crc.feed(d);
                self.cnt = self.cnt - 1;
                if self.cnt == 0 {
                    // a wire data length code of 9..=15 means 8 data bytes;
                    // the delivered code is clamped to 8 as well
                    self.dlc = if self.acc > 8 {
                        8
                    } else {
                        self.acc
                    };
                    let n: u32 = if self.rtr {
                        0
                    } else {
                        self.dlc
                    };
                    if n == 0 {
                        self.phase = RxPhase::CrcSeq;
                        self.cnt = 15;
                        self.acc = 0;
                    } else {
                        self.phase = RxPhase::Data;
                        self.cnt = 8 * n;
                        self.acc = 0;
                        self.data = Vec::new();
                    }
                }
                None
            },
            RxPhase::Data => {
                proof {
                    lemma_acc_grow(self.acc as nat, ((8 - self.cnt % 8) % 8) as nat);
                }
                self.acc = 2 * self.acc + inc;
                self.crc.feed(d);
                self.cnt = self.cnt - 1;
                if self.cnt % 8 == 0 {
                    let ghost d0 = self.data@;
                    let byte: u8 = self.acc as u8;
                    self.data.push(byte);
                    self.acc = 0;
                    proof {
                        assert(self.data@ =~= d0 + seq![byte]);
                    }
                }
                if self.cnt == 0 {
                    self.phase = RxPhase::CrcSeq;
                    self.cnt = 15;
                }
                proof {
                    assert(self@ =~= fs_step(old(self)@, d).0);
                }
                None
            },
            RxPhase::CrcSeq => {
                proof {
                    lemma_acc_grow(self.acc as nat, (15 - self.cnt) as nat);
                    if self.cnt > 1 {
                        lemma_pow2_strictly_increases((16 - self.cnt) as nat, 15);
                    }
                }
                self.acc = 2 * self.acc + inc;
                self.cnt = self.cnt - 1;
                if self.cnt == 0 {
                    if self.acc == self.crc.value() as u32 {
                        self.phase = RxPhase::CrcDelim;
                        None
                    } else {
                        self.phase = RxPhase::ErrorFlag;
                        self.cnt = 6;
                        Some(RxEvent::Fail(CanError::CrcError))
                    }
                } else {
                    None
                }
            },
            _ => None,
        }
    }

    /// Build the received frame from the decoded fields.
    fn assemble(&self) -> (f: Frame)
        requires
            self@.wf(),
        ensures
            f@ == rx_frame(self@),
    {
        let mut fid: u32 = self.id;
        if self.extended {
            fid = fid + ID_EFF;
        }
        if self.rtr {
            fid = fid + ID_RTR;
        }
        let mut fd: Vec<u8> = Vec::new();
        let mut i: usize = 0;
        while i < self.data.len()
            invariant
                i <= self.data.len(),
                fd@ == self.data@.take(i as int),
            decreases self.data.len() - i,
        {
            proof {
                assert(self.data@.take(i as int + 1) =~= self.data@.take(i as int) + seq![
                    self.data@[i as int],
                ]);
            }
            fd.push(self.data[i]);
            i = i + 1;
        }
        proof {
            assert(fd@ =~= self.data@);
        }
        while fd.len() < 8
            invariant
                self.data@.len() <= fd@.len() <= 8,
                fd@ == self.data@ + Seq::new((fd@.len() - self.data@.len()) as nat, |j: int| 0u8),
            decreases 8 - fd.len(),
        {
            let ghost k = (fd@.len() - self.data@.len()) as nat;
            fd.push(0u8);
            proof {
                assert(fd@ =~= self.data@ + Seq::new((k + 1) as nat, |j: int| 0u8));
            }
        }
        proof {
            assert(fd@ =~= pad8(self.data@));
        }
        Frame { id: fid, dlc: self.dlc, data: fd }
    }
}

/// Every frame the engine delivers satisfies the frame invariant: the
/// data length code is at most 8, the payload buffer holds 8 bytes with
/// the unused tail zeroed, and the identifier carries its value in the
/// low 11 or 29 bits with only the format and remote flags above them.
pub proof fn lemma_delivered_frame_wf(g: RxGhost, b: bool)
    requires
        g.wf(),
    ensures
        (match rx_step(g, b).1 {
            Some(RxEventView::Done(f)) => f.wf(),
            _ => true,
        }),
{
    if g.phase == RxPhase::Eof && b && g.cnt == 1 {
        let f = rx_frame(g);
        let base: u32 = g.id as u32;
        if g.extended {
            if g.rtr {
                assert(base < 0x20000000 ==> ((base + 0x80000000 + 0x40000000) as u32)
                    & 0x80000000 != 0 && ((base + 0x80000000 + 0x40000000) as u32) & 0x40000000
                    != 0 && ((base + 0x80000000 + 0x40000000) as u32) & 0x20000000 == 0)
                    by (bit_vector);
            } else {
                assert(base < 0x20000000 ==> ((base + 0x80000000) as u32) & 0x80000000 != 0 && ((
                base + 0x80000000) as u32) & 0x40000000 == 0 && ((base + 0x80000000) as u32)
                    & 0x20000000 == 0) by (bit_vector);
            }
        } else {
            if g.rtr {
                assert(base < 0x800 ==> ((base + 0x40000000) as u32) & 0x80000000 == 0 && ((base
                    + 0x40000000) as u32) & 0x40000000 != 0 && ((base + 0x40000000) as u32)
                    & 0x3FFFF800 == 0) by (bit_vector);
            } else {
                assert(base < 0x800 ==> base & 0x80000000 == 0 && base & 0x40000000 == 0 && base
                    & 0x3FFFF800 == 0) by (bit_vector);
            }
        }
        assert(f.is_extended() == g.extended);
        assert(f.is_rtr() == g.rtr);
        assert(f.dlc == g.dlc);
        assert(f.data.len() == 8);
        assert(f.payload_len() == g.data.len());
        assert forall|i: int| f.payload_len() <= i < 8 implies f.data[i] == 0 by {
            assert(f.data[i] == pad8(g.data)[i]);
        }
    }
}

/// The level a receiver puts on the bus for a given engine state.
pub open spec fn rx_drive(g: RxGhost) -> bool {
    !(g.phase == RxPhase::AckSlot || g.phase == RxPhase::ErrorFlag)
}

} // verus!
