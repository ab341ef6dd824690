use vstd::prelude::*;
use crate::bits::acc_bits;
use crate::bits::field_bits;
use crate::bits::lemma_field_bits_len;
use crate::bits::lemma_acc_field_bits_exact;
use vstd::arithmetic::power2::lemma2_to64;
use crate::encode::bytes_bits;
use crate::encode::body_bits;
use crate::encode::header_bits;
use crate::encode::logical_bits;
use crate::bits::lemma_acc_field_bits;
use crate::frame::FrameView;
use crate::crc::crc15;
use crate::crc::lemma_crc_run_bound;
use crate::crc::lemma_crc_run_concat;
use crate::rx::sof_state;
use crate::rx::rx_frame;
use crate::rx::rx_init;
use crate::rx::rx_events;
use crate::rx::lemma_rx_run_concat;
use crate::encode::wire_bits;
use crate::encode::frame_tail;
use crate::frame::ID_EFF;
use crate::frame::ID_RTR;
use crate::stuff::stuff_spec;
use crate::stuff::stuff_fin;
use crate::stuff::lemma_stuff_fin_bound;
use crate::stuff::lemma_stuff_from_concat;
use crate::stuff::lemma_stuff_from_first;
use vstd::arithmetic::power2::pow2;
use crate::crc::crc_run;
use crate::crc::crc_step;
use crate::rx::RxGhost;
use crate::rx::bitn;
use crate::rx::min8;
use crate::rx::RxPhase;
use crate::rx::RxEventView;
use crate::rx::fs_step;
use crate::rx::in_stuffed;
use crate::rx::rx_run;
use crate::rx::rx_step;
use crate::stuff::stuff_from;

verus! {

/// The frame-field decoder folded over destuffed bits, state only.
pub open spec fn fs_run_state(g: RxGhost, s: Seq<bool>) -> RxGhost
    decreases s.len(),
{
    if s.len() == 0 {
        g
    } else {
        fs_run_state(fs_step(g, s[0]).0, s.skip(1))
    }
}

/// The frame-field decoder accepts `s` silently: every bit is consumed in
/// a destuffed phase and none yields an event.
pub open spec fn fs_ok(g: RxGhost, s: Seq<bool>) -> bool
    decreases s.len(),
{
    s.len() == 0 || (in_stuffed(g.phase) && fs_step(g, s[0]).1 is None && fs_ok(
        fs_step(g, s[0]).0,
        s.skip(1),
    ))
}

/// The same state with the destuffing run replaced.
pub open spec fn with_ds(g: RxGhost, v: bool, r: nat) -> RxGhost {
    RxGhost { ds_val: v, ds_run: r, ..g }
}

/// The frame-field decoder neither reads nor changes the destuffing run.
pub proof fn lemma_fs_step_ds(g: RxGhost, v: bool, r: nat, d: bool)
    ensures
        fs_step(with_ds(g, v, r), d).0 == with_ds(fs_step(g, d).0, v, r),
        fs_step(with_ds(g, v, r), d).1 == fs_step(g, d).1,
{
    assert(fs_step(with_ds(g, v, r), d).0 =~= with_ds(fs_step(g, d).0, v, r));
}

pub proof fn lemma_fs_run_ds(g: RxGhost, v: bool, r: nat, s: Seq<bool>)
    ensures
        fs_ok(with_ds(g, v, r), s) == fs_ok(g, s),
        fs_run_state(with_ds(g, v, r), s) == with_ds(fs_run_state(g, s), v, r),
    decreases s.len(),
{
    if s.len() == 0 {
        assert(with_ds(g, v, r) =~= fs_run_state(with_ds(g, v, r), s));
    } else {
        lemma_fs_step_ds(g, v, r, s[0]);
        lemma_fs_run_ds(fs_step(g, s[0]).0, v, r, s.skip(1));
    }
}

pub proof fn lemma_fs_run_concat(g: RxGhost, x: Seq<bool>, y: Seq<bool>)
    ensures
        fs_run_state(g, x + y) == fs_run_state(fs_run_state(g, x), y),
        fs_ok(g, x) && fs_ok(fs_run_state(g, x), y) ==> fs_ok(g, x + y),
    decreases x.len(),
{
    if x.len() == 0 {
        assert(x + y =~= y);
    } else {
        assert((x + y).skip(1) =~= x.skip(1) + y);
        lemma_fs_run_concat(fs_step(g, x[0]).0, x.skip(1), y);
    }
}

/// A silently consumed destuffed bit leaves the decoder in a destuffed
/// phase or at the CRC delimiter.
pub proof fn lemma_fs_step_phase(g: RxGhost, d: bool)
    requires
        in_stuffed(g.phase),
        fs_step(g, d).1 is None,
    ensures
        in_stuffed(fs_step(g, d).0.phase) || fs_step(g, d).0.phase == RxPhase::CrcDelim,
{
}

/// Stuff transparency: feeding the stuffed encoding of destuffed bits `s`
/// through the raw receive step, starting with a destuffing run that
/// matches the stuffing automaton, consumes every stuff bit silently and
/// drives the frame-field decoder exactly over `s`.
#[verifier::rlimit(100)]
pub proof fn lemma_stuff_transparent(g: RxGhost, s: Seq<bool>)
    requires
        fs_ok(g, s),
        1 <= g.ds_run <= 4,
    ensures
        rx_run(g, stuff_from(s, g.ds_val, g.ds_run)).1 == Seq::<RxEventView>::empty(),
        rx_run(g, stuff_from(s, g.ds_val, g.ds_run)).0 == with_ds(
            fs_run_state(g, s),
            stuff_fin(s, g.ds_val, g.ds_run).0,
            stuff_fin(s, g.ds_val, g.ds_run).1,
        ),
    decreases s.len(),
{
    let v = g.ds_val;
    let r = g.ds_run;
    if s.len() == 0 {
        assert(stuff_from(s, v, r) =~= Seq::<bool>::empty());
        assert(with_ds(g, v, r) =~= g);
    } else {
        let b = s[0];
        let fsr = fs_step(g, b);
        let fsg1 = fsr.0;
        lemma_fs_step_phase(g, b);
        if b == v && r == 4 {
            let rest = stuff_from(s.skip(1), !b, 1);
            let raw = stuff_from(s, v, r);
            assert(raw == seq![b, !b] + rest);
            assert(raw[0] == b);
            assert(raw.skip(1) =~= seq![!b] + rest);
            assert((seq![!b] + rest)[0] == !b);
            assert((seq![!b] + rest).skip(1) =~= rest);
            // first raw bit: a destuffed data bit, run reaches five
            let h1 = rx_step(g, b).0;
            lemma_fs_step_ds(g, b, 5, b);
            assert(h1 == with_ds(fsg1, b, 5));
            assert(rx_step(g, b).1 is None);
            // second raw bit: the stuff bit, consumed silently
            let h2 = rx_step(h1, !b).0;
            assert(h2 =~= with_ds(fsg1, !b, 1));
            assert(rx_step(h1, !b).1 is None);
            // the rest by induction
            lemma_fs_run_ds(fsg1, !b, 1, s.skip(1));
            lemma_stuff_transparent(h2, s.skip(1));
            assert(rx_run(h2, rest).1 == Seq::<RxEventView>::empty());
            assert(rx_run(g, raw).0 == rx_run(h1, raw.skip(1)).0);
            assert(rx_run(g, raw).1 =~= rx_run(h1, raw.skip(1)).1);
            assert(rx_run(h1, raw.skip(1)).0 == rx_run(h2, (seq![!b] + rest).skip(1)).0);
            assert(rx_run(h1, raw.skip(1)).1 =~= rx_run(h2, (seq![!b] + rest).skip(1)).1);
            assert(rx_run(g, raw).0 == rx_run(h2, rest).0);
            assert(rx_run(g, raw).1 =~= rx_run(h2, rest).1);
            assert(fs_run_state(h2, s.skip(1)) == with_ds(fs_run_state(fsg1, s.skip(1)), !b, 1));
            assert(rx_run(h2, rest).0 == with_ds(
                fs_run_state(h2, s.skip(1)),
                stuff_fin(s.skip(1), !b, 1).0,
                stuff_fin(s.skip(1), !b, 1).1,
            ));
            assert(with_ds(
                with_ds(fs_run_state(fsg1, s.skip(1)), !b, 1),
                stuff_fin(s.skip(1), !b, 1).0,
                stuff_fin(s.skip(1), !b, 1).1,
            ) =~= with_ds(
                fs_run_state(g, s),
                stuff_fin(s, v, r).0,
                stuff_fin(s, v, r).1,
            ));
        } else {
            let nr: nat = if b == v {
                (r + 1) as nat
            } else {
                1
            };
            let rest = stuff_from(s.skip(1), b, nr);
            let raw = stuff_from(s, v, r);
            assert(raw == seq![b] + rest);
            assert(raw[0] == b);
            assert(raw.skip(1) =~= rest);
            let h1 = rx_step(g, b).0;
            lemma_fs_step_ds(g, b, nr, b);
            assert(h1 == with_ds(fsg1, b, nr));
            assert(rx_step(g, b).1 is None);
            lemma_fs_run_ds(fsg1, b, nr, s.skip(1));
            lemma_stuff_transparent(h1, s.skip(1));
            assert(rx_run(h1, rest).1 == Seq::<RxEventView>::empty());
            assert(rx_run(g, raw).0 == rx_run(h1, rest).0);
            assert(rx_run(g, raw).1 =~= rx_run(h1, rest).1);
            assert(fs_run_state(h1, s.skip(1)) == with_ds(fs_run_state(fsg1, s.skip(1)), b, nr));
            assert(rx_run(h1, rest).0 == with_ds(
                fs_run_state(h1, s.skip(1)),
                stuff_fin(s.skip(1), b, nr).0,
                stuff_fin(s.skip(1), b, nr).1,
            ));
            assert(with_ds(
                with_ds(fs_run_state(fsg1, s.skip(1)), b, nr),
                stuff_fin(s.skip(1), b, nr).0,
                stuff_fin(s.skip(1), b, nr).1,
            ) =~= with_ds(
                fs_run_state(g, s),
                stuff_fin(s, v, r).0,
                stuff_fin(s, v, r).1,
            ));
        }
    }
}

/// Reading the identifier field: each bit shifts into the accumulator and
/// the CRC, and the phase advances when the count runs out.
pub proof fn lemma_fs_base(g: RxGhost, s: Seq<bool>)
    requires
        g.phase == RxPhase::BaseId,
        s.len() == g.cnt,
        g.cnt >= 1,
    ensures
        fs_ok(g, s),
        fs_run_state(g, s) == (RxGhost {
            phase: RxPhase::FlagSrr,
            acc: acc_bits(g.acc as int, s) as nat,
            crc: crc_run(g.crc, s),
            cnt: 0,
            ..g
        }),
    decreases s.len(),
{
    let b = s[0];
    let g1 = fs_step(g, b).0;
    assert(acc_bits(g.acc as int, s) == acc_bits(g1.acc as int, s.skip(1)));
    assert(crc_run(g.crc, s) == crc_run(g1.crc, s.skip(1)));
    if g.cnt == 1 {
        assert(s.skip(1) =~= Seq::<bool>::empty());
        assert(fs_run_state(g1, s.skip(1)) == g1);
        assert(acc_bits(g1.acc as int, s.skip(1)) == g1.acc as int);
        assert(crc_run(g1.crc, s.skip(1)) == g1.crc);
        assert(fs_run_state(g, s) =~= (RxGhost {
            phase: RxPhase::FlagSrr,
            acc: acc_bits(g.acc as int, s) as nat,
            crc: crc_run(g.crc, s),
            cnt: 0,
            ..g
        }));
        assert(fs_ok(g1, s.skip(1)));
    } else {
        lemma_fs_base(g1, s.skip(1));
        assert(fs_run_state(g, s) =~= (RxGhost {
            phase: RxPhase::FlagSrr,
            acc: acc_bits(g.acc as int, s) as nat,
            crc: crc_run(g.crc, s),
            cnt: 0,
            ..g
        }));
    }
}

/// Reading the 18-bit identifier extension: as `lemma_fs_base`, and the
/// completed accumulator is recorded as the identifier.
pub proof fn lemma_fs_ext(g: RxGhost, s: Seq<bool>)
    requires
        g.phase == RxPhase::ExtId,
        s.len() == g.cnt,
        g.cnt >= 1,
    ensures
        fs_ok(g, s),
        fs_run_state(g, s) == (RxGhost {
            phase: RxPhase::FlagRtr,
            acc: acc_bits(g.acc as int, s) as nat,
            id: acc_bits(g.acc as int, s) as nat,
            crc: crc_run(g.crc, s),
            cnt: 0,
            ..g
        }),
    decreases s.len(),
{
    let b = s[0];
    let g1 = fs_step(g, b).0;
    assert(acc_bits(g.acc as int, s) == acc_bits(g1.acc as int, s.skip(1)));
    assert(crc_run(g.crc, s) == crc_run(g1.crc, s.skip(1)));
    if g.cnt == 1 {
        assert(s.skip(1) =~= Seq::<bool>::empty());
        assert(fs_run_state(g1, s.skip(1)) == g1);
        assert(acc_bits(g1.acc as int, s.skip(1)) == g1.acc as int);
        assert(crc_run(g1.crc, s.skip(1)) == g1.crc);
        assert(fs_run_state(g, s) =~= (RxGhost {
            phase: RxPhase::FlagRtr,
            acc: acc_bits(g.acc as int, s) as nat,
            id: acc_bits(g.acc as int, s) as nat,
            crc: crc_run(g.crc, s),
            cnt: 0,
            ..g
        }));
        assert(fs_ok(g1, s.skip(1)));
    } else {
        lemma_fs_ext(g1, s.skip(1));
        assert(fs_run_state(g, s) =~= (RxGhost {
            phase: RxPhase::FlagRtr,
            acc: acc_bits(g.acc as int, s) as nat,
            id: acc_bits(g.acc as int, s) as nat,
            crc: crc_run(g.crc, s),
            cnt: 0,
            ..g
        }));
    }
}

/// Reading the data length code: on its last bit the decoder chooses the
/// data phase or, for zero payload, the CRC sequence.
pub proof fn lemma_fs_dlc(g: RxGhost, s: Seq<bool>)
    requires
        g.phase == RxPhase::Dlc,
        s.len() == g.cnt,
        g.cnt >= 1,
    ensures
        fs_ok(g, s),
        ({
            let dv = acc_bits(g.acc as int, s) as nat;
            let n = if g.rtr {
                0nat
            } else {
                min8(dv)
            };
            fs_run_state(g, s) == (if n == 0 {
                RxGhost {
                    phase: RxPhase::CrcSeq,
                    acc: 0,
                    dlc: min8(dv),
                    crc: crc_run(g.crc, s),
                    cnt: 15,
                    ..g
                }
            } else {
                RxGhost {
                    phase: RxPhase::Data,
                    acc: 0,
                    dlc: min8(dv),
                    data: Seq::empty(),
                    crc: crc_run(g.crc, s),
                    cnt: 8 * n,
                    ..g
                }
            })
        }),
    decreases s.len(),
{
    let b = s[0];
    let g1 = fs_step(g, b).0;
    let a2: int = 2 * (g.acc as int) + (if b {
        1int
    } else {
        0int
    });
    assert(acc_bits(g.acc as int, s) == acc_bits(a2, s.skip(1)));
    assert(crc_run(g.crc, s) == crc_run(g1.crc, s.skip(1)));
    if g.cnt == 1 {
        assert(s.skip(1) =~= Seq::<bool>::empty());
        assert(fs_run_state(g1, s.skip(1)) == g1);
        assert(acc_bits(a2, s.skip(1)) == a2);
        assert(crc_run(g1.crc, s.skip(1)) == g1.crc);
        let dv = acc_bits(g.acc as int, s) as nat;
        let n = if g.rtr {
            0nat
        } else {
            min8(dv)
        };
        if n == 0 {
            assert(fs_run_state(g, s) =~= (RxGhost {
                phase: RxPhase::CrcSeq,
                acc: 0,
                dlc: min8(dv),
                crc: crc_run(g.crc, s),
                cnt: 15,
                ..g
            }));
        } else {
            assert(fs_run_state(g, s) =~= (RxGhost {
                phase: RxPhase::Data,
                acc: 0,
                dlc: min8(dv),
                data: Seq::empty(),
                crc: crc_run(g.crc, s),
                cnt: 8 * n,
                ..g
            }));
        }
        assert(fs_ok(g1, s.skip(1)));
    } else {
        lemma_fs_dlc(g1, s.skip(1));
        let dv = acc_bits(g.acc as int, s) as nat;
        let n = if g.rtr {
            0nat
        } else {
            min8(dv)
        };
        if n == 0 {
            assert(fs_run_state(g, s) =~= (RxGhost {
                phase: RxPhase::CrcSeq,
                acc: 0,
                dlc: min8(dv),
                crc: crc_run(g.crc, s),
                cnt: 15,
                ..g
            }));
        } else {
            assert(fs_run_state(g, s) =~= (RxGhost {
                phase: RxPhase::Data,
                acc: 0,
                dlc: min8(dv),
                data: Seq::empty(),
                crc: crc_run(g.crc, s),
                cnt: 8 * n,
                ..g
            }));
        }
    }
}

/// Reading the 15 CRC bits when they match the computed CRC: the register
/// is not fed here, and the decoder reaches the CRC delimiter.
pub proof fn lemma_fs_crcseq(g: RxGhost, s: Seq<bool>)
    requires
        g.phase == RxPhase::CrcSeq,
        s.len() == g.cnt,
        g.cnt >= 1,
        acc_bits(g.acc as int, s) == g.crc as int,
    ensures
        fs_ok(g, s),
        fs_run_state(g, s) == (RxGhost { phase: RxPhase::CrcDelim, acc: g.crc as nat, cnt: 0, ..g }),
    decreases s.len(),
{
    let b = s[0];
    let g1 = fs_step(g, b).0;
    assert(acc_bits(g.acc as int, s) == acc_bits(g1.acc as int, s.skip(1)));
    if g.cnt == 1 {
        assert(s.skip(1) =~= Seq::<bool>::empty());
        assert(fs_run_state(g1, s.skip(1)) == g1);
        assert(acc_bits(g1.acc as int, s.skip(1)) == g1.acc as int);
        assert(g1.acc == g.crc as nat);
        assert(fs_run_state(g, s) =~= (RxGhost {
            phase: RxPhase::CrcDelim,
            acc: g.crc as nat,
            cnt: 0,
            ..g
        }));
        assert(fs_ok(g1, s.skip(1)));
    } else {
        lemma_fs_crcseq(g1, s.skip(1));
        assert(fs_run_state(g, s) =~= (RxGhost {
            phase: RxPhase::CrcDelim,
            acc: g.crc as nat,
            cnt: 0,
            ..g
        }));
    }
}

/// Reading the 15 CRC bits when they do not match the computed CRC: the
/// first fourteen are consumed silently and the final bit yields a CRC
/// error instead of completing the frame. Together with the single-flip
/// sensitivity of `crc15`, any one corrupted bit under CRC cover is
/// rejected here and the receive notification is suppressed.
pub proof fn lemma_fs_crcseq_mismatch(g: RxGhost, s: Seq<bool>)
    requires
        g.phase == RxPhase::CrcSeq,
        s.len() == g.cnt,
        g.cnt >= 1,
        acc_bits(g.acc as int, s) != g.crc as int,
    ensures
        fs_ok(g, s.take(s.len() - 1)),
        fs_run_state(g, s.take(s.len() - 1)).phase == RxPhase::CrcSeq,
        fs_step(fs_run_state(g, s.take(s.len() - 1)), s.last()).1 == Some(
            RxEventView::Fail(crate::frame::CanError::CrcError),
        ),
    decreases s.len(),
{
    let b = s[0];
    let g1 = fs_step(g, b).0;
    assert(acc_bits(g.acc as int, s) == acc_bits(g1.acc as int, s.skip(1)));
    if g.cnt == 1 {
        assert(s.take(0int) =~= Seq::<bool>::empty());
        assert(acc_bits(g1.acc as int, s.skip(1)) == g1.acc as int) by {
            assert(s.skip(1) =~= Seq::<bool>::empty());
        };
        assert(s.last() == b);
        assert(2 * g.acc + bitn(b) != g.crc as nat);
    } else {
        lemma_fs_crcseq_mismatch(g1, s.skip(1));
        assert(s.take(s.len() - 1)[0] == b);
        assert(s.take(s.len() - 1).skip(1) =~= s.skip(1).take(s.skip(1).len() - 1));
        assert(fs_run_state(g, s.take(s.len() - 1)) == fs_run_state(
            g1,
            s.skip(1).take(s.skip(1).len() - 1),
        ));
        assert(s.last() == s.skip(1).last());
    }
}

/// Reading one payload byte: eight bits shift into the accumulator and
/// the CRC, and the completed byte is appended to the data buffer.
#[verifier::rlimit(100)]
pub proof fn lemma_fs_data_byte(g: RxGhost, x: u8)
    requires
        g.phase == RxPhase::Data,
        g.acc == 0,
        g.cnt % 8 == 0,
        g.cnt >= 8,
    ensures
        fs_ok(g, field_bits(x as u32, 8)),
        fs_run_state(g, field_bits(x as u32, 8)) == (RxGhost {
            acc: 0,
            crc: crc_run(g.crc, field_bits(x as u32, 8)),
            cnt: if g.cnt == 8 {
                15nat
            } else {
                (g.cnt - 8) as nat
            },
            data: g.data + seq![x],
            phase: if g.cnt == 8 {
                RxPhase::CrcSeq
            } else {
                RxPhase::Data
            },
            ..g
        }),
{
    let s = field_bits(x as u32, 8);
    lemma_field_bits_len(x as u32, 8);
    lemma2_to64();
    lemma_acc_field_bits_exact(x as u32, 8);
    let s1 = s.skip(1);
    let s2 = s1.skip(1);
    let s3 = s2.skip(1);
    let s4 = s3.skip(1);
    let s5 = s4.skip(1);
    let s6 = s5.skip(1);
    let s7 = s6.skip(1);
    let s8 = s7.skip(1);
    assert(s8 =~= Seq::<bool>::empty());
    assert(s1[0] == s[1] && s2[0] == s[2] && s3[0] == s[3] && s4[0] == s[4] && s5[0] == s[5]
        && s6[0] == s[6] && s7[0] == s[7]);
    let g1 = fs_step(g, s[0]).0;
    let g2 = fs_step(g1, s[1]).0;
    let g3 = fs_step(g2, s[2]).0;
    let g4 = fs_step(g3, s[3]).0;
    let g5 = fs_step(g4, s[4]).0;
    let g6 = fs_step(g5, s[5]).0;
    let g7 = fs_step(g6, s[6]).0;
    let g8 = fs_step(g7, s[7]).0;
    assert(fs_run_state(g, s) == fs_run_state(g1, s1));
    assert(fs_run_state(g1, s1) == fs_run_state(g2, s2));
    assert(fs_run_state(g2, s2) == fs_run_state(g3, s3));
    assert(fs_run_state(g3, s3) == fs_run_state(g4, s4));
    assert(fs_run_state(g4, s4) == fs_run_state(g5, s5));
    assert(fs_run_state(g5, s5) == fs_run_state(g6, s6));
    assert(fs_run_state(g6, s6) == fs_run_state(g7, s7));
    assert(fs_run_state(g7, s7) == fs_run_state(g8, s8));
    assert(fs_run_state(g8, s8) == g8);
    // the accumulated byte equals the encoded one
    assert(acc_bits(0, s) == acc_bits(bitn(s[0]) as int, s1));
    assert(acc_bits(bitn(s[0]) as int, s1) == acc_bits(g2.acc as int, s2));
    assert(acc_bits(g2.acc as int, s2) == acc_bits(g3.acc as int, s3));
    assert(acc_bits(g3.acc as int, s3) == acc_bits(g4.acc as int, s4));
    assert(acc_bits(g4.acc as int, s4) == acc_bits(g5.acc as int, s5));
    assert(acc_bits(g5.acc as int, s5) == acc_bits(g6.acc as int, s6));
    assert(acc_bits(g6.acc as int, s6) == acc_bits(g7.acc as int, s7));
    assert(acc_bits(g7.acc as int, s7) == acc_bits(
        2 * (g7.acc as int) + (if s[7] {
            1int
        } else {
            0int
        }),
        s8,
    ));
    assert(acc_bits(0, s) == x);
    // the running CRC folds over the byte's bits
    assert(crc_run(g.crc, s) == crc_run(g1.crc, s1));
    assert(crc_run(g1.crc, s1) == crc_run(g2.crc, s2));
    assert(crc_run(g2.crc, s2) == crc_run(g3.crc, s3));
    assert(crc_run(g3.crc, s3) == crc_run(g4.crc, s4));
    assert(crc_run(g4.crc, s4) == crc_run(g5.crc, s5));
    assert(crc_run(g5.crc, s5) == crc_run(g6.crc, s6));
    assert(crc_run(g6.crc, s6) == crc_run(g7.crc, s7));
    assert(crc_run(g7.crc, s7) == crc_run(g8.crc, s8));
    assert(crc_run(g8.crc, s8) == g8.crc);
    assert(fs_run_state(g, s) =~= (RxGhost {
        acc: 0,
        crc: crc_run(g.crc, s),
        cnt: if g.cnt == 8 {
            15nat
        } else {
            (g.cnt - 8) as nat
        },
        data: g.data + seq![x],
        phase: if g.cnt == 8 {
            RxPhase::CrcSeq
        } else {
            RxPhase::Data
        },
        ..g
    }));
    assert(fs_ok(g8, s8));
    assert(fs_ok(g7, s7));
    assert(fs_ok(g6, s6));
    assert(fs_ok(g5, s5));
    assert(fs_ok(g4, s4));
    assert(fs_ok(g3, s3));
    assert(fs_ok(g2, s2));
    assert(fs_ok(g1, s1));
    assert(fs_ok(g, s));
}

/// Reading the whole data field, byte by byte; the last byte hands over
/// to the CRC sequence.
pub proof fn lemma_fs_data(g: RxGhost, bs: Seq<u8>)
    requires
        g.phase == RxPhase::Data,
        g.acc == 0,
        g.cnt == 8 * bs.len(),
        bs.len() >= 1,
    ensures
        fs_ok(g, bytes_bits(bs)),
        fs_run_state(g, bytes_bits(bs)) == (RxGhost {
            phase: RxPhase::CrcSeq,
            cnt: 15,
            acc: 0,
            data: g.data + bs,
            crc: crc_run(g.crc, bytes_bits(bs)),
            ..g
        }),
    decreases bs.len(),
{
    let fb = field_bits(bs[0] as u32, 8);
    lemma_field_bits_len(bs[0] as u32, 8);
    lemma_fs_data_byte(g, bs[0]);
    let gb = fs_run_state(g, fb);
    lemma_fs_run_concat(g, fb, bytes_bits(bs.skip(1)));
    assert(bytes_bits(bs) == fb + bytes_bits(bs.skip(1)));
    crate::crc::lemma_crc_run_concat(g.crc, fb, bytes_bits(bs.skip(1)));
    if bs.len() == 1 {
        assert(bs.skip(1) =~= Seq::<u8>::empty());
        assert(bytes_bits(bs.skip(1)) == Seq::<bool>::empty());
        assert(fb + Seq::<bool>::empty() =~= fb);
        assert(crc_run(gb.crc, Seq::<bool>::empty()) == gb.crc);
        assert(g.data + seq![bs[0]] =~= g.data + bs);
        assert(fs_run_state(g, bytes_bits(bs)) =~= (RxGhost {
            phase: RxPhase::CrcSeq,
            cnt: 15,
            acc: 0,
            data: g.data + bs,
            crc: crc_run(g.crc, bytes_bits(bs)),
            ..g
        }));
    } else {
        lemma_fs_data(gb, bs.skip(1));
        assert((g.data + seq![bs[0]]) + bs.skip(1) =~= g.data + bs);
        assert(fs_run_state(g, bytes_bits(bs)) =~= (RxGhost {
            phase: RxPhase::CrcSeq,
            cnt: 15,
            acc: 0,
            data: g.data + bs,
            crc: crc_run(g.crc, bytes_bits(bs)),
            ..g
        }));
    }
}

/// From the data length code through the data field, ending at the entry
/// of the CRC sequence with the decoded fields and the running CRC in
/// place.
#[verifier::rlimit(100)]
pub proof fn lemma_fs_from_dlc(g: RxGhost, f: FrameView)
    requires
        f.wf(),
        g.phase == RxPhase::Dlc,
        g.cnt == 4,
        g.acc == 0,
        g.rtr == f.is_rtr(),
        g.data.len() == 0,
    ensures
        ({
            let c_dlc = field_bits(f.dlc, 4);
            let pd = bytes_bits(f.data.take(f.payload_len()));
            &&& fs_ok(g, c_dlc + pd)
            &&& fs_run_state(g, c_dlc + pd) == (RxGhost {
                phase: RxPhase::CrcSeq,
                acc: 0,
                cnt: 15,
                dlc: f.dlc as nat,
                data: f.data.take(f.payload_len()),
                crc: crc_run(g.crc, c_dlc + pd),
                ..g
            })
        }),
{
    lemma2_to64();
    let c_dlc = field_bits(f.dlc, 4);
    let pd = bytes_bits(f.data.take(f.payload_len()));
    lemma_field_bits_len(f.dlc, 4);
    // the DLC field
    lemma_fs_dlc(g, c_dlc);
    lemma_acc_field_bits_exact(f.dlc, 4);
    let dv = acc_bits(0, c_dlc) as nat;
    assert(dv == f.dlc);
    let n = if g.rtr {
        0nat
    } else {
        min8(dv)
    };
    assert(n == f.payload_len());
    let gd = fs_run_state(g, c_dlc);
    lemma_crc_run_concat(g.crc, c_dlc, pd);
    if n == 0 {
        // remote frame or empty payload: straight to the CRC sequence
        assert(f.data.take(f.payload_len()) =~= Seq::<u8>::empty());
        assert(bytes_bits(f.data.take(f.payload_len())) == Seq::<bool>::empty());
        assert(c_dlc + pd =~= c_dlc);
        assert(gd.data == g.data);
        assert(g.data =~= f.data.take(f.payload_len()));
        assert(fs_run_state(g, c_dlc + pd) =~= (RxGhost {
            phase: RxPhase::CrcSeq,
            acc: 0,
            cnt: 15,
            dlc: f.dlc as nat,
            data: f.data.take(f.payload_len()),
            crc: crc_run(g.crc, c_dlc + pd),
            ..g
        }));
    } else {
        let bs = f.data.take(f.payload_len());
        assert(bs.len() == n);
        lemma_fs_data(gd, bs);
        let ge = fs_run_state(gd, pd);
        assert(ge.data =~= bs);
        lemma_fs_run_concat(g, c_dlc, pd);
        assert(fs_run_state(g, c_dlc + pd) == ge);
        assert(fs_ok(g, c_dlc + pd));
        assert(fs_run_state(g, c_dlc + pd) =~= (RxGhost {
            phase: RxPhase::CrcSeq,
            acc: 0,
            cnt: 15,
            dlc: f.dlc as nat,
            data: f.data.take(f.payload_len()),
            crc: crc_run(g.crc, c_dlc + pd),
            ..g
        }));
    }
}

/// The tour of the CRC-covered fields: from the state right after the
/// start-of-frame bit, the remaining body bits of a well-formed frame are
/// consumed silently and leave the decoder at the entry of the CRC
/// sequence, the frame's fields and the frame CRC in place.
#[verifier::rlimit(100)]
pub proof fn lemma_fs_tour_body(f: FrameView)
    requires
        f.wf(),
    ensures
        fs_ok(sof_state(), body_bits(f).skip(1)),
        ({
            let gf = fs_run_state(sof_state(), body_bits(f).skip(1));
            &&& gf.phase == RxPhase::CrcSeq
            &&& gf.cnt == 15
            &&& gf.acc == 0
            &&& gf.crc == crc15(body_bits(f))
            &&& gf.id == f.base_id()
            &&& gf.extended == f.is_extended()
            &&& gf.rtr == f.is_rtr()
            &&& gf.dlc == f.dlc
            &&& gf.data == f.data.take(f.payload_len())
            &&& gf.ds_val == sof_state().ds_val
            &&& gf.ds_run == sof_state().ds_run
        }),
{
    lemma2_to64();
    let g0 = sof_state();
    let base = f.base_id();
    let pd = bytes_bits(f.data.take(f.payload_len()));
    let c_dlc = field_bits(f.dlc, 4);
    let idv: u32 = f.id;
    if f.is_extended() {
        let hi: u32 = base >> 18;
        let lo: u32 = base & 0x3FFFF;
        assert((idv & 0x1FFFFFFF) >> 18 < 0x800) by (bit_vector);
        assert(((idv & 0x1FFFFFFF) & 0x3FFFF) < 0x40000) by (bit_vector);
        let c_id = field_bits(hi, 11);
        let c_flags = seq![true, true];
        let c_lo = field_bits(lo, 18);
        let c_ctl = seq![f.is_rtr(), false, false];
        lemma_field_bits_len(hi, 11);
        lemma_field_bits_len(lo, 18);
        lemma_field_bits_len(f.dlc, 4);
        // the 11 high identifier bits
        lemma_fs_base(g0, c_id);
        lemma_acc_field_bits_exact(hi, 11);
        let ga = fs_run_state(g0, c_id);
        assert(ga.acc == hi);
        // SRR and IDE, both recessive
        let gb1 = fs_step(ga, true).0;
        let gb2 = fs_step(gb1, true).0;
        assert(c_flags[0] == true && c_flags[1] == true);
        assert(c_flags.skip(1) =~= seq![true]);
        assert(seq![true].skip(1) =~= Seq::<bool>::empty());
        assert(fs_run_state(gb2, Seq::<bool>::empty()) == gb2);
        assert(fs_run_state(gb1, seq![true]) == gb2);
        assert(fs_run_state(ga, c_flags) == fs_run_state(gb1, c_flags.skip(1)));
        assert(fs_run_state(ga, c_flags) == gb2);
        assert(fs_ok(gb2, Seq::<bool>::empty()));
        assert(fs_ok(gb1, seq![true]));
        assert(fs_ok(ga, c_flags));
        assert(gb2.phase == RxPhase::ExtId && gb2.cnt == 18 && gb2.acc == hi
            && gb2.extended == true);
        // the 18 low identifier bits
        lemma_fs_ext(gb2, c_lo);
        lemma_acc_field_bits(hi as int, lo, 18);
        assert(lo < pow2(18));
        vstd::arithmetic::div_mod::lemma_small_mod(lo as nat, pow2(18));
        assert(((base >> 18) as int) * 0x40000 + ((base & 0x3FFFF) as int) == base as int)
            by (bit_vector)
            requires
                base == idv & 0x1FFFFFFF,
        ;
        let gc = fs_run_state(gb2, c_lo);
        assert(gc.id == base && gc.acc == base);
        assert(gc.phase == RxPhase::FlagRtr);
        // RTR, r1 and r0
        let gd1 = fs_step(gc, f.is_rtr()).0;
        let gd2 = fs_step(gd1, false).0;
        let gd3 = fs_step(gd2, false).0;
        assert(c_ctl[0] == f.is_rtr() && c_ctl[1] == false && c_ctl[2] == false);
        assert(c_ctl.skip(1) =~= seq![false, false]);
        assert(seq![false, false].skip(1) =~= seq![false]);
        assert(seq![false].skip(1) =~= Seq::<bool>::empty());
        assert(fs_run_state(gd3, Seq::<bool>::empty()) == gd3);
        assert(fs_run_state(gd2, seq![false]) == gd3);
        assert(fs_run_state(gd1, seq![false, false]) == fs_run_state(gd2, seq![false, false].skip(1)));
        assert(fs_run_state(gd1, seq![false, false]) == gd3);
        assert(fs_run_state(gc, c_ctl) == fs_run_state(gd1, c_ctl.skip(1)));
        assert(fs_run_state(gc, c_ctl) == gd3);
        assert(fs_ok(gd3, Seq::<bool>::empty()));
        assert(fs_ok(gd2, seq![false]));
        assert(fs_ok(gd1, seq![false, false]));
        assert(fs_ok(gc, c_ctl));
        assert(gd3.phase == RxPhase::Dlc && gd3.cnt == 4 && gd3.acc == 0 && gd3.rtr == f.is_rtr()
            && gd3.id == base && gd3.extended == true);
        // the crc threaded through the arbitration and control fields
        assert(seq![false].skip(1) =~= Seq::<bool>::empty());
        assert(seq![false][0] == false);
        assert(crc_run(crc_step(0, false), Seq::<bool>::empty()) == crc_step(0, false));
        assert(crc_run(0, seq![false]) == crc_step(0, false));
        lemma_crc_run_concat(0, seq![false], c_id);
        lemma_crc_run_concat(0, seq![false] + c_id, c_flags);
        lemma_crc_run_concat(0, (seq![false] + c_id) + c_flags, c_lo);
        lemma_crc_run_concat(0, ((seq![false] + c_id) + c_flags) + c_lo, c_ctl);
        assert(ga.crc == crc_run(0, seq![false] + c_id));
        let cga = ga.crc;
        assert(crc_run(crc_step(crc_step(cga, true), true), Seq::<bool>::empty()) == crc_step(
            crc_step(cga, true),
            true,
        ));
        assert(crc_run(crc_step(cga, true), seq![true]) == crc_step(crc_step(cga, true), true));
        assert(crc_run(cga, c_flags) == crc_run(crc_step(cga, true), c_flags.skip(1)));
        assert(crc_run(cga, c_flags) == crc_step(crc_step(cga, true), true));
        assert(gb2.crc == crc_run(0, (seq![false] + c_id) + c_flags));
        assert(gc.crc == crc_run(0, ((seq![false] + c_id) + c_flags) + c_lo));
        let cgc = gc.crc;
        let cd1 = crc_step(cgc, f.is_rtr());
        let cd2 = crc_step(cd1, false);
        let cd3 = crc_step(cd2, false);
        assert(crc_run(cd3, Seq::<bool>::empty()) == cd3);
        assert(crc_run(cd2, seq![false]) == cd3);
        assert(crc_run(cd1, seq![false, false]) == crc_run(cd2, seq![false, false].skip(1)));
        assert(crc_run(cd1, seq![false, false]) == cd3);
        assert(crc_run(cgc, c_ctl) == crc_run(cd1, c_ctl.skip(1)));
        assert(crc_run(cgc, c_ctl) == cd3);
        assert(gd3.crc == crc_run(0, (((seq![false] + c_id) + c_flags) + c_lo) + c_ctl));
        lemma_crc_run_bound(0, (((seq![false] + c_id) + c_flags) + c_lo) + c_ctl);
        // DLC and the data field
        lemma_fs_from_dlc(gd3, f);
        let cend = crc_run(gd3.crc, c_dlc + pd);
        // stitch the chunks together
        lemma_fs_run_concat(g0, c_id, c_flags);
        lemma_fs_run_concat(g0, c_id + c_flags, c_lo);
        lemma_fs_run_concat(g0, (c_id + c_flags) + c_lo, c_ctl);
        lemma_fs_run_concat(g0, ((c_id + c_flags) + c_lo) + c_ctl, c_dlc + pd);
        assert(fs_run_state(g0, c_id + c_flags) == gb2);
        assert(fs_run_state(g0, (c_id + c_flags) + c_lo) == gc);
        assert(fs_run_state(g0, ((c_id + c_flags) + c_lo) + c_ctl) == gd3);
        assert(fs_ok(g0, ((c_id + c_flags) + c_lo) + c_ctl));
        assert(fs_ok(g0, (((c_id + c_flags) + c_lo) + c_ctl) + (c_dlc + pd)));
        // the crc threaded through equals the frame CRC
        lemma_crc_run_concat(0, (((seq![false] + c_id) + c_flags) + c_lo) + c_ctl, c_dlc + pd);
        assert(body_bits(f) =~= ((((seq![false] + c_id) + c_flags) + c_lo) + c_ctl) + (c_dlc + pd));
        assert(cend == crc15(body_bits(f)));
        assert(body_bits(f).skip(1) =~= (((c_id + c_flags) + c_lo) + c_ctl) + (c_dlc + pd));
        assert(fs_ok(g0, body_bits(f).skip(1)));
        let gf = fs_run_state(g0, body_bits(f).skip(1));
        assert(gf == fs_run_state(gd3, c_dlc + pd));
    } else {
        assert(idv & 0x7FF < 0x800) by (bit_vector);
        let c_id = field_bits(base, 11);
        let c_flags = seq![f.is_rtr(), false, false];
        lemma_field_bits_len(base, 11);
        lemma_field_bits_len(f.dlc, 4);
        // the 11 identifier bits
        lemma_fs_base(g0, c_id);
        lemma_acc_field_bits_exact(base, 11);
        let ga = fs_run_state(g0, c_id);
        assert(ga.acc == base);
        // RTR, IDE (dominant) and r0
        let gb1 = fs_step(ga, f.is_rtr()).0;
        let gb2 = fs_step(gb1, false).0;
        let gb3 = fs_step(gb2, false).0;
        assert(c_flags[0] == f.is_rtr() && c_flags[1] == false && c_flags[2] == false);
        assert(c_flags.skip(1) =~= seq![false, false]);
        assert(seq![false, false].skip(1) =~= seq![false]);
        assert(seq![false].skip(1) =~= Seq::<bool>::empty());
        assert(fs_run_state(gb3, Seq::<bool>::empty()) == gb3);
        assert(fs_run_state(gb2, seq![false]) == gb3);
        assert(fs_run_state(gb1, seq![false, false]) == fs_run_state(gb2, seq![false, false].skip(1)));
        assert(fs_run_state(gb1, seq![false, false]) == gb3);
        assert(fs_run_state(ga, c_flags) == fs_run_state(gb1, c_flags.skip(1)));
        assert(fs_run_state(ga, c_flags) == gb3);
        assert(fs_ok(gb3, Seq::<bool>::empty()));
        assert(fs_ok(gb2, seq![false]));
        assert(fs_ok(gb1, seq![false, false]));
        assert(fs_ok(ga, c_flags));
        assert(gb3.phase == RxPhase::Dlc && gb3.cnt == 4 && gb3.acc == 0 && gb3.rtr == f.is_rtr()
            && gb3.id == base && gb3.extended == false);
        // the crc threaded through the arbitration and control fields
        assert(seq![false].skip(1) =~= Seq::<bool>::empty());
        assert(seq![false][0] == false);
        assert(crc_run(crc_step(0, false), Seq::<bool>::empty()) == crc_step(0, false));
        assert(crc_run(0, seq![false]) == crc_step(0, false));
        lemma_crc_run_concat(0, seq![false], c_id);
        lemma_crc_run_concat(0, seq![false] + c_id, c_flags);
        assert(ga.crc == crc_run(0, seq![false] + c_id));
        let cga = ga.crc;
        let cb1 = crc_step(cga, f.is_rtr());
        let cb2 = crc_step(cb1, false);
        let cb3 = crc_step(cb2, false);
        assert(crc_run(cb3, Seq::<bool>::empty()) == cb3);
        assert(crc_run(cb2, seq![false]) == cb3);
        assert(crc_run(cb1, seq![false, false]) == crc_run(cb2, seq![false, false].skip(1)));
        assert(crc_run(cb1, seq![false, false]) == cb3);
        assert(crc_run(cga, c_flags) == crc_run(cb1, c_flags.skip(1)));
        assert(crc_run(cga, c_flags) == cb3);
        assert(gb3.crc == crc_run(0, (seq![false] + c_id) + c_flags));
        lemma_crc_run_bound(0, (seq![false] + c_id) + c_flags);
        // DLC and the data field
        lemma_fs_from_dlc(gb3, f);
        let cend = crc_run(gb3.crc, c_dlc + pd);
        lemma_fs_run_concat(g0, c_id, c_flags);
        lemma_fs_run_concat(g0, c_id + c_flags, c_dlc + pd);
        assert(fs_run_state(g0, c_id + c_flags) == gb3);
        assert(fs_ok(g0, c_id + c_flags));
        assert(fs_ok(g0, (c_id + c_flags) + (c_dlc + pd)));
        lemma_crc_run_concat(0, ((seq![false] + c_id) + c_flags), c_dlc + pd);
        assert(body_bits(f) =~= ((seq![false] + c_id) + c_flags) + (c_dlc + pd));
        assert(cend == crc15(body_bits(f)));
        assert(body_bits(f).skip(1) =~= (c_id + c_flags) + (c_dlc + pd));
        assert(fs_ok(g0, body_bits(f).skip(1)));
        let gf = fs_run_state(g0, body_bits(f).skip(1));
        assert(gf == fs_run_state(gb3, c_dlc + pd));
    }
}

/// The grand tour of the frame-field decoder: from the state right after
/// the start-of-frame bit, the destuffed bits of a well-formed frame and
/// its matching CRC sequence are consumed silently and leave the decoder
/// at the CRC delimiter with the frame's fields decoded.
pub proof fn lemma_fs_tour(f: FrameView)
    requires
        f.wf(),
    ensures
        fs_ok(sof_state(), logical_bits(f).skip(1)),
        ({
            let gf = fs_run_state(sof_state(), logical_bits(f).skip(1));
            &&& gf.phase == RxPhase::CrcDelim
            &&& gf.id == f.base_id()
            &&& gf.extended == f.is_extended()
            &&& gf.rtr == f.is_rtr()
            &&& gf.dlc == f.dlc
            &&& gf.data == f.data.take(f.payload_len())
            &&& gf.cnt == 0
            &&& gf.ds_val == sof_state().ds_val
            &&& gf.ds_run == sof_state().ds_run
        }),
{
    lemma2_to64();
    lemma_fs_tour_body(f);
    let g0 = sof_state();
    let body = body_bits(f);
    let gb = fs_run_state(g0, body.skip(1));
    let cv = crc15(body);
    let pc = field_bits(cv as u32, 15);
    lemma_field_bits_len(cv as u32, 15);
    lemma_crc_run_bound(0, body);
    lemma_acc_field_bits_exact(cv as u32, 15);
    lemma_fs_crcseq(gb, pc);
    lemma_fs_run_concat(g0, body.skip(1), pc);
    assert(logical_bits(f).skip(1) =~= body.skip(1) + pc);
    assert(fs_ok(g0, logical_bits(f).skip(1)));
    assert(fs_run_state(g0, logical_bits(f).skip(1)) == fs_run_state(gb, pc));
}

/// The end-of-frame field: seven recessive bits, the last of which
/// completes the frame and returns the engine to idle.
pub proof fn lemma_eof_run(g: RxGhost)
    requires
        g.phase == RxPhase::Eof,
        g.cnt >= 1,
    ensures
        rx_run(g, Seq::new(g.cnt, |i: int| true)).0 == (RxGhost { phase: RxPhase::Idle, cnt: 0, ..g }),
        rx_run(g, Seq::new(g.cnt, |i: int| true)).1 == seq![RxEventView::Done(rx_frame(g))],
    decreases g.cnt,
{
    let s = Seq::new(g.cnt, |i: int| true);
    assert(s[0] == true);
    if g.cnt == 1 {
        assert(s.skip(1) =~= Seq::<bool>::empty());
        let g1 = rx_step(g, true).0;
        assert(rx_run(g1, Seq::<bool>::empty()).0 == g1);
        assert(rx_run(g1, Seq::<bool>::empty()).1 == Seq::<RxEventView>::empty());
        assert(rx_run(g, s).0 =~= (RxGhost { phase: RxPhase::Idle, cnt: 0, ..g }));
        assert(rx_run(g, s).1 =~= seq![RxEventView::Done(rx_frame(g))]);
    } else {
        let g1 = rx_step(g, true).0;
        assert(g1 =~= (RxGhost { cnt: (g.cnt - 1) as nat, ..g }));
        assert(s.skip(1) =~= Seq::new(g1.cnt, |i: int| true));
        lemma_eof_run(g1);
        assert(rx_frame(g1) =~= rx_frame(g));
        assert(rx_run(g, s).0 == rx_run(g1, s.skip(1)).0);
        assert(rx_run(g, s).1 =~= rx_run(g1, s.skip(1)).1);
        assert(rx_run(g, s).0 =~= (RxGhost { phase: RxPhase::Idle, cnt: 0, ..g }));
    }
}

/// The fixed-form tail as seen by a receiver on a clean bus: CRC
/// delimiter, ACK slot, ACK delimiter and end of frame, completing the
/// frame assembled from the decoded fields.
#[verifier::rlimit(100)]
pub proof fn lemma_tail_run(g: RxGhost)
    requires
        g.phase == RxPhase::CrcDelim,
        g.ds_run <= 4,
    ensures
        rx_run(g, frame_tail()).0 == (RxGhost { phase: RxPhase::Idle, cnt: 0, ..g }),
        rx_run(g, frame_tail()).1 == seq![RxEventView::Done(rx_frame(g))],
{
    let t = frame_tail();
    let g1 = rx_step(g, true).0;
    let g2 = rx_step(g1, true).0;
    let g3 = rx_step(g2, true).0;
    assert(g1.phase == RxPhase::AckSlot);
    assert(g2.phase == RxPhase::AckDelim);
    assert(g3.phase == RxPhase::Eof && g3.cnt == 7);
    let e7 = Seq::new(7nat, |i: int| true);
    assert(t[0] == true && t[1] == true && t[2] == true);
    assert(t.skip(1) =~= seq![true, true] + e7);
    assert((seq![true, true] + e7)[0] == true);
    assert((seq![true, true] + e7).skip(1) =~= seq![true] + e7);
    assert((seq![true] + e7)[0] == true);
    assert((seq![true] + e7).skip(1) =~= e7);
    lemma_eof_run(g3);
    assert(rx_frame(g3) =~= rx_frame(g));
    assert(rx_run(g, t).0 == rx_run(g1, t.skip(1)).0);
    assert(rx_run(g, t).1 =~= rx_run(g1, t.skip(1)).1);
    assert(rx_run(g1, t.skip(1)).0 == rx_run(g2, (seq![true, true] + e7).skip(1)).0);
    assert(rx_run(g1, t.skip(1)).1 =~= rx_run(g2, (seq![true, true] + e7).skip(1)).1);
    assert(rx_run(g2, seq![true] + e7).0 == rx_run(g3, (seq![true] + e7).skip(1)).0);
    assert(rx_run(g2, seq![true] + e7).1 =~= rx_run(g3, (seq![true] + e7).skip(1)).1);
    assert(rx_run(g, t).0 == rx_run(g3, e7).0);
    assert(rx_run(g, t).1 =~= rx_run(g3, e7).1);
    assert(rx_run(g, t).0 =~= (RxGhost { phase: RxPhase::Idle, cnt: 0, ..g }));
}

/// Putting the identifier's value bits back together with its flag bits
/// recovers the stored identifier of a well-formed frame.
pub proof fn lemma_id_recompose(id: u32)
    ensures
        id & ID_EFF != 0 && id & 0x2000_0000 == 0 ==> (id & 0x1FFF_FFFF) as int + 0x8000_0000 + (
        if id & ID_RTR != 0 {
            0x4000_0000int
        } else {
            0int
        }) == id as int,
        id & ID_EFF == 0 && id & 0x3FFF_F800 == 0 ==> (id & 0x7FF) as int + (
        if id & ID_RTR != 0 {
            0x4000_0000int
        } else {
            0int
        }) == id as int,
{
    assert(id & 0x8000_0000 != 0 && id & 0x2000_0000 == 0 && id & 0x4000_0000 != 0 ==> (id
        & 0x1FFF_FFFF) as int + 0x8000_0000 + 0x4000_0000 == id as int) by (bit_vector);
    assert(id & 0x8000_0000 != 0 && id & 0x2000_0000 == 0 && id & 0x4000_0000 == 0 ==> (id
        & 0x1FFF_FFFF) as int + 0x8000_0000 == id as int) by (bit_vector);
    assert(id & 0x8000_0000 == 0 && id & 0x3FFF_F800 == 0 && id & 0x4000_0000 != 0 ==> (id
        & 0x7FF) as int + 0x4000_0000 == id as int) by (bit_vector);
    assert(id & 0x8000_0000 == 0 && id & 0x3FFF_F800 == 0 && id & 0x4000_0000 == 0 ==> (id
        & 0x7FF) as int == id as int) by (bit_vector);
}

/// Round-trip: the raw bit stream of any well-formed frame, fed through a
/// fresh receive engine, yields exactly one event — the frame itself,
/// completed on the final end-of-frame bit.
#[verifier::rlimit(100)]
pub proof fn lemma_frame_roundtrip(f: FrameView)
    requires
        f.wf(),
    ensures
        rx_events(wire_bits(f)) == seq![RxEventView::Done(f)],
{
    let w = wire_bits(f);
    let l = logical_bits(f);
    let g0 = sof_state();
    // the stream opens with the dominant start-of-frame bit
    assert(header_bits(f)[0] == false);
    assert(body_bits(f)[0] == false);
    assert(l[0] == false);
    assert(l.len() > 0);
    let srest = stuff_from(l.skip(1), false, 1);
    assert(stuff_spec(l) == seq![false] + srest);
    assert(w[0] == false);
    assert(w.skip(1) =~= srest + frame_tail());
    assert(rx_step(rx_init(), false).0 == g0);
    assert(rx_step(rx_init(), false).1 is None);
    // the stuffed logical bits run the frame-field decoder silently
    lemma_fs_tour(f);
    lemma_stuff_transparent(g0, l.skip(1));
    let fin = stuff_fin(l.skip(1), false, 1);
    lemma_stuff_fin_bound(l.skip(1), false, 1);
    let gmid = with_ds(fs_run_state(g0, l.skip(1)), fin.0, fin.1);
    assert(rx_run(g0, srest).0 == gmid);
    assert(rx_run(g0, srest).1 == Seq::<RxEventView>::empty());
    assert(gmid.phase == RxPhase::CrcDelim && gmid.ds_run <= 4);
    // the fixed-form tail completes the frame
    lemma_tail_run(gmid);
    lemma_rx_run_concat(g0, srest, frame_tail());
    assert(rx_run(g0, srest + frame_tail()).1 =~= seq![RxEventView::Done(rx_frame(gmid))]);
    assert(rx_run(rx_init(), w).0 == rx_run(g0, w.skip(1)).0);
    assert(rx_run(rx_init(), w).1 =~= rx_run(g0, w.skip(1)).1);
    assert(rx_events(w) =~= seq![RxEventView::Done(rx_frame(gmid))]);
    // the assembled frame is the one encoded
    lemma_id_recompose(f.id);
    assert(rx_frame(gmid).id == f.id);
    assert(rx_frame(gmid).dlc == f.dlc);
    assert(crate::rx::pad8(f.data.take(f.payload_len())) =~= f.data);
    assert(rx_frame(gmid).data =~= f.data);
    assert(rx_frame(gmid) =~= f);
}

/// End-to-end CRC sensitivity: corrupt any single bit of the CRC-covered
/// destuffed stream of a well-formed frame — an identifier or payload bit
/// whose flip leaves the framing fields intact, captured as a second
/// well-formed frame `fc` whose body differs from `f`'s in exactly one
/// position — while the wire still carries `f`'s CRC sequence. A fresh
/// engine fed the resulting raw stream reports a CRC error as its first
/// event: the receive notification for the frame attempt is suppressed.
#[verifier::rlimit(100)]
pub proof fn lemma_corrupted_stream_rejected(f: FrameView, fc: FrameView, i: int)
    requires
        f.wf(),
        fc.wf(),
        fc.is_extended() == f.is_extended(),
        fc.is_rtr() == f.is_rtr(),
        fc.dlc == f.dlc,
        0 <= i < body_bits(f).len(),
        body_bits(fc) == body_bits(f).update(i, !body_bits(f)[i]),
    ensures
        ({
            let lc = body_bits(fc) + field_bits(crc15(body_bits(f)) as u32, 15);
            let w = stuff_spec(lc) + frame_tail();
            &&& rx_events(w).len() >= 1
            &&& rx_events(w)[0] == RxEventView::Fail(crate::frame::CanError::CrcError)
        }),
{
    lemma2_to64();
    let g0 = sof_state();
    let bodyc = body_bits(fc);
    let cv = crc15(body_bits(f));
    let pc = field_bits(cv as u32, 15);
    let lc = bodyc + pc;
    let w = stuff_spec(lc) + frame_tail();
    // the corrupted body has a different CRC than the one on the wire
    crate::crc::lemma_crc15_single_flip(body_bits(f), i);
    assert(crc15(bodyc) != cv);
    // the corrupted body decodes silently up to the CRC comparison
    lemma_fs_tour_body(fc);
    let g1 = fs_run_state(g0, bodyc.skip(1));
    lemma_field_bits_len(cv as u32, 15);
    lemma_crc_run_bound(0, body_bits(f));
    lemma_acc_field_bits_exact(cv as u32, 15);
    assert(acc_bits(g1.acc as int, pc) == cv);
    lemma_fs_crcseq_mismatch(g1, pc);
    // all destuffed bits but the last are consumed without an event
    let pre = bodyc.skip(1) + pc.take(14);
    assert(pc.take(pc.len() - 1) =~= pc.take(14));
    lemma_fs_run_concat(g0, bodyc.skip(1), pc.take(14));
    assert(fs_ok(g0, pre));
    let g2 = fs_run_state(g0, pre);
    assert(g2 == fs_run_state(g1, pc.take(14)));
    assert(g2.phase == RxPhase::CrcSeq);
    let bl = pc[14];
    assert(pc.last() == bl);
    assert(fs_step(g2, bl).1 == Some(RxEventView::Fail(crate::frame::CanError::CrcError)));
    // the raw stream: start of frame, then the stuffed silent prefix,
    // then the raw bit that carries the failing CRC bit
    assert(header_bits(fc)[0] == false);
    assert(body_bits(fc)[0] == false);
    assert(lc[0] == false);
    assert(lc.len() > 0);
    assert(lc.skip(1) =~= pre + seq![bl]);
    let arun = stuff_from(pre, false, 1);
    let fin = stuff_fin(pre, false, 1);
    lemma_stuff_from_concat(pre, seq![bl], false, 1);
    assert(stuff_from(lc.skip(1), false, 1) == arun + stuff_from(seq![bl], fin.0, fin.1));
    assert(stuff_spec(lc) == seq![false] + stuff_from(lc.skip(1), false, 1));
    assert(pre.len() > 0);
    lemma_stuff_fin_bound(pre, false, 1);
    // the stuffed prefix runs the decoder silently
    lemma_stuff_transparent(g0, pre);
    let gm = with_ds(g2, fin.0, fin.1);
    assert(rx_run(g0, arun).0 == gm);
    assert(rx_run(g0, arun).1 == Seq::<RxEventView>::empty());
    // the next raw bit is the last CRC bit and yields the error
    let crun = stuff_from(seq![bl], fin.0, fin.1);
    lemma_stuff_from_first(seq![bl], fin.0, fin.1);
    assert(crun.len() >= 1 && crun[0] == bl);
    let nr: nat = if bl == fin.0 {
        (fin.1 + 1) as nat
    } else {
        1
    };
    lemma_fs_step_ds(g2, bl, nr, bl);
    assert(with_ds(with_ds(g2, fin.0, fin.1), bl, nr) =~= with_ds(g2, bl, nr));
    assert(rx_step(gm, bl).1 == fs_step(g2, bl).1);
    // assemble the events of the whole stream
    assert(w[0] == false);
    assert(rx_step(rx_init(), false).0 == g0);
    assert(rx_step(rx_init(), false).1 is None);
    assert(w.skip(1) =~= arun + (crun + frame_tail()));
    lemma_rx_run_concat(g0, arun, crun + frame_tail());
    assert((crun + frame_tail())[0] == bl);
    let after = rx_run(rx_step(gm, bl).0, (crun + frame_tail()).skip(1)).1;
    assert(rx_run(gm, crun + frame_tail()).1 =~= seq![
        RxEventView::Fail(crate::frame::CanError::CrcError),
    ] + after);
    assert(rx_run(g0, w.skip(1)).1 =~= seq![
        RxEventView::Fail(crate::frame::CanError::CrcError),
    ] + after);
    assert(rx_run(rx_init(), w).0 == rx_run(g0, w.skip(1)).0);
    assert(rx_run(rx_init(), w).1 =~= rx_run(g0, w.skip(1)).1);
    assert(rx_events(w)[0] == RxEventView::Fail(crate::frame::CanError::CrcError));
}

} // verus!
