use vstd::prelude::*;
use crate::bits::field_bits;
use crate::bits::push_field_bits;
use crate::crc::Crc15;
use crate::crc::crc15;
use crate::crc::crc_run;
use crate::crc::lemma_crc_run_concat;
use crate::frame::CanError;
use crate::frame::Frame;
use crate::frame::FrameView;
use crate::rx::RxEngine;
use crate::rx::RxEventView;
use crate::rx::ev_view;
use crate::rx::rx_events;
use crate::rx::rx_init;
use crate::rx::rx_run;
use crate::rx::lemma_rx_run_concat;
use crate::stuff::stuff;
use crate::stuff::stuff_spec;

verus! {

/// The destuffed header of a frame: start-of-frame, arbitration field and
/// control field, most significant identifier bit first.
pub open spec fn header_bits(f: FrameView) -> Seq<bool> {
    if f.is_extended() {
        seq![false] + field_bits(f.base_id() >> 18, 11) + seq![true, true] + field_bits(
            f.base_id() & 0x3FFFF,
            18,
        ) + seq![f.is_rtr(), false, false] + field_bits(f.dlc, 4)
    } else {
        seq![false] + field_bits(f.base_id(), 11) + seq![f.is_rtr(), false, false] + field_bits(
            f.dlc,
            4,
        )
    }
}

/// The bits of a run of payload bytes, each most significant bit first.
pub open spec fn bytes_bits(s: Seq<u8>) -> Seq<bool>
    decreases s.len(),
{
    if s.len() == 0 {
        Seq::empty()
    } else {
        field_bits(s[0] as u32, 8) + bytes_bits(s.skip(1))
    }
}

/// The CRC-covered part of a frame: start-of-frame through the end of the
/// data field.
pub open spec fn body_bits(f: FrameView) -> Seq<bool> {
    header_bits(f) + bytes_bits(f.data.take(f.payload_len()))
}

/// The destuffed bits of a frame up to the end of the CRC sequence.
pub open spec fn logical_bits(f: FrameView) -> Seq<bool> {
    body_bits(f) + field_bits(crc15(body_bits(f)) as u32, 15)
}

/// The fixed-form tail as a transmitter drives it: CRC delimiter, ACK slot
/// (left recessive for a receiver to assert), ACK delimiter and seven
/// end-of-frame bits, all recessive.
pub open spec fn frame_tail() -> Seq<bool> {
    seq![true, true, true, true, true, true, true, true, true, true]
}

/// The raw bit stream of a whole frame as driven onto the bus: the stuffed
/// logical bits followed by the unstuffed tail.
pub open spec fn wire_bits(f: FrameView) -> Seq<bool> {
    stuff_spec(logical_bits(f)) + frame_tail()
}

pub proof fn lemma_bytes_bits_snoc(s: Seq<u8>, x: u8)
    ensures
        bytes_bits(s + seq![x]) == bytes_bits(s) + field_bits(x as u32, 8),
    decreases s.len(),
{
    if s.len() == 0 {
        assert((s + seq![x])[0] == x);
        assert((s + seq![x]).skip(1) =~= Seq::<u8>::empty());
        assert(bytes_bits(Seq::<u8>::empty()) == Seq::<bool>::empty());
        assert(field_bits(x as u32, 8) + Seq::<bool>::empty() =~= field_bits(x as u32, 8));
        assert(bytes_bits(s + seq![x]) =~= field_bits(x as u32, 8));
        assert(bytes_bits(s) + field_bits(x as u32, 8) =~= field_bits(x as u32, 8));
    } else {
        assert((s + seq![x]).skip(1) =~= s.skip(1) + seq![x]);
        lemma_bytes_bits_snoc(s.skip(1), x);
        assert((s + seq![x])[0] == s[0]);
        assert(field_bits(s[0] as u32, 8) + (bytes_bits(s.skip(1)) + field_bits(x as u32, 8))
            =~= (field_bits(s[0] as u32, 8) + bytes_bits(s.skip(1))) + field_bits(x as u32, 8));
    }
}

/// Encode a frame into its destuffed logical bits: header, payload and the
/// 15 CRC bits.
fn encode_logical(f: &Frame) -> (r: Vec<bool>)
    requires
        f@.wf(),
    ensures
        r@ == logical_bits(f@),
{
    let extended: bool = f.id & crate::frame::ID_EFF != 0;
    let rtr: bool = f.id & crate::frame::ID_RTR != 0;
    let base: u32 = if extended {
        f.id & crate::frame::ID_EXT_MASK
    } else {
        f.id & crate::frame::ID_STD_MASK
    };
    let mut l: Vec<bool> = Vec::new();
    l.push(false);
    if extended {
        push_field_bits(&mut l, base >> 18, 11);
        l.push(true);
        l.push(true);
        push_field_bits(&mut l, base & 0x3FFFF, 18);
        l.push(rtr);
        l.push(false);
        l.push(false);
        push_field_bits(&mut l, f.dlc, 4);
    } else {
        push_field_bits(&mut l, base, 11);
        l.push(rtr);
        l.push(false);
        l.push(false);
        push_field_bits(&mut l, f.dlc, 4);
    }
    proof {
        assert(l@ =~= header_bits(f@));
    }
    let n: usize = if rtr {
        0
    } else {
        f.dlc as usize
    };
    let ghost payload = f@.data.take(f@.payload_len());
    let mut i: usize = 0;
    while i < n
        invariant
            f@.wf(),
            i <= n,
            n == f@.payload_len(),
            f@.data.len() == 8,
            l@ == header_bits(f@) + bytes_bits(payload.take(i as int)),
            payload == f@.data.take(f@.payload_len()),
        decreases n - i,
    {
        proof {
            assert(payload.take(i as int + 1) =~= payload.take(i as int) + seq![payload[i as int]]);
            lemma_bytes_bits_snoc(payload.take(i as int), f@.data[i as int]);
        }
        push_field_bits(&mut l, f.data[i] as u32, 8);
        proof {
            assert(l@ =~= header_bits(f@) + bytes_bits(payload.take(i as int + 1)));
        }
        i = i + 1;
    }
    proof {
        assert(payload.take(n as int) =~= payload);
        assert(l@ == header_bits(f@) + bytes_bits(payload));
        assert(l@ =~= body_bits(f@));
    }
    // CRC over start-of-frame through the data field
    let mut crc = Crc15::new();
    let mut j: usize = 0;
    while j < l.len()
        invariant
            j <= l.len(),
            l@ == body_bits(f@),
            crc.reg == crc_run(0, l@.take(j as int)),
        decreases l.len() - j,
    {
        proof {
            assert(l@.take(j as int + 1) =~= l@.take(j as int) + seq![l@[j as int]]);
            lemma_crc_run_concat(0, l@.take(j as int), seq![l@[j as int]]);
            assert(seq![l@[j as int]].skip(1) =~= Seq::<bool>::empty());
            let rr = crc_run(0, l@.take(j as int));
            let bb = l@[j as int];
            assert(crc_run(crate::crc::crc_step(rr, bb), Seq::<bool>::empty()) == crate::crc::crc_step(
                rr,
                bb,
            ));
            assert(crc_run(rr, seq![bb]) == crate::crc::crc_step(rr, bb));
        }
        let b = l[j];
        crc.feed(b);
        j = j + 1;
    }
    proof {
        assert(l@.take(l@.len() as int) =~= l@);
    }
    let crc_value: u16 = crc.value();
    push_field_bits(&mut l, crc_value as u32, 15);
    proof {
        assert(l@ =~= logical_bits(f@));
    }
    l
}

/// Encode a frame into the raw bit stream driven onto the bus: the stuffed
/// logical bits followed by the recessive fixed-form tail.
pub fn encode(f: &Frame) -> (r: Vec<bool>)
    requires
        f@.wf(),
    ensures
        r@ == wire_bits(f@),
{
    let l = encode_logical(f);
    let mut w = stuff(&l);
    let mut k: usize = 0;
    while k < 10
        invariant
            k <= 10,
            w@ == stuff_spec(logical_bits(f@)) + frame_tail().take(k as int),
        decreases 10 - k,
    {
        w.push(true);
        proof {
            assert(frame_tail().take(k as int + 1) =~= frame_tail().take(k as int) + seq![true]);
            assert(w@ =~= stuff_spec(logical_bits(f@)) + frame_tail().take(k as int + 1));
        }
        k = k + 1;
    }
    proof {
        assert(frame_tail().take(10) =~= frame_tail());
    }
    w
}

/// Decode a raw bit stream: feed it bit by bit into a fresh receive engine
/// and report the first completed frame or protocol error; `Incomplete` if
/// the stream ends mid-frame with neither.
pub fn decode(bits: &Vec<bool>) -> (r: Result<Frame, CanError>)
    ensures
        match r {
            Ok(f) => rx_events(bits@).len() >= 1 && rx_events(bits@)[0] == RxEventView::Done(f@),
            Err(CanError::Incomplete) => rx_events(bits@).len() == 0,
            Err(e) => rx_events(bits@).len() >= 1 && rx_events(bits@)[0] == RxEventView::Fail(e),
        },
{
    let mut engine = RxEngine::new();
    let mut i: usize = 0;
    proof {
        assert(bits@.take(0int) =~= Seq::<bool>::empty());
    }
    while i < bits.len()
        invariant
            i <= bits.len(),
            engine@.wf(),
            engine@ == rx_run(rx_init(), bits@.take(i as int)).0,
            rx_run(rx_init(), bits@.take(i as int)).1 == Seq::<RxEventView>::empty(),
        decreases bits.len() - i,
    {
        let ghost p = bits@.take(i as int);
        let b = bits[i];
        proof {
            assert(bits@.take(i as int + 1) =~= p + seq![b]);
            lemma_rx_run_concat(rx_init(), p, seq![b]);
            assert(seq![b].skip(1) =~= Seq::<bool>::empty());
        }
        let ev = engine.step(b);
        proof {
            let st = rx_run(rx_init(), p).0;
            let st1 = crate::rx::rx_step(st, b);
            assert(rx_run(st1.0, Seq::<bool>::empty()).0 == st1.0);
            assert(rx_run(st1.0, Seq::<bool>::empty()).1 == Seq::<RxEventView>::empty());
            let one = rx_run(st, seq![b]);
            assert(one.0 == st1.0);
            if st1.1 is Some {
                assert(one.1 =~= seq![st1.1->Some_0]);
            } else {
                assert(one.1 =~= Seq::<RxEventView>::empty());
            }
            if st1.1 is Some {
                assert(rx_run(rx_init(), bits@.take(i as int + 1)).1 =~= seq![st1.1->Some_0]);
            } else {
                assert(rx_run(rx_init(), bits@.take(i as int + 1)).1 =~= Seq::<
                    RxEventView,
                >::empty());
            }
        }
        match ev {
            Some(e) => {
                proof {
                    let full = bits@;
                    assert(full =~= bits@.take(i as int + 1) + full.skip(i as int + 1));
                    lemma_rx_run_concat(rx_init(), bits@.take(i as int + 1), full.skip(i as int + 1));
                    assert(rx_events(full)[0] == ev_view(Some(e))->Some_0);
                }
                match e {
                    crate::rx::RxEvent::Done(f) => {
                        return Ok(f);
                    },
                    crate::rx::RxEvent::Fail(err) => {
                        return Err(err);
                    },
                }
            },
            None => {
                proof {
                    assert(rx_run(rx_init(), bits@.take(i as int + 1)).1 =~= Seq::<
                        RxEventView,
                    >::empty());
                }
            },
        }
        i = i + 1;
    }
    proof {
        assert(bits@.take(bits@.len() as int) =~= bits@);
    }
    Err(CanError::Incomplete)
}

} // verus!
