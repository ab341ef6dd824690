use can2040_rs::crc::Crc15;
use can2040_rs::encode::{decode, encode};
use can2040_rs::frame::{CanError, Frame};
use can2040_rs::stuff::{destuff, stuff};

fn frame_std(id: u32, dlc: u32, payload: &[u8]) -> Frame {
    Frame::make(id, dlc, &payload.to_vec())
}

#[test]
fn stuff_roundtrip_mixed_bits() {
    let bits = vec![
        false, false, false, false, false, true, true, false, true, true, true, true, true, true,
        true, false, false, false, false, false, false, false,
    ];
    let stuffed = stuff(&bits);
    assert!(stuffed.len() > bits.len());
    let back = destuff(&stuffed).expect("a stuffed stream has no stuff violations");
    assert_eq!(back, bits);
}

#[test]
fn stuff_inserts_complement_after_five() {
    let bits = vec![false, false, false, false, false];
    let stuffed = stuff(&bits);
    assert_eq!(stuffed, vec![false, false, false, false, false, true]);
    let ones = vec![true, true, true, true, true];
    assert_eq!(stuff(&ones), vec![true, true, true, true, true, false]);
}

#[test]
fn destuff_reports_six_identical_bits() {
    let bits = vec![false, false, false, false, false, false];
    assert_eq!(destuff(&bits), Err(CanError::StuffError));
}

#[test]
fn destuff_accepts_five_and_complement() {
    let bits = vec![false, false, false, false, false, true, true];
    assert_eq!(
        destuff(&bits).unwrap(),
        vec![false, false, false, false, false, true]
    );
}

#[test]
fn encode_decode_standard_frame() {
    let f = frame_std(0x123, 2, &[0xAA, 0xBB]);
    let wire = encode(&f);
    let g = decode(&wire).expect("a clean stream decodes");
    assert_eq!(g, f);
}

#[test]
fn encode_decode_extended_frame() {
    let id = can2040_rs::frame::ID_EFF | 0x1234_5678;
    let f = Frame::make(id, 8, &vec![1, 2, 3, 4, 5, 6, 7, 8]);
    let wire = encode(&f);
    assert_eq!(decode(&wire).unwrap(), f);
}

#[test]
fn encode_decode_remote_frame() {
    let id = can2040_rs::frame::ID_RTR | 0x7F;
    let f = Frame::make(id, 3, &vec![0, 0, 0]);
    let wire = encode(&f);
    assert_eq!(decode(&wire).unwrap(), f);
}

#[test]
fn encode_decode_empty_payload() {
    let f = frame_std(0x000, 0, &[]);
    let wire = encode(&f);
    assert_eq!(decode(&wire).unwrap(), f);
}

#[test]
fn encode_decode_worst_case_stuffing() {
    // identifier and payload chosen so long runs force many stuff bits
    let f = frame_std(0x000, 4, &[0x00, 0x00, 0xFF, 0xFF]);
    let wire = encode(&f);
    assert_eq!(decode(&wire).unwrap(), f);
}

#[test]
fn single_bit_corruption_never_yields_the_frame() {
    let f = frame_std(0x2A5, 3, &[0x12, 0x34, 0x56]);
    let wire = encode(&f);
    let ack_slot = wire.len() - 9;
    for i in 0..wire.len() {
        if i == ack_slot {
            // the acknowledge slot is driven by receivers; both levels parse
            continue;
        }
        let mut corrupt = wire.clone();
        corrupt[i] = !corrupt[i];
        match decode(&corrupt) {
            Ok(g) => assert_ne!(g, f, "flip at {} reproduced the frame", i),
            Err(_) => {}
        }
    }
}

#[test]
fn corrupted_payload_bit_reports_crc_error() {
    let f = frame_std(0x2A5, 3, &[0x12, 0x34, 0x56]);
    let wire = encode(&f);
    // count how many single-bit flips are caught, and that at least one
    // lands squarely on the CRC comparison
    let mut crc_errors = 0;
    for i in 1..wire.len() - 10 {
        let mut corrupt = wire.clone();
        corrupt[i] = !corrupt[i];
        if decode(&corrupt) == Err(CanError::CrcError) {
            crc_errors += 1;
        }
    }
    assert!(crc_errors > 0);
}

#[test]
fn incomplete_stream_is_reported() {
    let f = frame_std(0x123, 2, &[0xAA, 0xBB]);
    let mut wire = encode(&f);
    wire.truncate(wire.len() - 3);
    assert_eq!(decode(&wire), Err(CanError::Incomplete));
}

#[test]
fn crc_unit_detects_any_single_flip() {
    let bits = vec![
        false, true, true, false, false, true, false, true, true, true, false, false, true,
    ];
    let mut c = Crc15::new();
    for &b in bits.iter() {
        c.feed(b);
    }
    let reference = c.value();
    for i in 0..bits.len() {
        let mut flipped = bits.clone();
        flipped[i] = !flipped[i];
        let mut c2 = Crc15::new();
        for &b in flipped.iter() {
            c2.feed(b);
        }
        assert_ne!(c2.value(), reference, "flip at {} kept the CRC", i);
    }
}

#[test]
fn crc_matches_shift_register_model() {
    // straightforward shift-register model of the CAN polynomial 0x4599
    fn model(bits: &[bool]) -> u16 {
        let mut reg: u16 = 0;
        for &b in bits {
            let high = (reg >> 14) & 1 == 1;
            reg = (reg << 1) & 0x7FFF;
            if b != high {
                reg ^= 0x4599;
            }
        }
        reg
    }
    let samples: Vec<Vec<bool>> = vec![
        vec![],
        vec![true],
        vec![false],
        vec![true; 20],
        vec![false, true, false, true, true, true, false, false, true, false, true],
    ];
    for bits in samples {
        let mut c = Crc15::new();
        for &b in bits.iter() {
            c.feed(b);
        }
        assert_eq!(c.value(), model(&bits));
    }
}

#[test]
fn wire_dlc_above_eight_is_clamped() {
    // a remote frame with a wire data length code of 15, built bit by bit:
    // such codes mean 8 bytes on the wire and are delivered as 8
    let mut body: Vec<bool> = Vec::new();
    body.push(false); // start of frame
    let id: u32 = 0x555;
    for k in (0..11).rev() {
        body.push((id >> k) & 1 == 1);
    }
    body.push(true); // RTR: remote frame, no data field
    body.push(false); // IDE: standard format
    body.push(false); // r0
    for _ in 0..4 {
        body.push(true); // DLC = 15
    }
    let mut c = Crc15::new();
    for &b in body.iter() {
        c.feed(b);
    }
    let crc = c.value();
    let mut logical = body.clone();
    for k in (0..15).rev() {
        logical.push((crc >> k) & 1 == 1);
    }
    let mut wire = stuff(&logical);
    for _ in 0..10 {
        wire.push(true); // CRC delimiter, ACK slot, ACK delimiter, EOF
    }
    let f = decode(&wire).expect("a clean remote frame decodes");
    assert_eq!(f.id, can2040_rs::frame::ID_RTR | 0x555);
    assert_eq!(f.dlc, 8);
    assert_eq!(f.data, vec![0u8; 8]);
}
