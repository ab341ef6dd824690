use vstd::prelude::*;

verus! {

/// Flag bit marking an identifier as extended-format (29-bit).
pub const ID_EFF: u32 = 0x8000_0000;
/// Flag bit marking an identifier as a remote transmission request.
pub const ID_RTR: u32 = 0x4000_0000;
/// Mask of the 29 value bits of an extended identifier.
pub const ID_EXT_MASK: u32 = 0x1FFF_FFFF;
/// Mask of the 11 value bits of a standard identifier.
pub const ID_STD_MASK: u32 = 0x0000_07FF;

/// The protocol error taxonomy: stuff, form, CRC and acknowledgment
/// errors, plus `Incomplete` for a raw stream that ends mid-frame.
#[derive(Clone, Copy, PartialEq, Eq, Structural, Debug)]
pub enum CanError {
    StuffError,
    FormError,
    CrcError,
    AckError,
    Incomplete,
}

/// A CAN 2.0A/B data or remote frame.
///
/// `id` carries the identifier value in its low bits (11 bits standard,
/// 29 bits extended) together with the `ID_EFF` and `ID_RTR` flag bits in
/// its two highest bits. `dlc` is the data length code (0..=8); `data`
/// always holds 8 bytes, of which the first `dlc` are the payload (none for
/// a remote frame).
#[derive(Clone, PartialEq, Eq, Debug)]
pub struct Frame {
    pub id: u32,
    pub dlc: u32,
    pub data: Vec<u8>,
}

/// The mathematical value of a [`Frame`].
pub ghost struct FrameView {
    pub id: u32,
    pub dlc: u32,
    pub data: Seq<u8>,
}

impl View for Frame {
    type V = FrameView;

    open spec fn view(&self) -> FrameView {
        FrameView { id: self.id, dlc: self.dlc, data: self.data@ }
    }
}

impl FrameView {
    /// Does the identifier carry the extended-format flag?
    pub open spec fn is_extended(self) -> bool {
        self.id & ID_EFF != 0
    }

    /// Does the identifier carry the remote-transmission-request flag?
    pub open spec fn is_rtr(self) -> bool {
        self.id & ID_RTR != 0
    }

    /// The identifier value without its flag bits.
    pub open spec fn base_id(self) -> u32 {
        if self.is_extended() {
            self.id & ID_EXT_MASK
        } else {
            self.id & ID_STD_MASK
        }
    }

    /// Number of payload bytes actually carried on the wire.
    pub open spec fn payload_len(self) -> int {
        if self.is_rtr() {
            0
        } else {
            self.dlc as int
        }
    }

    /// Frame invariant: the data length code is at most 8, the payload buffer
    /// holds exactly 8 bytes with the unused tail zeroed, and the identifier
    /// uses only the value bits allowed by its format plus the two flag bits.
    pub open spec fn wf(self) -> bool {
        &&& self.dlc <= 8
        &&& self.data.len() == 8
        &&& (forall|i: int| self.payload_len() <= i < 8 ==> self.data[i] == 0)
        &&& if self.is_extended() {
            self.id & 0x2000_0000 == 0
        } else {
            self.id & 0x3FFF_F800 == 0
        }
    }
}

impl Frame {
    /// Build a well-formed frame from an identifier (with optional flag
    /// bits), a data length code and a payload, zero-padding the payload
    /// buffer to 8 bytes.
    pub fn make(id: u32, dlc: u32, payload: &Vec<u8>) -> (r: Frame)
        requires
            dlc <= 8,
            payload.len() >= dlc,
            id & ID_EFF != 0 ==> id & 0x2000_0000 == 0,
            id & ID_EFF == 0 ==> id & 0x3FFF_F800 == 0,
        ensures
            r@.wf(),
            r@.id == id,
            r@.dlc == dlc,
            forall|i: int| 0 <= i < r@.payload_len() ==> r@.data[i] == payload@[i],
    {
        let rtr: bool = id & ID_RTR != 0;
        let n: usize = if rtr { 0 } else { dlc as usize };
        let mut data: Vec<u8> = Vec::new();
        let mut i: usize = 0;
        while i < n
            invariant
                i <= n,
                n <= payload.len(),
                n == if id & ID_RTR != 0 { 0int } else { dlc as int },
                data.len() == i,
                forall|j: int| 0 <= j < i ==> data[j] == payload@[j],
            decreases n - i,
        {
            data.push(payload[i]);
            i = i + 1;
        }
        while i < 8
            invariant
                n <= i <= 8,
                n == if id & ID_RTR != 0 { 0int } else { dlc as int },
                data.len() == i,
                forall|j: int| 0 <= j < n ==> data[j] == payload@[j],
                forall|j: int| n <= j < i ==> data[j] == 0,
            decreases 8 - i,
        {
            data.push(0u8);
            i = i + 1;
        }
        Frame { id, dlc, data }
    }
}

} // verus!
