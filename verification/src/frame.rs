//! Bit-exact codec for the four ISO-TP protocol data units.
//!
//! Every frame is a fixed eight-byte image. The high nibble of byte 0 (the
//! PCI type) selects the variant: 0 Single, 1 First, 2 Consecutive, 3 Flow
//! Control. Encoders fill unused positions with zero; decoders are exact
//! inverses on frames whose PCI type matches.

use vstd::prelude::*;

verus! {

/// The four PCI frame types.
#[derive(Clone, Copy, Debug, PartialEq, Eq, Structural)]
pub enum Kind {
    Single,
    First,
    Consecutive,
    Flow,
}

/// The three flow-control commands a receiver can send.
#[derive(Clone, Copy, Debug, PartialEq, Eq, Structural)]
pub enum FlowKind {
    Continue,
    Wait,
    Abort,
}

/// A fixed eight-byte protocol data unit.
#[derive(Clone, Copy, Debug)]
pub struct Frame {
    bytes: [u8; 8],
}

impl View for Frame {
    type V = Seq<u8>;

    closed spec fn view(&self) -> Seq<u8> {
        self.bytes@
    }
}

impl PartialEq for Frame {
    fn eq(&self, other: &Frame) -> (r: bool) {
        let mut i: usize = 0;
        let mut same = true;
        while i < 8
            invariant
                i <= 8,
                same <==> forall|j: int| 0 <= j < i ==> self.bytes@[j] == other.bytes@[j],
            decreases 8 - i,
        {
            if self.bytes[i] != other.bytes[i] {
                same = false;
            }
            i += 1;
        }
        proof {
            if same {
                assert(self.bytes@ =~= other.bytes@);
            }
        }
        same
    }
}

impl vstd::std_specs::cmp::PartialEqSpecImpl for Frame {
    open spec fn obeys_eq_spec() -> bool {
        true
    }

    open spec fn eq_spec(&self, other: &Frame) -> bool {
        self@ == other@
    }
}

impl Eq for Frame {}

/// Numeric value of a flow-control command as carried on the wire.
pub open spec fn spec_flow_value(kind: FlowKind) -> int {
    match kind {
        FlowKind::Continue => 0,
        FlowKind::Wait => 1,
        FlowKind::Abort => 2,
    }
}

/// Eight-byte image of a Single frame carrying `data` (at most 7 bytes).
pub open spec fn spec_single(data: Seq<u8>) -> Seq<u8>
    recommends
        data.len() <= 7,
{
    Seq::new(8, |i: int|
        if i == 0 {
            data.len() as u8
        } else if 1 <= i <= data.len() {
            data[i - 1]
        } else {
            0u8
        })
}

/// Eight-byte image of the First frame of the message `msg`: the 12-bit
/// total length split over byte 0's low nibble (bits 11..8) and byte 1
/// (bits 7..0), followed by the first six payload bytes.
pub open spec fn spec_first(msg: Seq<u8>) -> Seq<u8>
    recommends
        8 <= msg.len() <= 4095,
{
    Seq::new(8, |i: int|
        if i == 0 {
            (16 + msg.len() / 256) as u8
        } else if i == 1 {
            (msg.len() % 256) as u8
        } else {
            msg[i - 2]
        })
}

/// Eight-byte image of a Consecutive frame with sequence number `sn`
/// carrying `chunk` (at most 7 bytes).
pub open spec fn spec_consecutive(sn: u8, chunk: Seq<u8>) -> Seq<u8>
    recommends
        sn < 16,
        chunk.len() <= 7,
{
    Seq::new(8, |i: int|
        if i == 0 {
            (32 + sn) as u8
        } else if 1 <= i <= chunk.len() {
            chunk[i - 1]
        } else {
            0u8
        })
}

/// Eight-byte image of a Flow Control frame.
pub open spec fn spec_flow(kind: FlowKind, block_len: u8, st: u8) -> Seq<u8> {
    Seq::new(8, |i: int|
        if i == 0 {
            (48 + spec_flow_value(kind)) as u8
        } else if i == 1 {
            block_len
        } else if i == 2 {
            st
        } else {
            0u8
        })
}

/// PCI type encoded in the high nibble of byte 0, if it is a known one.
pub open spec fn spec_kind(bytes: Seq<u8>) -> Option<Kind> {
    let nibble = bytes[0] as int / 16;
    if nibble == 0 {
        Some(Kind::Single)
    } else if nibble == 1 {
        Some(Kind::First)
    } else if nibble == 2 {
        Some(Kind::Consecutive)
    } else if nibble == 3 {
        Some(Kind::Flow)
    } else {
        None
    }
}

/// Payload length field of a Single frame: byte 0's low nibble.
pub open spec fn spec_single_len(bytes: Seq<u8>) -> int {
    bytes[0] as int % 16
}

/// Total message length field of a First frame.
pub open spec fn spec_first_len(bytes: Seq<u8>) -> int {
    (bytes[0] as int % 16) * 256 + bytes[1]
}

/// Sequence number field of a Consecutive frame: byte 0's low nibble.
pub open spec fn spec_sn(bytes: Seq<u8>) -> int {
    bytes[0] as int % 16
}

/// Flow command field of a Flow Control frame, if it is a known one.
/// Values other than 0, 1, 2 are reserved.
pub open spec fn spec_flow_kind(bytes: Seq<u8>) -> Option<FlowKind> {
    let value = bytes[0] as int % 16;
    if value == 0 {
        Some(FlowKind::Continue)
    } else if value == 1 {
        Some(FlowKind::Wait)
    } else if value == 2 {
        Some(FlowKind::Abort)
    } else {
        None
    }
}

/// An arbitrary byte string padded with zeros, or truncated, to 8 bytes.
pub open spec fn spec_padded(bytes: Seq<u8>) -> Seq<u8> {
    Seq::new(8, |i: int| if i < bytes.len() { bytes[i] } else { 0u8 })
}

/// Every frame's wire image is exactly 8 bytes.
pub proof fn lemma_frame_len(f: Frame)
    ensures
        f@.len() == 8,
{
}

impl Frame {
    /// Build a frame from up to 8 raw bytes; missing positions are zero and
    /// bytes beyond the eighth are ignored.
    pub fn from_bytes(bytes: &[u8]) -> (r: Self)
        ensures
            r@ == spec_padded(bytes@),
    {
        let mut buf: [u8; 8] = [0u8; 8];
        let limit: usize = if bytes.len() < 8 {
            bytes.len()
        } else {
            8
        };
        let mut i: usize = 0;
        while i < limit
            invariant
                limit <= 8,
                limit <= bytes@.len(),
                i <= limit,
                buf@.len() == 8,
                forall|j: int| 0 <= j < i ==> buf@[j] == bytes@[j],
                forall|j: int| i <= j < 8 ==> buf@[j] == 0u8,
            decreases limit - i,
        {
            buf[i] = bytes[i];
            i += 1;
        }
        let r = Frame { bytes: buf };
        proof {
            assert(r@ =~= spec_padded(bytes@));
        }
        r
    }

    /// Encode a Single frame; refused when `data` does not fit in 7 bytes.
    pub fn single(data: &[u8]) -> (r: Option<Self>)
        ensures
            data@.len() > 7 ==> r is None,
            data@.len() <= 7 ==> (r matches Some(f) && f@ == spec_single(data@)),
    {
        if data.len() > 7 {
            return None;
        }
        let mut buf: [u8; 8] = [0u8; 8];
        buf[0] = data.len() as u8;
        let mut i: usize = 0;
        while i < data.len()
            invariant
                data@.len() <= 7,
                i <= data@.len(),
                buf@.len() == 8,
                buf@[0] == data@.len() as u8,
                forall|j: int| 1 <= j <= i ==> buf@[j] == data@[j - 1],
                forall|j: int| i < j < 8 ==> buf@[j] == 0u8,
            decreases data@.len() - i,
        {
            buf[i + 1] = data[i];
            i += 1;
        }
        let f = Frame { bytes: buf };
        proof {
            assert(f@ =~= spec_single(data@));
        }
        Some(f)
    }

    /// Encode the First frame of the message `data`, whose full length the
    /// frame announces; the first six payload bytes are consumed.
    pub fn first(data: &[u8]) -> (r: (Self, usize))
        requires
            8 <= data@.len() <= 4095,
        ensures
            r.1 == 6,
            r.0@ == spec_first(data@),
    {
        let mut buf: [u8; 8] = [0u8; 8];
        let len = data.len();
        buf[0] = 16 + (len / 256) as u8;
        buf[1] = (len % 256) as u8;
        let mut i: usize = 0;
        while i < 6
            invariant
                8 <= data@.len() <= 4095,
                i <= 6,
                buf@.len() == 8,
                buf@[0] == 16 + data@.len() / 256,
                buf@[1] == data@.len() % 256,
                forall|j: int| 2 <= j < 2 + i ==> buf@[j] == data@[j - 2],
            decreases 6 - i,
        {
            buf[i + 2] = data[i];
            i += 1;
        }
        let f = Frame { bytes: buf };
        proof {
            assert(f@ =~= spec_first(data@));
        }
        (f, 6)
    }

    /// Encode a Consecutive frame with sequence number `index`, consuming up
    /// to 7 bytes of `data`.
    pub fn consecutive(index: u8, data: &[u8]) -> (r: (Self, usize))
        requires
            index < 16,
        ensures
            r.1 == if data@.len() < 7 { data@.len() as int } else { 7 },
            r.0@ == spec_consecutive(index, data@.subrange(0, r.1 as int)),
    {
        let mut buf: [u8; 8] = [0u8; 8];
        buf[0] = 32 + index;
        let used: usize = if data.len() < 7 {
            data.len()
        } else {
            7
        };
        let mut i: usize = 0;
        while i < used
            invariant
                index < 16,
                used <= 7,
                used <= data@.len(),
                i <= used,
                buf@.len() == 8,
                buf@[0] == 32 + index,
                forall|j: int| 1 <= j <= i ==> buf@[j] == data@[j - 1],
                forall|j: int| i < j < 8 ==> buf@[j] == 0u8,
            decreases used - i,
        {
            buf[i + 1] = data[i];
            i += 1;
        }
        let f = Frame { bytes: buf };
        proof {
            assert(f@ =~= spec_consecutive(index, data@.subrange(0, used as int)));
        }
        (f, used)
    }

    /// Encode a Flow Control frame carrying the command, the block size and
    /// the separation time.
    pub fn flow(kind: FlowKind, block_len: u8, st: u8) -> (r: Self)
        ensures
            r@ == spec_flow(kind, block_len, st),
    {
        let mut buf: [u8; 8] = [0u8; 8];
        let value: u8 = match kind {
            FlowKind::Continue => 0,
            FlowKind::Wait => 1,
            FlowKind::Abort => 2,
        };
        buf[0] = 48 + value;
        buf[1] = block_len;
        buf[2] = st;
        let f = Frame { bytes: buf };
        proof {
            assert(f@ =~= spec_flow(kind, block_len, st));
        }
        f
    }

    /// Decode the PCI type; `None` for the reserved high nibbles 4..15.
    pub fn kind(&self) -> (r: Option<Kind>)
        ensures
            r == spec_kind(self@),
            self@.len() == 8,
    {
        match self.bytes[0] / 16 {
            0 => Some(Kind::Single),
            1 => Some(Kind::First),
            2 => Some(Kind::Consecutive),
            3 => Some(Kind::Flow),
            _ => None,
        }
    }

    /// Payload length field of a Single frame. Values 8..15 are possible on
    /// the wire but malformed: a Single frame carries at most 7 data bytes.
    pub fn single_len(&self) -> (r: u8)
        requires
            spec_kind(self@) == Some(Kind::Single),
        ensures
            r == spec_single_len(self@),
            r < 16,
    {
        self.bytes[0] % 16
    }

    /// Payload of a Single frame, as announced by its length field.
    pub fn single_data(&self) -> (r: Vec<u8>)
        requires
            spec_kind(self@) == Some(Kind::Single),
            spec_single_len(self@) <= 7,
        ensures
            r@ == self@.subrange(1, 1 + spec_single_len(self@)),
    {
        let len: usize = (self.bytes[0] % 16) as usize;
        let mut out: Vec<u8> = Vec::new();
        let mut i: usize = 0;
        while i < len
            invariant
                len == spec_single_len(self@),
                len <= 7,
                i <= len,
                out@.len() == i,
                forall|j: int| 0 <= j < i ==> out@[j] == self@[j + 1],
            decreases len - i,
        {
            out.push(self.bytes[i + 1]);
            i += 1;
        }
        proof {
            assert(out@ =~= self@.subrange(1, 1 + spec_single_len(self@)));
        }
        out
    }

    /// The seven data bytes of a Consecutive frame.
    pub fn consecutive_data(&self) -> (r: Vec<u8>)
        requires
            spec_kind(self@) == Some(Kind::Consecutive),
        ensures
            r@ == self@.subrange(1, 8),
    {
        let mut out: Vec<u8> = Vec::new();
        let mut i: usize = 1;
        while i < 8
            invariant
                1 <= i <= 8,
                out@.len() == i - 1,
                forall|j: int| 0 <= j < i - 1 ==> out@[j] == self@[j + 1],
            decreases 8 - i,
        {
            out.push(self.bytes[i]);
            i += 1;
        }
        proof {
            assert(out@ =~= self@.subrange(1, 8));
        }
        out
    }

    /// The six payload bytes of a First frame.
    pub fn first_data(&self) -> (r: Vec<u8>)
        requires
            spec_kind(self@) == Some(Kind::First),
        ensures
            r@ == self@.subrange(2, 8),
    {
        let mut out: Vec<u8> = Vec::new();
        let mut i: usize = 2;
        while i < 8
            invariant
                2 <= i <= 8,
                out@.len() == i - 2,
                forall|j: int| 0 <= j < i - 2 ==> out@[j] == self@[j + 2],
            decreases 8 - i,
        {
            out.push(self.bytes[i]);
            i += 1;
        }
        proof {
            assert(out@ =~= self@.subrange(2, 8));
        }
        out
    }

    /// Total message length announced by a First frame.
    pub fn first_len(&self) -> (r: u16)
        requires
            spec_kind(self@) == Some(Kind::First),
        ensures
            r == spec_first_len(self@),
            r <= 4095,
    {
        ((self.bytes[0] % 16) as u16) * 256 + (self.bytes[1] as u16)
    }

    /// Sequence number carried by a Consecutive frame.
    pub fn consecutive_sn(&self) -> (r: u8)
        requires
            spec_kind(self@) == Some(Kind::Consecutive),
        ensures
            r == spec_sn(self@),
            r < 16,
    {
        self.bytes[0] % 16
    }

    /// Flow command of a Flow Control frame; `None` for the reserved values
    /// 3..15, which a receiver must treat as an invalid frame.
    pub fn flow_kind(&self) -> (r: Option<FlowKind>)
        requires
            spec_kind(self@) == Some(Kind::Flow),
        ensures
            r == spec_flow_kind(self@),
    {
        match self.bytes[0] % 16 {
            0 => Some(FlowKind::Continue),
            1 => Some(FlowKind::Wait),
            2 => Some(FlowKind::Abort),
            _ => None,
        }
    }

    /// Block size carried by a Flow Control frame.
    pub fn flow_len(&self) -> (r: u8)
        requires
            spec_kind(self@) == Some(Kind::Flow),
        ensures
            r == self@[1],
    {
        self.bytes[1]
    }

    /// Separation time carried by a Flow Control frame.
    pub fn flow_st(&self) -> (r: u8)
        requires
            spec_kind(self@) == Some(Kind::Flow),
        ensures
            r == self@[2],
    {
        self.bytes[2]
    }

    /// The full eight-byte wire image.
    pub fn as_bytes(&self) -> (r: [u8; 8])
        ensures
            r@ == self@,
            r@.len() == 8,
    {
        self.bytes
    }
}

} // verus!
