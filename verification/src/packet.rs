//! Frames and the errors of the protocol.
//!
//! A frame is one of four tagged variants.  Its header octet carries the
//! variant in the two high bits and a six-bit sequence number in the low
//! bits: `tt ssssss`.

use vstd::prelude::*;

verus! {

/// Type bits of a user frame.
pub const FRAMETYPE_USR: u8 = 0;

/// Type bits of a retransmitted user frame.
pub const FRAMETYPE_RTX: u8 = 1;

/// Type bits of a negative acknowledgement.
pub const FRAMETYPE_NAK: u8 = 2;

/// Type bits of a connection-control frame.
pub const FRAMETYPE_SYN: u8 = 3;

/// First step of the handshake.
pub const SEQ_SYN0: u8 = 0;

/// Second step of the handshake.
pub const SEQ_SYN1: u8 = 1;

/// Third step of the handshake.
pub const SEQ_SYN2: u8 = 2;

/// Disconnect notice.
pub const SEQ_SYN_DIS: u8 = 3;

/// Largest sequence number; the counter wraps to zero after it.
pub const SEQ_MAX: u8 = 0x3f;

/// A frame as the codec hands it out and takes it in.
#[derive(PartialEq, Eq, Debug)]
pub enum SfpPacket {
    /// Reliable user message.
    Usr { seq: u8, buf: Vec<u8> },
    /// Retransmission of an earlier user message.
    Rtx { seq: u8, buf: Vec<u8> },
    /// The receiver expects sequence number `seq` next.
    Nak { seq: u8 },
    /// Handshake or disconnect control; `seq` is the step.
    Syn { seq: u8 },
}

/// The mathematical value of an [`SfpPacket`].
pub enum Frame {
    Usr { seq: u8, payload: Seq<u8> },
    Rtx { seq: u8, payload: Seq<u8> },
    Nak { seq: u8 },
    Syn { seq: u8 },
}

/// What can go wrong in the codec and in a session.
#[derive(Clone, Copy, PartialEq, Eq, Structural, Debug)]
pub enum SfpError {
    /// A frame closed with fewer than two body octets, too few to hold
    /// a checksum.
    DataTooShort,
    /// The checksum of a closed frame does not validate.
    CrcFailed,
    /// The type bits of a header are none of the four known ones.  The
    /// field is two bits wide, so the codec never reports this.
    UnknownHeader,
    /// A negative acknowledgement asked for a sequence number that the
    /// transmit history no longer holds.
    HistoryMiss,
    /// A control frame carried a step that is none of the four known ones.
    InvalidSyn,
    /// A write was attempted on a session that is not connected.
    NotConnected,
}

/// Result of the codec and session operations.
pub type SfpResult<T> = Result<T, SfpError>;

/// The header octet for type bits `kind` and sequence number `seq`.
pub open spec fn header_octet(kind: u8, seq: u8) -> u8 {
    (kind << 6) | seq
}

impl Frame {
    /// The two type bits.
    pub open spec fn kind(self) -> u8 {
        match self {
            Frame::Usr { .. } => FRAMETYPE_USR,
            Frame::Rtx { .. } => FRAMETYPE_RTX,
            Frame::Nak { .. } => FRAMETYPE_NAK,
            Frame::Syn { .. } => FRAMETYPE_SYN,
        }
    }

    /// The sequence number.
    pub open spec fn seq(self) -> u8 {
        match self {
            Frame::Usr { seq, .. } => seq,
            Frame::Rtx { seq, .. } => seq,
            Frame::Nak { seq } => seq,
            Frame::Syn { seq } => seq,
        }
    }

    /// The octets carried between header and trailer: the payload of a
    /// user frame or retransmission, nothing for the other two.
    pub open spec fn payload(self) -> Seq<u8> {
        match self {
            Frame::Usr { payload, .. } => payload,
            Frame::Rtx { payload, .. } => payload,
            Frame::Nak { .. } => Seq::empty(),
            Frame::Syn { .. } => Seq::empty(),
        }
    }

    /// The header octet.
    pub open spec fn header(self) -> u8 {
        header_octet(self.kind(), self.seq())
    }

    /// The sequence number fits in six bits.
    pub open spec fn wf(self) -> bool {
        self.seq() <= SEQ_MAX
    }

    /// The frame that a header octet and the octets after it stand for.
    /// A negative acknowledgement or control frame ignores the octets.
    pub open spec fn from_parts(header: u8, payload: Seq<u8>) -> Frame {
        let kind = header >> 6;
        let seq = header & 0x3f;
        if kind == FRAMETYPE_USR {
            Frame::Usr { seq, payload }
        } else if kind == FRAMETYPE_RTX {
            Frame::Rtx { seq, payload }
        } else if kind == FRAMETYPE_NAK {
            Frame::Nak { seq }
        } else {
            Frame::Syn { seq }
        }
    }
}

impl View for SfpPacket {
    type V = Frame;

    open spec fn view(&self) -> Frame {
        match *self {
            SfpPacket::Usr { seq, buf } => Frame::Usr { seq, payload: buf@ },
            SfpPacket::Rtx { seq, buf } => Frame::Rtx { seq, payload: buf@ },
            SfpPacket::Nak { seq } => Frame::Nak { seq },
            SfpPacket::Syn { seq } => Frame::Syn { seq },
        }
    }
}

impl Clone for SfpPacket {
    /// A copy that stands for the same frame.
    fn clone(&self) -> (copy: SfpPacket)
        ensures
            copy@ == self@,
    {
        match self {
            SfpPacket::Usr { seq, buf } => SfpPacket::Usr { seq: *seq, buf: buf.clone() },
            SfpPacket::Rtx { seq, buf } => SfpPacket::Rtx { seq: *seq, buf: buf.clone() },
            SfpPacket::Nak { seq } => SfpPacket::Nak { seq: *seq },
            SfpPacket::Syn { seq } => SfpPacket::Syn { seq: *seq },
        }
    }
}

impl SfpError {
    /// The text that describes each error.
    pub open spec fn text(self) -> Seq<char> {
        match self {
            SfpError::DataTooShort => "Data too short."@,
            SfpError::CrcFailed => "CRC check failed."@,
            SfpError::UnknownHeader => "Unknown header."@,
            SfpError::HistoryMiss => "Could not find packet in history!"@,
            SfpError::InvalidSyn => "Received invalid SYN Sequence number."@,
            SfpError::NotConnected => "Not connected."@,
        }
    }

    /// A description of the error for people.
    pub fn message(&self) -> (s: String)
        ensures
            s@ == self.text(),
    {
        match *self {
            SfpError::DataTooShort => "Data too short.".to_owned(),
            SfpError::CrcFailed => "CRC check failed.".to_owned(),
            SfpError::UnknownHeader => "Unknown header.".to_owned(),
            SfpError::HistoryMiss => "Could not find packet in history!".to_owned(),
            SfpError::InvalidSyn => "Received invalid SYN Sequence number.".to_owned(),
            SfpError::NotConnected => "Not connected.".to_owned(),
        }
    }
}

/// The type bits of a header are always among the four known ones, and
/// its two parts fit their fields.
pub proof fn lemma_header_parts(header: u8)
    ensures
        header >> 6 <= 3,
        header & 0x3f <= SEQ_MAX,
        header_octet(header >> 6, header & 0x3f) == header,
{
    assert(header >> 6 <= 3) by (bit_vector);
    assert(header & 0x3f <= 0x3f) by (bit_vector);
    assert(((header >> 6) << 6) | (header & 0x3f) == header) by (bit_vector);
}

/// A header built from type bits and a six-bit sequence number gives
/// both back.
pub proof fn lemma_header_octet_parts(kind: u8, seq: u8)
    requires
        kind <= 3,
        seq <= SEQ_MAX,
    ensures
        header_octet(kind, seq) >> 6 == kind,
        header_octet(kind, seq) & 0x3f == seq,
{
    assert(kind <= 3 && seq <= 0x3f ==> ((kind << 6) | seq) >> 6 == kind) by (bit_vector);
    assert(kind <= 3 && seq <= 0x3f ==> ((kind << 6) | seq) & 0x3f == seq) by (bit_vector);
}

/// A well-formed frame is recovered from its header and payload.  For a
/// negative acknowledgement or control frame any octets do.
pub proof fn lemma_frame_from_parts(frame: Frame, octets: Seq<u8>)
    requires
        frame.wf(),
        frame is Usr || frame is Rtx ==> octets == frame.payload(),
    ensures
        Frame::from_parts(frame.header(), octets) == frame,
{
    lemma_header_octet_parts(frame.kind(), frame.seq());
}

} // verus!
