//! Frames of the wire protocol.
//!
//! A frame is laid out as
//! `length(4) magic(1) operation(2) flag(1) stream-id(4) header-format(1) header-length(3)
//! header payload checksum(4)`, every integer big-endian, where `length` counts all bytes
//! after itself and the checksum is the CRC-32/ISO-HDLC of the payload (zero without one).
use vstd::prelude::*;
use vstd::string::*;

use super::cursor::Cursor;
use super::error::FrameError;
use super::text::{concat5, decimal};
use super::wire::{lemma_be16_roundtrip, lemma_be24_roundtrip, lemma_be32_roundtrip, be16, be24, be32, be16_bytes, be24_bytes, be32_bytes, read_be16, read_be24, read_be32, push_be16, push_be24, push_be32, push_all, copy_range};

verus! {

pub const MAGIC_CODE: u8 = 23;

pub const MIN_FRAME_LENGTH: u32 = 16;

/// Max frame length: 16 MiB.
pub const MAX_FRAME_LENGTH: u32 = 16 * 1024 * 1024;

/// Format of the extended header of a frame.
#[derive(Debug, Clone, Copy, PartialEq, Eq, Structural)]
pub enum HeaderFormat {
    Unknown,
    /// The header is serialized by flatbuffers; the only format in use.
    FlatBuffer,
    ProtoBuffer,
    JSON,
}

/// Operation that a frame requests or answers.
#[derive(Debug, Clone, Copy, PartialEq, Eq, Structural)]
pub enum OperationCode {
    Unknown,
    Ping,
    GoAway,
    Heartbeat,
    Append,
    Fetch,
    ListRanges,
    SealRanges,
    SyncRanges,
    DescribeRanges,
    CreateStreams,
    DeleteStreams,
    UpdateStreams,
    DescribeStreams,
    TrimStreams,
    ReportMetrics,
}

/// Every header format reads back from its number, and a number that reads as a format
/// is that format's number.
pub proof fn lemma_header_format_numbering(h: HeaderFormat, v: u8)
    ensures
        header_format_of(header_format_value(h) as nat) == Some(h),
        header_format_of(v as nat) == Some(h) ==> header_format_value(h) == v,
{
}

/// Every operation code reads back from its number, and a number that reads as an
/// operation code is that code's number.
pub proof fn lemma_operation_code_numbering(op: OperationCode, v: u16)
    ensures
        operation_code_of(operation_code_value(op) as nat) == Some(op),
        operation_code_of(v as nat) == Some(op) ==> operation_code_value(op) == v,
{
}

/// The wire numbers of the operation codes, as the protocol fixes them: `0x0000` to
/// `0x0FFF` for system operations, `0x1000` on for data, `0x2000` on for ranges, `0x3000`
/// on for streams and `0x4000` on for metrics.
pub proof fn lemma_operation_code_wire_numbers()
    ensures
        operation_code_value(OperationCode::Unknown) == 0x0000u16,
        operation_code_value(OperationCode::Ping) == 0x0001u16,
        operation_code_value(OperationCode::GoAway) == 0x0002u16,
        operation_code_value(OperationCode::Heartbeat) == 0x0003u16,
        operation_code_value(OperationCode::Append) == 0x1001u16,
        operation_code_value(OperationCode::Fetch) == 0x1002u16,
        operation_code_value(OperationCode::ListRanges) == 0x2001u16,
        operation_code_value(OperationCode::SealRanges) == 0x2002u16,
        operation_code_value(OperationCode::SyncRanges) == 0x2003u16,
        operation_code_value(OperationCode::DescribeRanges) == 0x2004u16,
        operation_code_value(OperationCode::CreateStreams) == 0x3001u16,
        operation_code_value(OperationCode::DeleteStreams) == 0x3002u16,
        operation_code_value(OperationCode::UpdateStreams) == 0x3003u16,
        operation_code_value(OperationCode::DescribeStreams) == 0x3004u16,
        operation_code_value(OperationCode::TrimStreams) == 0x3005u16,
        operation_code_value(OperationCode::ReportMetrics) == 0x4001u16,
        operation_code_of(0x0000nat) == Some(OperationCode::Unknown),
        operation_code_of(0x0001nat) == Some(OperationCode::Ping),
        operation_code_of(0x0002nat) == Some(OperationCode::GoAway),
        operation_code_of(0x0003nat) == Some(OperationCode::Heartbeat),
        operation_code_of(0x1001nat) == Some(OperationCode::Append),
        operation_code_of(0x1002nat) == Some(OperationCode::Fetch),
        operation_code_of(0x2001nat) == Some(OperationCode::ListRanges),
        operation_code_of(0x2002nat) == Some(OperationCode::SealRanges),
        operation_code_of(0x2003nat) == Some(OperationCode::SyncRanges),
        operation_code_of(0x2004nat) == Some(OperationCode::DescribeRanges),
        operation_code_of(0x3001nat) == Some(OperationCode::CreateStreams),
        operation_code_of(0x3002nat) == Some(OperationCode::DeleteStreams),
        operation_code_of(0x3003nat) == Some(OperationCode::UpdateStreams),
        operation_code_of(0x3004nat) == Some(OperationCode::DescribeStreams),
        operation_code_of(0x3005nat) == Some(OperationCode::TrimStreams),
        operation_code_of(0x4001nat) == Some(OperationCode::ReportMetrics),
{
}

/// The wire numbers of the header formats, as the protocol fixes them.
pub proof fn lemma_header_format_wire_numbers()
    ensures
        header_format_value(HeaderFormat::Unknown) == 0u8,
        header_format_value(HeaderFormat::FlatBuffer) == 1u8,
        header_format_value(HeaderFormat::ProtoBuffer) == 2u8,
        header_format_value(HeaderFormat::JSON) == 3u8,
        header_format_of(0nat) == Some(HeaderFormat::Unknown),
        header_format_of(1nat) == Some(HeaderFormat::FlatBuffer),
        header_format_of(2nat) == Some(HeaderFormat::ProtoBuffer),
        header_format_of(3nat) == Some(HeaderFormat::JSON),
{
}

/// A byte that names no header format.
#[derive(Debug, Clone, Copy, PartialEq, Eq)]
pub struct UnknownHeaderFormat {
    pub number: u8,
}

/// A number that names no operation.
#[derive(Debug, Clone, Copy, PartialEq, Eq)]
pub struct UnknownOperationCode {
    pub number: u16,
}

pub open spec fn header_format_value(h: HeaderFormat) -> u8 {
    match h {
        HeaderFormat::Unknown => 0,
        HeaderFormat::FlatBuffer => 1,
        HeaderFormat::ProtoBuffer => 2,
        HeaderFormat::JSON => 3,
    }
}

pub open spec fn header_format_of(v: nat) -> Option<HeaderFormat> {
    if v == 0 {
        Some(HeaderFormat::Unknown)
    } else if v == 1 {
        Some(HeaderFormat::FlatBuffer)
    } else if v == 2 {
        Some(HeaderFormat::ProtoBuffer)
    } else if v == 3 {
        Some(HeaderFormat::JSON)
    } else {
        None
    }
}

pub open spec fn operation_code_value(op: OperationCode) -> u16 {
    match op {
        OperationCode::Unknown => 0x0000,
        OperationCode::Ping => 0x0001,
        OperationCode::GoAway => 0x0002,
        OperationCode::Heartbeat => 0x0003,
        OperationCode::Append => 0x1001,
        OperationCode::Fetch => 0x1002,
        OperationCode::ListRanges => 0x2001,
        OperationCode::SealRanges => 0x2002,
        OperationCode::SyncRanges => 0x2003,
        OperationCode::DescribeRanges => 0x2004,
        OperationCode::CreateStreams => 0x3001,
        OperationCode::DeleteStreams => 0x3002,
        OperationCode::UpdateStreams => 0x3003,
        OperationCode::DescribeStreams => 0x3004,
        OperationCode::TrimStreams => 0x3005,
        OperationCode::ReportMetrics => 0x4001,
    }
}

pub open spec fn operation_code_of(v: nat) -> Option<OperationCode> {
    if v == 0x0000 {
        Some(OperationCode::Unknown)
    } else if v == 0x0001 {
        Some(OperationCode::Ping)
    } else if v == 0x0002 {
        Some(OperationCode::GoAway)
    } else if v == 0x0003 {
        Some(OperationCode::Heartbeat)
    } else if v == 0x1001 {
        Some(OperationCode::Append)
    } else if v == 0x1002 {
        Some(OperationCode::Fetch)
    } else if v == 0x2001 {
        Some(OperationCode::ListRanges)
    } else if v == 0x2002 {
        Some(OperationCode::SealRanges)
    } else if v == 0x2003 {
        Some(OperationCode::SyncRanges)
    } else if v == 0x2004 {
        Some(OperationCode::DescribeRanges)
    } else if v == 0x3001 {
        Some(OperationCode::CreateStreams)
    } else if v == 0x3002 {
        Some(OperationCode::DeleteStreams)
    } else if v == 0x3003 {
        Some(OperationCode::UpdateStreams)
    } else if v == 0x3004 {
        Some(OperationCode::DescribeStreams)
    } else if v == 0x3005 {
        Some(OperationCode::TrimStreams)
    } else if v == 0x4001 {
        Some(OperationCode::ReportMetrics)
    } else {
        None
    }
}

impl HeaderFormat {
    pub fn from_u8(v: u8) -> (r: Option<HeaderFormat>)
        ensures
            r == header_format_of(v as nat),
    {
        if v == 0 {
            Some(HeaderFormat::Unknown)
        } else if v == 1 {
            Some(HeaderFormat::FlatBuffer)
        } else if v == 2 {
            Some(HeaderFormat::ProtoBuffer)
        } else if v == 3 {
            Some(HeaderFormat::JSON)
        } else {
            None
        }
    }

    pub fn to_u8(self) -> (v: u8)
        ensures
            v == header_format_value(self),
    {
        match self {
            HeaderFormat::Unknown => 0,
            HeaderFormat::FlatBuffer => 1,
            HeaderFormat::ProtoBuffer => 2,
            HeaderFormat::JSON => 3,
        }
    }
}

impl OperationCode {
    pub fn from_u16(v: u16) -> (r: Option<OperationCode>)
        ensures
            r == operation_code_of(v as nat),
    {
        if v == 0x0000 {
            Some(OperationCode::Unknown)
        } else if v == 0x0001 {
            Some(OperationCode::Ping)
        } else if v == 0x0002 {
            Some(OperationCode::GoAway)
        } else if v == 0x0003 {
            Some(OperationCode::Heartbeat)
        } else if v == 0x1001 {
            Some(OperationCode::Append)
        } else if v == 0x1002 {
            Some(OperationCode::Fetch)
        } else if v == 0x2001 {
            Some(OperationCode::ListRanges)
        } else if v == 0x2002 {
            Some(OperationCode::SealRanges)
        } else if v == 0x2003 {
            Some(OperationCode::SyncRanges)
        } else if v == 0x2004 {
            Some(OperationCode::DescribeRanges)
        } else if v == 0x3001 {
            Some(OperationCode::CreateStreams)
        } else if v == 0x3002 {
            Some(OperationCode::DeleteStreams)
        } else if v == 0x3003 {
            Some(OperationCode::UpdateStreams)
        } else if v == 0x3004 {
            Some(OperationCode::DescribeStreams)
        } else if v == 0x3005 {
            Some(OperationCode::TrimStreams)
        } else if v == 0x4001 {
            Some(OperationCode::ReportMetrics)
        } else {
            None
        }
    }

    pub fn to_u16(self) -> (v: u16)
        ensures
            v == operation_code_value(self),
    {
        match self {
            OperationCode::Unknown => 0x0000,
            OperationCode::Ping => 0x0001,
            OperationCode::GoAway => 0x0002,
            OperationCode::Heartbeat => 0x0003,
            OperationCode::Append => 0x1001,
            OperationCode::Fetch => 0x1002,
            OperationCode::ListRanges => 0x2001,
            OperationCode::SealRanges => 0x2002,
            OperationCode::SyncRanges => 0x2003,
            OperationCode::DescribeRanges => 0x2004,
            OperationCode::CreateStreams => 0x3001,
            OperationCode::DeleteStreams => 0x3002,
            OperationCode::UpdateStreams => 0x3003,
            OperationCode::DescribeStreams => 0x3004,
            OperationCode::TrimStreams => 0x3005,
            OperationCode::ReportMetrics => 0x4001,
        }
    }
}

impl TryFrom<u8> for HeaderFormat {
    type Error = UnknownHeaderFormat;

    fn try_from(v: u8) -> (r: Result<HeaderFormat, UnknownHeaderFormat>) {
        match HeaderFormat::from_u8(v) {
            Some(h) => Ok(h),
            None => Err(UnknownHeaderFormat { number: v }),
        }
    }
}

impl vstd::std_specs::convert::TryFromSpecImpl<u8> for HeaderFormat {
    open spec fn obeys_try_from_spec() -> bool {
        true
    }

    open spec fn try_from_spec(v: u8) -> Result<HeaderFormat, UnknownHeaderFormat> {
        match header_format_of(v as nat) {
            Some(h) => Ok(h),
            None => Err(UnknownHeaderFormat { number: v }),
        }
    }
}

impl From<HeaderFormat> for u8 {
    fn from(h: HeaderFormat) -> (v: u8) {
        h.to_u8()
    }
}

impl vstd::std_specs::convert::FromSpecImpl<HeaderFormat> for u8 {
    open spec fn obeys_from_spec() -> bool {
        true
    }

    open spec fn from_spec(h: HeaderFormat) -> u8 {
        header_format_value(h)
    }
}

impl TryFrom<u16> for OperationCode {
    type Error = UnknownOperationCode;

    fn try_from(v: u16) -> (r: Result<OperationCode, UnknownOperationCode>) {
        match OperationCode::from_u16(v) {
            Some(op) => Ok(op),
            None => Err(UnknownOperationCode { number: v }),
        }
    }
}

impl vstd::std_specs::convert::TryFromSpecImpl<u16> for OperationCode {
    open spec fn obeys_try_from_spec() -> bool {
        true
    }

    open spec fn try_from_spec(v: u16) -> Result<OperationCode, UnknownOperationCode> {
        match operation_code_of(v as nat) {
            Some(op) => Ok(op),
            None => Err(UnknownOperationCode { number: v }),
        }
    }
}

impl From<OperationCode> for u16 {
    fn from(op: OperationCode) -> (v: u16) {
        op.to_u16()
    }
}

impl vstd::std_specs::convert::FromSpecImpl<OperationCode> for u16 {
    open spec fn obeys_from_spec() -> bool {
        true
    }

    open spec fn from_spec(op: OperationCode) -> u16 {
        operation_code_value(op)
    }
}


/// A frame of the wire protocol.
#[derive(Debug)]
pub struct Frame {
    pub operation_code: OperationCode,
    pub flag: u8,
    /// Stream-ID, starting from 1; `0` is a placeholder only.
    pub stream_id: u32,
    pub header_format: HeaderFormat,
    pub header: Option<Vec<u8>>,
    pub payload: Option<Vec<u8>>,
}

/// What a frame holds, with its byte buffers as sequences.
pub struct FrameView {
    pub operation_code: OperationCode,
    pub flag: u8,
    pub stream_id: u32,
    pub header_format: HeaderFormat,
    pub header: Option<Seq<u8>>,
    pub payload: Option<Seq<u8>>,
}

pub open spec fn opt_bytes_view(b: Option<Vec<u8>>) -> Option<Seq<u8>> {
    match b {
        Some(v) => Some(v@),
        None => None,
    }
}

pub open spec fn opt_len(b: Option<Seq<u8>>) -> nat {
    match b {
        Some(v) => v.len(),
        None => 0,
    }
}

pub open spec fn opt_seq(b: Option<Seq<u8>>) -> Seq<u8> {
    match b {
        Some(v) => v,
        None => Seq::empty(),
    }
}

/// An empty buffer reads as none at all.
pub open spec fn drop_empty(b: Option<Seq<u8>>) -> Option<Seq<u8>> {
    match b {
        Some(v) => if v.len() > 0 {
            Some(v)
        } else {
            None
        },
        None => None,
    }
}

/// The frame with an empty header or payload replaced by none, as a frame reads back
/// once encoded.
pub open spec fn without_empty_parts(f: FrameView) -> FrameView {
    FrameView { header: drop_empty(f.header), payload: drop_empty(f.payload), ..f }
}

impl View for Frame {
    type V = FrameView;

    open spec fn view(&self) -> FrameView {
        FrameView {
            operation_code: self.operation_code,
            flag: self.flag,
            stream_id: self.stream_id,
            header_format: self.header_format,
            header: opt_bytes_view(self.header),
            payload: opt_bytes_view(self.payload),
        }
    }
}

/// Issues stream ids for new frames, starting from 1.
pub struct StreamIdSequence {
    next: u32,
}

impl StreamIdSequence {
    pub closed spec fn next_id(&self) -> u32 {
        self.next
    }

    pub fn new() -> (s: StreamIdSequence)
        ensures
            s.next_id() == 1,
    {
        StreamIdSequence { next: 1 }
    }

    pub fn peek(&self) -> (id: u32)
        ensures
            id == self.next_id(),
    {
        self.next
    }

    /// Hands out the next id and moves past it.
    pub fn take(&mut self) -> (id: u32)
        requires
            old(self).next_id() < u32::MAX,
        ensures
            id == old(self).next_id(),
            final(self).next_id() == old(self).next_id() + 1,
    {
        let id = self.next;
        self.next = self.next + 1;
        id
    }
}

/// Shifts the reflected CRC-32 register `k` bits, with the reflected polynomial
/// `0xEDB88320`.
pub open spec fn crc32_shift(c: u32, k: nat) -> u32
    decreases k,
{
    if k == 0 {
        c
    } else {
        let c1 = if (c & 1u32) == 1u32 {
            (c >> 1u32) ^ 0xEDB88320u32
        } else {
            c >> 1u32
        };
        crc32_shift(c1, (k - 1) as nat)
    }
}

/// The CRC-32 register after `data`, starting from all ones.
pub open spec fn crc32_register(data: Seq<u8>) -> u32
    decreases data.len(),
{
    if data.len() == 0 {
        0xFFFF_FFFFu32
    } else {
        crc32_shift(crc32_register(data.drop_last()) ^ (data.last() as u32), 8)
    }
}

/// CRC-32/ISO-HDLC of a byte sequence (the checksum of a frame payload): reflected input
/// and output, polynomial `0x04C11DB7`, initial value and final XOR `0xFFFFFFFF`.
pub open spec fn crc32_iso_hdlc(data: Seq<u8>) -> u32 {
    crc32_register(data) ^ 0xFFFF_FFFFu32
}

/// Checksum of a payload: `crc::Crc::<u32>::new(&crc::CRC_32_ISO_HDLC)`, one digest
/// updated with `payload` and finalized. Claimed: the result is the CRC-32/ISO-HDLC of the
/// payload's bytes, as `crc32_iso_hdlc` spells it out.
#[verifier::external_body]
fn crc32(payload: &[u8]) -> (c: u32)
    ensures
        c == crc32_iso_hdlc(payload@),
{
    let crc = crc::Crc::<u32>::new(&crc::CRC_32_ISO_HDLC);
    let mut digest = crc.digest();
    digest.update(payload);
    digest.finalize()
}

/// The outcome of checking the bytes from the read position on.
pub enum CheckVerdict {
    Complete,
    Incomplete,
    TooShort { length: nat },
    TooLong { length: nat },
    MagicMismatch { found: u8 },
    HeaderOverrun { header_length: nat, remaining: nat },
    PayloadOverrun { payload_length: nat, remaining: nat },
    MissingChecksum,
    ChecksumMismatch { expected: u32, actual: u32 },
}

/// Length of the payload that a frame of length `fl` with a header of `hl` bytes carries.
pub open spec fn payload_length_of(fl: nat, hl: nat) -> nat {
    if hl + 16 < fl {
        (fl - hl - 16) as nat
    } else {
        0
    }
}

/// How `Frame::check` judges the bytes `s`, and how many of them it reads.
pub open spec fn check_spec(s: Seq<u8>) -> (CheckVerdict, nat) {
    let n = s.len();
    if n < 4 {
        (CheckVerdict::Incomplete, 0)
    } else if be32(s, 0) < MIN_FRAME_LENGTH {
        (CheckVerdict::TooShort { length: be32(s, 0) }, 4)
    } else if be32(s, 0) > MAX_FRAME_LENGTH {
        (CheckVerdict::TooLong { length: be32(s, 0) }, 4)
    } else if n - 4 < be32(s, 0) {
        (CheckVerdict::Incomplete, 4)
    } else if s[4] != MAGIC_CODE {
        (CheckVerdict::MagicMismatch { found: s[4] }, 5)
    } else {
        let fl = be32(s, 0);
        let hl = be24(s, 13);
        let rem1 = (n - 16) as nat;
        if rem1 < hl {
            (CheckVerdict::HeaderOverrun { header_length: hl, remaining: rem1 }, 16)
        } else {
            let rem2 = (rem1 - hl) as nat;
            let pl = payload_length_of(fl, hl);
            if pl > 0 && pl > rem2 % 4294967296 {
                (CheckVerdict::PayloadOverrun { payload_length: pl, remaining: rem2 }, 16 + hl)
            } else if rem2 - pl != 4 {
                (CheckVerdict::MissingChecksum, 16 + hl + pl)
            } else if pl > 0 && be32(s, (16 + hl + pl) as int) != crc32_iso_hdlc(
                s.subrange((16 + hl) as int, (16 + hl + pl) as int),
            ) {
                (
                    CheckVerdict::ChecksumMismatch {
                        expected: be32(s, (16 + hl + pl) as int) as u32,
                        actual: crc32_iso_hdlc(s.subrange((16 + hl) as int, (16 + hl + pl) as int)),
                    },
                    n,
                )
            } else {
                (CheckVerdict::Complete, n)
            }
        }
    }
}

/// `e` is the error that `Frame::check` reports for verdict `v`.
pub open spec fn describes(v: CheckVerdict, e: FrameError) -> bool {
    match v {
        CheckVerdict::Complete => false,
        CheckVerdict::Incomplete => e is Incomplete,
        CheckVerdict::TooShort { length } => e matches FrameError::BadFrame(m) && m@
            == "Length of the incoming frame is: "@ + decimal(length)
            + ", less than the minimum possible: "@ + decimal(MIN_FRAME_LENGTH as nat) + ""@,
        CheckVerdict::TooLong { length } => e == FrameError::TooLongFrame {
            found: length as u32,
            max: MAX_FRAME_LENGTH,
        },
        CheckVerdict::MagicMismatch { found } => e == FrameError::MagicCodeMismatch {
            found,
            expect: MAGIC_CODE,
        },
        CheckVerdict::HeaderOverrun { header_length, remaining } => e matches FrameError::BadFrame(
            m,
        ) && m@ == "Header length is: "@ + decimal(header_length) + ", but only "@ + decimal(
            remaining,
        ) + " bytes in buffer"@,
        CheckVerdict::PayloadOverrun { payload_length, remaining } => e matches FrameError::BadFrame(
            m,
        ) && m@ == "Payload length is: "@ + decimal(payload_length) + ", but only "@ + decimal(
            remaining,
        ) + " bytes in buffer"@,
        CheckVerdict::MissingChecksum => e matches FrameError::BadFrame(m) && m@
            == "The remaining bytes are not checksum"@,
        CheckVerdict::ChecksumMismatch { expected, actual } => e
            == FrameError::PayloadChecksumMismatch { expected, actual },
    }
}

/// Bytes on which `Frame::parse` reads a whole frame: the length covers the fixed fields,
/// the header and the checksum, and the buffer holds all of it.
pub open spec fn parsable(s: Seq<u8>) -> bool {
    &&& s.len() >= 16
    &&& be32(s, 0) >= 16 + be24(s, 13)
    &&& s.len() >= 4 + be32(s, 0)
}

/// The frame that `Frame::parse` decodes from parsable bytes `s`.
pub open spec fn parse_spec(s: Seq<u8>) -> FrameView {
    let fl = be32(s, 0);
    let hl = be24(s, 13);
    let pl = (fl - hl - 16) as nat;
    FrameView {
        operation_code: match operation_code_of(be16(s, 5)) {
            Some(op) => op,
            None => OperationCode::Unknown,
        },
        flag: s[7],
        stream_id: be32(s, 8) as u32,
        header_format: match header_format_of(s[12] as nat) {
            Some(h) => h,
            None => HeaderFormat::Unknown,
        },
        header: if hl > 0 {
            Some(s.subrange(16, (16 + hl) as int))
        } else {
            None
        },
        payload: if pl > 0 {
            Some(s.subrange((16 + hl) as int, (16 + hl + pl) as int))
        } else {
            None
        },
    }
}

/// Number of bytes that the length field of an encoded frame counts.
pub open spec fn frame_length_of(f: FrameView) -> nat {
    16 + opt_len(f.header) + opt_len(f.payload)
}

/// The 16 bytes that open an encoded frame, up to the header.
pub open spec fn encode_prefix(f: FrameView) -> Seq<u8> {
    be32_bytes(frame_length_of(f) as u32) + seq![MAGIC_CODE] + be16_bytes(
        operation_code_value(f.operation_code),
    ) + seq![f.flag] + be32_bytes(f.stream_id) + seq![header_format_value(f.header_format)]
        + be24_bytes(opt_len(f.header) as u32)
}

/// The checksum field of an encoded frame.
pub open spec fn encode_checksum(f: FrameView) -> u32 {
    match f.payload {
        Some(p) => crc32_iso_hdlc(p),
        None => 0,
    }
}

/// The bytes that `Frame::encode` writes for `f`.
pub open spec fn encode_spec(f: FrameView) -> Seq<u8> {
    encode_prefix(f) + opt_seq(f.header) + opt_seq(f.payload) + be32_bytes(encode_checksum(f))
}

impl Frame {
    /// A frame of operation `op` under the next id of `ids`, with flag 0, the flatbuffers
    /// header format and neither header nor payload.
    pub fn new(op: OperationCode, ids: &mut StreamIdSequence) -> (f: Frame)
        requires
            old(ids).next_id() < u32::MAX,
        ensures
            f@ == (FrameView {
                operation_code: op,
                flag: 0,
                stream_id: old(ids).next_id(),
                header_format: HeaderFormat::FlatBuffer,
                header: None,
                payload: None,
            }),
            final(ids).next_id() == old(ids).next_id() + 1,
    {
        let stream_id = ids.take();
        Frame {
            operation_code: op,
            flag: 0,
            stream_id,
            header_format: HeaderFormat::FlatBuffer,
            header: None,
            payload: None,
        }
    }

    pub fn flag_response(&mut self)
        ensures
            final(self)@ == (FrameView { flag: old(self).flag | 0x01u8, ..old(self)@ }),
    {
        self.flag = self.flag | 0x01u8;
    }

    pub fn flag_end_response(&mut self)
        ensures
            final(self)@ == (FrameView { flag: old(self).flag | 0x03u8, ..old(self)@ }),
    {
        self.flag = self.flag | 0x03u8;
    }

    pub fn flag_system_err(&mut self)
        ensures
            final(self)@ == (FrameView { flag: old(self).flag | 0x07u8, ..old(self)@ }),
    {
        self.flag = self.flag | 0x07u8;
    }

    /// Compares the checksum carried by a frame with the one computed over its payload.
    pub fn verify_payload_checksum(expected: u32, actual: u32) -> (r: Result<(), FrameError>)
        ensures
            expected == actual ==> r is Ok,
            expected != actual ==> r == Err::<(), FrameError>(
                FrameError::PayloadChecksumMismatch { expected, actual },
            ),
    {
        if expected != actual {
            Err(FrameError::PayloadChecksumMismatch { expected, actual })
        } else {
            Ok(())
        }
    }
}


impl Frame {
    /// Checks that the bytes from the cursor's position on hold exactly one complete,
    /// well-formed frame with a matching payload checksum, reading through it.
    pub fn check(src: &mut Cursor) -> (r: Result<(), FrameError>)
        ensures
            final(src).bytes() == old(src).bytes(),
            final(src).pos() == old(src).pos() + check_spec(old(src).rest()).1,
            match r {
                Ok(_) => check_spec(old(src).rest()).0 == CheckVerdict::Complete,
                Err(e) => describes(check_spec(old(src).rest()).0, e),
            },
    {
        let ghost s = src.rest();
        let buf = src.slice();
        let start = src.position();
        let rem = src.remaining();
        let len = buf.len();
        if rem < 4 {
            return Err(FrameError::Incomplete);
        }
        assert(start <= len);
        let p = start as usize;
        assert(s =~= buf@.subrange(p as int, buf@.len() as int));
        assert(rem == len - p);
        let frame_length = read_be32(buf, p);
        assert(frame_length == be32(s, 0));
        src.advance_to(start + 4);
        if frame_length < MIN_FRAME_LENGTH {
            let m = concat5(
                "Length of the incoming frame is: ",
                frame_length as u64,
                ", less than the minimum possible: ",
                MIN_FRAME_LENGTH as u64,
                "",
            );
            return Err(FrameError::BadFrame(m));
        }
        if frame_length > MAX_FRAME_LENGTH {
            return Err(FrameError::TooLongFrame { found: frame_length, max: MAX_FRAME_LENGTH });
        }
        if rem - 4 < frame_length as usize {
            return Err(FrameError::Incomplete);
        }
        let magic_code = buf[p + 4];
        src.advance_to(start + 5);
        if MAGIC_CODE != magic_code {
            return Err(FrameError::MagicCodeMismatch { found: magic_code, expect: MAGIC_CODE });
        }
        let header_length = read_be24(buf, p + 13);
        assert(header_length == be24(s, 13));
        src.advance_to(start + 16);
        let rem1 = rem - 16;
        if rem1 < header_length as usize {
            let m = concat5(
                "Header length is: ",
                header_length as u64,
                ", but only ",
                rem1 as u64,
                " bytes in buffer",
            );
            return Err(FrameError::BadFrame(m));
        }
        let body_start = p + 16 + header_length as usize;
        src.advance_to(start + 16 + header_length as u64);
        let rem2 = rem1 - header_length as usize;
        let mut payload: Option<Vec<u8>> = None;
        let mut payload_length: usize = 0;
        if header_length + 16 < frame_length {
            let pl = frame_length - header_length - 16;
            let visible = ((rem2 as u64) % 4294967296u64) as u32;
            if pl > visible {
                let m = concat5(
                    "Payload length is: ",
                    pl as u64,
                    ", but only ",
                    rem2 as u64,
                    " bytes in buffer",
                );
                return Err(FrameError::BadFrame(m));
            }
            payload_length = pl as usize;
            payload = Some(copy_range(buf, body_start, body_start + payload_length));
            src.advance_to(start + 16 + header_length as u64 + pl as u64);
        }
        let rem3 = rem2 - payload_length;
        if rem3 != 4 {
            return Err(FrameError::BadFrame(String::from_str("The remaining bytes are not checksum")));
        }
        let checksum_at = body_start + payload_length;
        assert(s.subrange((16 + header_length) as int, (16 + header_length
            + payload_length) as int) =~= buf@.subrange(
            body_start as int,
            (body_start + payload_length) as int,
        ));
        src.advance_to(start + rem as u64);
        match payload {
            Some(body) => {
                let checksum = read_be32(buf, checksum_at);
                let ckm = crc32(body.as_slice());
                Frame::verify_payload_checksum(checksum, ckm)
            },
            None => Ok(()),
        }
    }
}


impl Frame {
    fn encode_prefix_into(&self, buffer: &mut Vec<u8>, frame_length: u32)
        requires
            frame_length == frame_length_of(self@),
            frame_length_of(self@) <= MAX_FRAME_LENGTH,
        ensures
            final(buffer)@ == old(buffer)@ + encode_prefix(self@),
    {
        push_be32(buffer, frame_length);
        buffer.push(MAGIC_CODE);
        push_be16(buffer, self.operation_code.to_u16());
        buffer.push(self.flag);
        push_be32(buffer, self.stream_id);
        buffer.push(self.header_format.to_u8());
        match &self.header {
            Some(header) => {
                push_be24(buffer, header.len() as u32);
            },
            None => {
                buffer.push(0u8);
                push_be16(buffer, 0u16);
                assert(seq![0u8] + be16_bytes(0u16) =~= be24_bytes(0u32)) by {
                    assert((0u16 >> 8u16) as u8 == 0u8) by (bit_vector);
                    assert((0u32 >> 16u32) as u8 == 0u8) by (bit_vector);
                    assert((0u32 >> 8u32) as u8 == 0u8) by (bit_vector);
                }
            },
        }
        assert(final(buffer)@ =~= old(buffer)@ + encode_prefix(self@));
    }

    /// Decodes the frame at the cursor's position, reading through it.
    ///
    /// The bytes must hold a whole frame, as a successful `check` of them establishes;
    /// an empty header or payload decodes as `None`.
    pub fn parse(src: &mut Cursor) -> (r: Result<Frame, FrameError>)
        requires
            parsable(old(src).rest()),
        ensures
            final(src).bytes() == old(src).bytes(),
            final(src).pos() == old(src).pos() + 4 + be32(old(src).rest(), 0),
            r matches Ok(f) && f@ == parse_spec(old(src).rest()),
    {
        let ghost s = src.rest();
        let buf = src.slice();
        let len = buf.len();
        let start = src.position();
        let rem = src.remaining();
        assert(start <= len);
        let p = start as usize;
        assert(s =~= buf@.subrange(p as int, buf@.len() as int));
        let frame_length = read_be32(buf, p);
        let op_code = read_be16(buf, p + 5);
        let operation_code = match OperationCode::from_u16(op_code) {
            Some(op) => op,
            None => OperationCode::Unknown,
        };
        let flag = buf[p + 7];
        let stream_id = read_be32(buf, p + 8);
        let header_format = match HeaderFormat::from_u8(buf[p + 12]) {
            Some(h) => h,
            None => HeaderFormat::Unknown,
        };
        let header_length = read_be24(buf, p + 13);
        let mut frame = Frame {
            operation_code,
            flag,
            stream_id,
            header_format,
            header: None,
            payload: None,
        };
        let body_start = p + 16 + header_length as usize;
        if header_length > 0 {
            frame.header = Some(copy_range(buf, p + 16, body_start));
            assert(s.subrange(16, (16 + header_length) as int) =~= buf@.subrange(
                (p + 16) as int,
                body_start as int,
            ));
        }
        let payload_length = frame_length - header_length - 16;
        if payload_length > 0 {
            frame.payload = Some(copy_range(buf, body_start, body_start + payload_length as usize));
            assert(s.subrange((16 + header_length) as int, (16 + header_length + payload_length) as int)
                =~= buf@.subrange(body_start as int, (body_start + payload_length as usize) as int));
        }
        src.advance_to(start + 4 + frame_length as u64);
        Ok(frame)
    }

    /// Appends the encoding of the frame to `buffer`.
    ///
    /// A frame whose length field would exceed `MAX_FRAME_LENGTH` is refused and the
    /// buffer left as it was.
    pub fn encode(&self, buffer: &mut Vec<u8>) -> (r: Result<(), FrameError>)
        requires
            frame_length_of(self@) <= usize::MAX,
        ensures
            frame_length_of(self@) <= MAX_FRAME_LENGTH ==> r is Ok && final(buffer)@ == old(
                buffer,
            )@ + encode_spec(self@),
            frame_length_of(self@) > MAX_FRAME_LENGTH ==> r == Err::<(), FrameError>(
                FrameError::TooLongFrame {
                    found: (frame_length_of(self@) % 4294967296) as u32,
                    max: MAX_FRAME_LENGTH,
                },
            ) && final(buffer)@ == old(buffer)@,
    {
        let mut frame_length: usize = 16;
        if let Some(header) = &self.header {
            frame_length = frame_length + header.len();
        }
        if let Some(body) = &self.payload {
            frame_length = frame_length + body.len();
        }
        assert(frame_length == frame_length_of(self@));
        if frame_length > MAX_FRAME_LENGTH as usize {
            return Err(
                FrameError::TooLongFrame {
                    found: ((frame_length as u64) % 4294967296u64) as u32,
                    max: MAX_FRAME_LENGTH,
                },
            );
        }
        let ghost old_buf = buffer@;
        self.encode_prefix_into(buffer, frame_length as u32);
        let ghost b1 = buffer@;
        match &self.header {
            Some(header) => {
                push_all(buffer, header.as_slice());
            },
            None => {},
        }
        assert(buffer@ =~= b1 + opt_seq(self@.header));
        let ghost b2 = buffer@;
        match &self.payload {
            Some(body) => {
                push_all(buffer, body.as_slice());
                push_be32(buffer, crc32(body.as_slice()));
            },
            None => {
                push_be32(buffer, 0u32);
            },
        }
        assert(buffer@ =~= b2 + opt_seq(self@.payload) + be32_bytes(encode_checksum(self@)));
        assert(buffer@ =~= old_buf + encode_spec(self@));
        Ok(())
    }
}


/// Where the fields of an encoded frame stand.
proof fn lemma_encode_layout(f: FrameView)
    requires
        frame_length_of(f) <= MAX_FRAME_LENGTH,
    ensures
        ({
            let s = encode_spec(f);
            let hl = opt_len(f.header) as int;
            let pl = opt_len(f.payload) as int;
            &&& s.len() == 4 + frame_length_of(f)
            &&& be32(s, 0) == frame_length_of(f)
            &&& s[4] == MAGIC_CODE
            &&& be16(s, 5) == operation_code_value(f.operation_code)
            &&& s[7] == f.flag
            &&& be32(s, 8) == f.stream_id
            &&& s[12] == header_format_value(f.header_format)
            &&& be24(s, 13) == hl
            &&& s.subrange(16, 16 + hl) == opt_seq(f.header)
            &&& s.subrange(16 + hl, 16 + hl + pl) == opt_seq(f.payload)
            &&& be32(s, 16 + hl + pl) == encode_checksum(f)
        }),
{
    let s = encode_spec(f);
    let fl = frame_length_of(f);
    let hl = opt_len(f.header) as int;
    let pl = opt_len(f.payload) as int;
    let a = be32_bytes(fl as u32);
    let b = be16_bytes(operation_code_value(f.operation_code));
    let c = be32_bytes(f.stream_id);
    let d = be24_bytes(opt_len(f.header) as u32);
    let e = be32_bytes(encode_checksum(f));
    let pre = encode_prefix(f);
    let h = opt_seq(f.header);
    let p = opt_seq(f.payload);
    lemma_be32_roundtrip(fl as u32);
    lemma_be16_roundtrip(operation_code_value(f.operation_code));
    lemma_be32_roundtrip(f.stream_id);
    lemma_be24_roundtrip(opt_len(f.header) as u32);
    lemma_be32_roundtrip(encode_checksum(f));
    assert(pre =~= a + seq![MAGIC_CODE] + b + seq![f.flag] + c + seq![
        header_format_value(f.header_format),
    ] + d);
    assert(pre.len() == 16);
    assert(s =~= pre + h + p + e);
    assert(pre[0] == a[0] && pre[1] == a[1] && pre[2] == a[2] && pre[3] == a[3]);
    assert(pre[4] == MAGIC_CODE);
    assert(pre[5] == b[0] && pre[6] == b[1]);
    assert(pre[7] == f.flag);
    assert(pre[8] == c[0] && pre[9] == c[1] && pre[10] == c[2] && pre[11] == c[3]);
    assert(pre[12] == header_format_value(f.header_format));
    assert(pre[13] == d[0] && pre[14] == d[1] && pre[15] == d[2]);
    assert(s[0] == pre[0] && s[1] == pre[1] && s[2] == pre[2] && s[3] == pre[3]);
    assert(s[4] == pre[4] && s[5] == pre[5] && s[6] == pre[6] && s[7] == pre[7]);
    assert(s[8] == pre[8] && s[9] == pre[9] && s[10] == pre[10] && s[11] == pre[11]);
    assert(s[12] == pre[12] && s[13] == pre[13] && s[14] == pre[14] && s[15] == pre[15]);
    assert(s.subrange(16, 16 + hl) =~= h);
    assert(s.subrange(16 + hl, 16 + hl + pl) =~= p);
    let k = 16 + hl + pl;
    assert(s[k] == e[0] && s[k + 1] == e[1] && s[k + 2] == e[2] && s[k + 3] == e[3]);
}

/// `s` is laid out as a frame with header length `hl`, payload length `pl` and the
/// given checksum field.
spec fn laid_out(s: Seq<u8>, hl: int, pl: int, checksum: u32) -> bool {
    &&& 0 <= hl
    &&& 0 <= pl
    &&& 16 + hl + pl <= MAX_FRAME_LENGTH
    &&& s.len() == 20 + hl + pl
    &&& be32(s, 0) == 16 + hl + pl
    &&& s[4] == MAGIC_CODE
    &&& be24(s, 13) == hl
    &&& be32(s, 16 + hl + pl) == checksum
}

proof fn lemma_laid_out_checks(s: Seq<u8>, hl: int, pl: int, checksum: u32)
    requires
        laid_out(s, hl, pl, checksum),
        pl > 0 ==> checksum == crc32_iso_hdlc(s.subrange(16 + hl, 16 + hl + pl)),
    ensures
        check_spec(s) == (CheckVerdict::Complete, s.len()),
{
    assert(payload_length_of((16 + hl + pl) as nat, hl as nat) == pl);
}

/// An encoded frame passes `Frame::check`, which reads all of it.
pub proof fn lemma_encoded_frame_checks(f: FrameView)
    requires
        frame_length_of(f) <= MAX_FRAME_LENGTH,
    ensures
        check_spec(encode_spec(f)) == (CheckVerdict::Complete, encode_spec(f).len()),
{
    lemma_encode_layout(f);
    let s = encode_spec(f);
    let hl = opt_len(f.header) as int;
    let pl = opt_len(f.payload) as int;
    assert(laid_out(s, hl, pl, encode_checksum(f)));
    lemma_laid_out_checks(s, hl, pl, encode_checksum(f));
}

proof fn lemma_laid_out_parses(s: Seq<u8>, hl: int, pl: int, checksum: u32, f: FrameView)
    requires
        laid_out(s, hl, pl, checksum),
        hl == opt_len(f.header),
        pl == opt_len(f.payload),
        be16(s, 5) == operation_code_value(f.operation_code),
        s[7] == f.flag,
        be32(s, 8) == f.stream_id,
        s[12] == header_format_value(f.header_format),
        s.subrange(16, 16 + hl) == opt_seq(f.header),
        s.subrange(16 + hl, 16 + hl + pl) == opt_seq(f.payload),
    ensures
        parsable(s),
        parse_spec(s) == without_empty_parts(f),
{
    assert(operation_code_of(operation_code_value(f.operation_code) as nat) == Some(
        f.operation_code,
    ));
    assert(header_format_of(header_format_value(f.header_format) as nat) == Some(
        f.header_format,
    ));
    let g = parse_spec(s);
    assert(g.header == drop_empty(f.header));
    assert(g.payload == drop_empty(f.payload));
}

/// Parsing an encoded frame gives the frame back, but for an empty header or payload,
/// which reads back as none; a frame with neither comes back as it was.
pub proof fn lemma_encoded_frame_parses(f: FrameView)
    requires
        frame_length_of(f) <= MAX_FRAME_LENGTH,
    ensures
        parsable(encode_spec(f)),
        parse_spec(encode_spec(f)) == without_empty_parts(f),
        (f.header is None || opt_len(f.header) > 0) && (f.payload is None || opt_len(f.payload) > 0)
            ==> parse_spec(encode_spec(f)) == f,
{
    lemma_encode_layout(f);
    let s = encode_spec(f);
    let hl = opt_len(f.header) as int;
    let pl = opt_len(f.payload) as int;
    assert(laid_out(s, hl, pl, encode_checksum(f)));
    lemma_laid_out_parses(s, hl, pl, encode_checksum(f), f);
}

} // verus!
