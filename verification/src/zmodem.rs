use vstd::prelude::*;

use crate::bytes::{copy_range, push_all, suffix_equals};
use vstd::slice::{slice_subrange, slice_to_vec};

verus! {

/// The padding byte that opens every ZMODEM header.
pub const ZPAD: u8 = 0x2a;
/// The ZMODEM data-link escape byte.
pub const ZDLE: u8 = 0x18;
/// Header format byte: binary header with a 16-bit CRC.
pub const ZBIN: u8 = 0x41;
/// Header format byte: hexadecimal header with a 16-bit CRC.
pub const ZHEX: u8 = 0x42;
/// Header format byte: binary header with a 32-bit CRC.
pub const ZBIN32: u8 = 0x43;
/// Bytes in a header payload (frame type and four flag bytes).
pub const HEADER_PAYLOAD_SIZE: usize = 5;
/// Default bound on protocol bytes buffered while a transfer awaits a decision.
pub const DEFAULT_PENDING_LIMIT: usize = 256 * 1024;

#[derive(Clone, Copy, Debug, PartialEq, Eq, Structural)]
pub enum TransferDirection {
    Upload,
    Download,
}

#[derive(Clone, Copy, Debug, PartialEq, Eq, Structural)]
pub enum HeaderEncoding {
    Binary16,
    Hex16,
    Binary32,
}

#[derive(Clone, Copy, Debug, PartialEq, Eq, Structural)]
pub struct ZmodemDetection {
    pub direction: TransferDirection,
    pub encoding: HeaderEncoding,
    pub frame_type: u8,
}

/// The eight bytes that abort a ZMODEM session: eight CAN followed by eight backspaces.
pub fn zmodem_cancel_sequence() -> (seq: Vec<u8>)
    ensures
        seq@ == seq![0x18u8, 0x18, 0x18, 0x18, 0x18, 0x18, 0x18, 0x18, 0x08, 0x08, 0x08, 0x08, 0x08, 0x08, 0x08, 0x08],
{
    vec![0x18, 0x18, 0x18, 0x18, 0x18, 0x18, 0x18, 0x18, 0x08, 0x08, 0x08, 0x08, 0x08, 0x08, 0x08, 0x08]
}

// ---------------------------------------------------------------------------
// Byte-level decoding
// ---------------------------------------------------------------------------

/// The value of an ASCII hexadecimal digit.
pub open spec fn spec_hex_value(byte: u8) -> Option<u8> {
    if 0x30 <= byte <= 0x39 {
        Some((byte - 0x30) as u8)
    } else if 0x61 <= byte <= 0x66 {
        Some((byte - 0x61 + 10) as u8)
    } else if 0x41 <= byte <= 0x46 {
        Some((byte - 0x41 + 10) as u8)
    } else {
        None
    }
}

pub fn hex_value(byte: u8) -> (value: Option<u8>)
    ensures
        value == spec_hex_value(byte),
        value matches Some(v) ==> v < 16,
{
    if 0x30 <= byte && byte <= 0x39 {
        Some(byte - 0x30)
    } else if 0x61 <= byte && byte <= 0x66 {
        Some(byte - 0x61 + 10)
    } else if 0x41 <= byte && byte <= 0x46 {
        Some(byte - 0x41 + 10)
    } else {
        None
    }
}

/// The byte that a ZDLE escape sequence stands for.
pub open spec fn spec_unescape_zdle(byte: u8) -> u8 {
    if (0x40 <= byte <= 0x5f) || (0xc0 <= byte <= 0xdf) {
        byte ^ 0x40
    } else if byte == 0x6c {
        0x7f
    } else if byte == 0x6d {
        0xff
    } else {
        byte
    }
}

pub fn unescape_zdle(byte: u8) -> (out: u8)
    ensures
        out == spec_unescape_zdle(byte),
{
    if (0x40 <= byte && byte <= 0x5f) || (0xc0 <= byte && byte <= 0xdf) {
        byte ^ 0x40
    } else if byte == 0x6c {
        0x7f
    } else if byte == 0x6d {
        0xff
    } else {
        byte
    }
}

// ---------------------------------------------------------------------------
// Checksums
// ---------------------------------------------------------------------------

/// One bit of the CRC-16/XMODEM shift register (polynomial 0x1021).
pub open spec fn crc16_bit(crc: u16) -> u16 {
    if crc & 0x8000 != 0 {
        (crc << 1u16) ^ 0x1021
    } else {
        crc << 1u16
    }
}

pub open spec fn crc16_bits(crc: u16, n: nat) -> u16
    decreases n,
{
    if n == 0 {
        crc
    } else {
        crc16_bits(crc16_bit(crc), (n - 1) as nat)
    }
}

pub open spec fn crc16_byte(crc: u16, byte: u8) -> u16 {
    crc16_bits(crc ^ ((byte as u16) << 8u16), 8)
}

/// CRC-16/XMODEM: initial value 0, no reflection, no final xor.
pub open spec fn spec_crc16_xmodem(data: Seq<u8>) -> u16
    decreases data.len(),
{
    if data.len() == 0 {
        0
    } else {
        crc16_byte(spec_crc16_xmodem(data.drop_last()), data.last())
    }
}

pub fn crc16_xmodem(data: &[u8]) -> (crc: u16)
    ensures
        crc == spec_crc16_xmodem(data@),
{
    let mut crc: u16 = 0;
    let mut i: usize = 0;
    while i < data.len()
        invariant
            i <= data@.len(),
            crc == spec_crc16_xmodem(data@.subrange(0, i as int)),
        decreases data@.len() - i,
    {
        let byte = data[i];
        crc = crc ^ ((byte as u16) << 8u16);
        let ghost start = crc;
        let mut k: u32 = 0;
        while k < 8
            invariant
                k <= 8,
                crc16_bits(start, 8) == crc16_bits(crc, (8 - k) as nat),
            decreases 8 - k,
        {
            crc = if crc & 0x8000 != 0 {
                (crc << 1u16) ^ 0x1021
            } else {
                crc << 1u16
            };
            k += 1;
        }
        assert(data@.subrange(0, i + 1).drop_last() =~= data@.subrange(0, i as int));
        i += 1;
    }
    assert(data@.subrange(0, data@.len() as int) =~= data@);
    crc
}

/// One bit of the reflected CRC-32/ISO-HDLC shift register (polynomial 0xedb88320).
pub open spec fn crc32_bit(crc: u32) -> u32 {
    if crc & 1 != 0 {
        (crc >> 1u32) ^ 0xedb8_8320
    } else {
        crc >> 1u32
    }
}

pub open spec fn crc32_bits(crc: u32, n: nat) -> u32
    decreases n,
{
    if n == 0 {
        crc
    } else {
        crc32_bits(crc32_bit(crc), (n - 1) as nat)
    }
}

pub open spec fn crc32_register(data: Seq<u8>) -> u32
    decreases data.len(),
{
    if data.len() == 0 {
        0xffff_ffff
    } else {
        crc32_bits(crc32_register(data.drop_last()) ^ (data.last() as u32), 8)
    }
}

/// CRC-32/ISO-HDLC: initial value all ones, reflected, final complement.
pub open spec fn spec_crc32_iso_hdlc(data: Seq<u8>) -> u32 {
    !crc32_register(data)
}

pub fn crc32_iso_hdlc(data: &[u8]) -> (crc: u32)
    ensures
        crc == spec_crc32_iso_hdlc(data@),
{
    let mut crc: u32 = 0xffff_ffff;
    let mut i: usize = 0;
    while i < data.len()
        invariant
            i <= data@.len(),
            crc == crc32_register(data@.subrange(0, i as int)),
        decreases data@.len() - i,
    {
        let byte = data[i];
        crc = crc ^ (byte as u32);
        let ghost start = crc;
        let mut k: u32 = 0;
        while k < 8
            invariant
                k <= 8,
                crc32_bits(start, 8) == crc32_bits(crc, (8 - k) as nat),
            decreases 8 - k,
        {
            crc = if crc & 1 != 0 {
                (crc >> 1u32) ^ 0xedb8_8320
            } else {
                crc >> 1u32
            };
            k += 1;
        }
        assert(data@.subrange(0, i + 1).drop_last() =~= data@.subrange(0, i as int));
        i += 1;
    }
    assert(data@.subrange(0, data@.len() as int) =~= data@);
    !crc
}

/// Big-endian bytes of a 16-bit value.
pub open spec fn be_bytes16(v: u16) -> Seq<u8> {
    seq![(v >> 8u16) as u8, v as u8]
}

/// Little-endian bytes of a 32-bit value.
pub open spec fn le_bytes32(v: u32) -> Seq<u8> {
    seq![v as u8, (v >> 8u32) as u8, (v >> 16u32) as u8, (v >> 24u32) as u8]
}

// ---------------------------------------------------------------------------
// Header decoding
// ---------------------------------------------------------------------------

/// Decodes consecutive pairs of hexadecimal digits; `None` on any non-digit.
pub open spec fn hex_pairs(bytes: Seq<u8>) -> Option<Seq<u8>>
    decreases bytes.len(),
{
    if bytes.len() < 2 {
        Some(seq![])
    } else {
        match (spec_hex_value(bytes[0]), spec_hex_value(bytes[1])) {
            (Some(high), Some(low)) => match hex_pairs(bytes.subrange(2, bytes.len() as int)) {
                Some(rest) => Some(seq![(high * 16 + low) as u8] + rest),
                None => None,
            },
            _ => None,
        }
    }
}

/// Reads `count` logical bytes starting at `cursor`, resolving ZDLE escapes.
/// Returns the bytes and the position after them, or `None` when the data ends first.
pub open spec fn unescape_run(data: Seq<u8>, cursor: int, count: nat) -> Option<(Seq<u8>, int)>
    decreases count,
{
    if count == 0 {
        Some((seq![], cursor))
    } else if cursor < 0 || cursor >= data.len() {
        None
    } else if data[cursor] == ZDLE {
        if cursor + 1 >= data.len() {
            None
        } else {
            match unescape_run(data, cursor + 2, (count - 1) as nat) {
                Some((rest, end)) => Some((seq![spec_unescape_zdle(data[cursor + 1])] + rest, end)),
                None => None,
            }
        }
    } else {
        match unescape_run(data, cursor + 1, (count - 1) as nat) {
            Some((rest, end)) => Some((seq![data[cursor]] + rest, end)),
            None => None,
        }
    }
}

/// The decoded header bytes (payload followed by CRC) and the position after the header.
pub open spec fn spec_decode_header(
    data: Seq<u8>,
    start: int,
    encoding: HeaderEncoding,
    expected_len: nat,
) -> Option<(Seq<u8>, int)> {
    if encoding == HeaderEncoding::Hex16 {
        if start + expected_len > data.len() {
            None
        } else {
            match hex_pairs(data.subrange(start, start + expected_len)) {
                Some(decoded) => Some((decoded, start + expected_len)),
                None => None,
            }
        }
    } else {
        unescape_run(data, start, expected_len)
    }
}

/// Whether the CRC that trails a decoded header matches its payload.
pub open spec fn header_crc_valid(decoded: Seq<u8>, encoding: HeaderEncoding) -> bool {
    let payload = decoded.subrange(0, HEADER_PAYLOAD_SIZE as int);
    let trailer = decoded.subrange(HEADER_PAYLOAD_SIZE as int, decoded.len() as int);
    if encoding == HeaderEncoding::Binary32 {
        trailer == le_bytes32(spec_crc32_iso_hdlc(payload))
    } else {
        trailer == be_bytes16(spec_crc16_xmodem(payload))
    }
}

pub struct DecodedHeader {
    pub payload: Vec<u8>,
    pub crc_valid: bool,
}

proof fn lemma_hex_pairs_len(bytes: Seq<u8>)
    requires
        bytes.len() % 2 == 0,
    ensures
        hex_pairs(bytes) matches Some(d) ==> d.len() == bytes.len() / 2,
    decreases bytes.len(),
{
    if bytes.len() >= 2 {
        lemma_hex_pairs_len(bytes.subrange(2, bytes.len() as int));
    }
}

proof fn lemma_unescape_run_len(data: Seq<u8>, cursor: int, count: nat)
    ensures
        unescape_run(data, cursor, count) matches Some((d, end)) ==> d.len() == count,
    decreases count,
{
    if count > 0 && 0 <= cursor < data.len() {
        if data[cursor] == ZDLE {
            lemma_unescape_run_len(data, cursor + 2, (count - 1) as nat);
        } else {
            lemma_unescape_run_len(data, cursor + 1, (count - 1) as nat);
        }
    }
}

fn decode_hex_pairs(data: &[u8], start: usize, end: usize) -> (out: Option<Vec<u8>>)
    requires
        start <= end <= data@.len(),
        (end - start) % 2 == 0,
    ensures
        match out {
            Some(v) => hex_pairs(data@.subrange(start as int, end as int)) == Some(v@),
            None => hex_pairs(data@.subrange(start as int, end as int)) is None,
        },
{
    let ghost whole = data@.subrange(start as int, end as int);
    let mut decoded: Vec<u8> = Vec::new();
    let mut index: usize = start;
    assert(data@.subrange(index as int, end as int) =~= whole);
    while index < end
        invariant
            start <= index <= end,
            end <= data@.len(),
            (end - index) % 2 == 0,
            whole == data@.subrange(start as int, end as int),
            hex_pairs(whole) == match hex_pairs(data@.subrange(index as int, end as int)) {
                Some(rest) => Some(decoded@ + rest),
                None => None::<Seq<u8>>,
            },
        decreases end - index,
    {
        let ghost rest = data@.subrange(index as int, end as int);
        assert(rest[0] == data@[index as int]);
        assert(rest[1] == data@[index + 1]);
        assert(rest.subrange(2, rest.len() as int) =~= data@.subrange(index + 2, end as int));
        let high = match hex_value(data[index]) {
            Some(v) => v,
            None => {
                return None;
            },
        };
        let low = match hex_value(data[index + 1]) {
            Some(v) => v,
            None => {
                return None;
            },
        };
        let byte: u8 = (high << 4u8) | low;
        assert(byte == (high * 16 + low) as u8) by (bit_vector)
            requires
                high < 16,
                low < 16,
                byte == (high << 4u8) | low,
        ;
        let ghost before = decoded@;
        decoded.push(byte);
        proof {
            match hex_pairs(data@.subrange(index + 2, end as int)) {
                Some(tail) => {
                    assert(before + (seq![byte] + tail) =~= decoded@ + tail);
                },
                None => {},
            }
        }
        index += 2;
    }
    assert(data@.subrange(end as int, end as int) =~= Seq::<u8>::empty());
    assert(decoded@ + Seq::<u8>::empty() =~= decoded@);
    Some(decoded)
}

fn decode_escaped(data: &[u8], start: usize, count: usize) -> (out: Option<(Vec<u8>, usize)>)
    requires
        start <= data@.len(),
    ensures
        match out {
            Some((v, end)) => unescape_run(data@, start as int, count as nat) == Some((v@, end as int)),
            None => unescape_run(data@, start as int, count as nat) is None,
        },
{
    let mut decoded: Vec<u8> = Vec::new();
    let mut cursor: usize = start;
    while decoded.len() < count
        invariant
            cursor <= data@.len(),
            decoded@.len() <= count,
            unescape_run(data@, start as int, count as nat) == match unescape_run(
                data@,
                cursor as int,
                (count - decoded@.len()) as nat,
            ) {
                Some((rest, end)) => Some((decoded@ + rest, end)),
                None => None::<(Seq<u8>, int)>,
            },
        decreases count - decoded@.len(),
    {
        if cursor >= data.len() {
            return None;
        }
        let byte = data[cursor];
        cursor += 1;
        let ghost before = decoded@;
        let ghost remaining = (count - decoded@.len()) as nat;
        if byte == ZDLE {
            if cursor >= data.len() {
                return None;
            }
            let escaped = data[cursor];
            cursor += 1;
            decoded.push(unescape_zdle(escaped));
        } else {
            decoded.push(byte);
        }
        proof {
            match unescape_run(data@, cursor as int, (remaining - 1) as nat) {
                Some((rest, end)) => {
                    assert(before + (seq![decoded@.last()] + rest) =~= decoded@ + rest);
                },
                None => {},
            }
        }
    }
    assert(decoded@ + Seq::<u8>::empty() =~= decoded@);
    Some((decoded, cursor))
}

/// Decodes a header that starts at `start`, in the given encoding, of `expected_len`
/// encoded characters (hex) or logical bytes (binary), and checks its CRC.
pub fn decode_header_bytes(
    data: &[u8],
    start: usize,
    encoding: HeaderEncoding,
    expected_len: usize,
) -> (out: Option<(DecodedHeader, usize)>)
    requires
        start <= data@.len(),
        encoding == HeaderEncoding::Hex16 ==> expected_len % 2 == 0 && expected_len >= 2
            * HEADER_PAYLOAD_SIZE,
        encoding != HeaderEncoding::Hex16 ==> expected_len >= HEADER_PAYLOAD_SIZE,
    ensures
        match out {
            Some((header, end)) => match spec_decode_header(data@, start as int, encoding, expected_len as nat) {
                Some((decoded, spec_end)) => {
                    &&& end == spec_end
                    &&& decoded.len() >= HEADER_PAYLOAD_SIZE
                    &&& header.payload@ == decoded.subrange(0, HEADER_PAYLOAD_SIZE as int)
                    &&& header.crc_valid == header_crc_valid(decoded, encoding)
                },
                None => false,
            },
            None => spec_decode_header(data@, start as int, encoding, expected_len as nat) is None,
        },
{
    let (decoded, cursor) = if encoding == HeaderEncoding::Hex16 {
        let end = match start.checked_add(expected_len) {
            Some(end) => end,
            None => {
                proof {
                    assert(data@.len() == data.len());
                }
                return None;
            },
        };
        if end > data.len() {
            return None;
        }
        let v = match decode_hex_pairs(data, start, end) {
            Some(v) => v,
            None => {
                return None;
            },
        };
        proof {
            lemma_hex_pairs_len(data@.subrange(start as int, end as int));
        }
        (v, end)
    } else {
        match decode_escaped(data, start, expected_len) {
            Some((v, end)) => {
                proof {
                    lemma_unescape_run_len(data@, start as int, expected_len as nat);
                }
                (v, end)
            },
            None => {
                return None;
            },
        }
    };
    let payload = copy_range(decoded.as_slice(), 0, HEADER_PAYLOAD_SIZE);
    let crc_valid = if encoding == HeaderEncoding::Binary32 {
        let crc = crc32_iso_hdlc(payload.as_slice());
        let expected: Vec<u8> = vec![crc as u8, (crc >> 8u32) as u8, (crc >> 16u32) as u8, (crc >> 24u32) as u8];
        assert(expected@ =~= le_bytes32(crc));
        suffix_equals(decoded.as_slice(), HEADER_PAYLOAD_SIZE, expected.as_slice())
    } else {
        let crc = crc16_xmodem(payload.as_slice());
        let expected: Vec<u8> = vec![(crc >> 8u16) as u8, crc as u8];
        assert(expected@ =~= be_bytes16(crc));
        suffix_equals(decoded.as_slice(), HEADER_PAYLOAD_SIZE, expected.as_slice())
    };
    Some((DecodedHeader { payload, crc_valid }, cursor))
}

// ---------------------------------------------------------------------------
// Header recognition
// ---------------------------------------------------------------------------

/// What the bytes at a candidate position are.
pub enum Candidate {
    Valid { detection: ZmodemDetection },
    Incomplete,
    Invalid,
}

/// Position of the first byte at or after `i` that is not ZPAD.
pub open spec fn leading_zpad_end(data: Seq<u8>, i: int) -> int
    decreases data.len() - i,
{
    if 0 <= i < data.len() && data[i] == ZPAD {
        leading_zpad_end(data, i + 1)
    } else {
        i
    }
}

/// The encoding named by a header format byte and its encoded length.
pub open spec fn encoding_for(format: u8) -> Option<(HeaderEncoding, nat)> {
    if format == ZBIN {
        Some((HeaderEncoding::Binary16, (HEADER_PAYLOAD_SIZE + 2) as nat))
    } else if format == ZHEX {
        Some((HeaderEncoding::Hex16, ((HEADER_PAYLOAD_SIZE + 2) * 2) as nat))
    } else if format == ZBIN32 {
        Some((HeaderEncoding::Binary32, (HEADER_PAYLOAD_SIZE + 4) as nat))
    } else {
        None
    }
}

/// The transfer direction announced by a frame type: ZRQINIT (0) and ZRINIT... ZSINIT
/// announce a download, ZRINIT (1) an upload.
pub open spec fn direction_for(frame_type: u8) -> Option<TransferDirection> {
    if frame_type == 0 || frame_type == 4 {
        Some(TransferDirection::Download)
    } else if frame_type == 1 {
        Some(TransferDirection::Upload)
    } else {
        None
    }
}

/// Whether every byte is a hex digit.
pub open spec fn all_hex_digits(bytes: Seq<u8>) -> bool {
    forall|i: int| 0 <= i < bytes.len() ==> #[trigger] spec_hex_value(bytes[i]) is Some
}

/// The bytes of a hex header body that are already there: from `start`, at most `len`.
pub open spec fn hex_available(data: Seq<u8>, start: int, len: nat) -> Seq<u8> {
    if start + len <= data.len() {
        data.subrange(start, start + len)
    } else {
        data.subrange(start, data.len() as int)
    }
}

/// Classifies the bytes that start at a ZPAD: a complete header with a valid CRC and a
/// known frame type, a prefix that could still become one, or neither. A hex header whose
/// bytes already there hold a character that is not a hex digit can never become one.
pub open spec fn spec_parse_candidate(data: Seq<u8>) -> Candidate {
    if data.len() == 0 || data[0] != ZPAD {
        Candidate::Invalid
    } else {
        let c = leading_zpad_end(data, 0);
        if c == data.len() {
            Candidate::Incomplete
        } else if data[c] != ZDLE {
            Candidate::Invalid
        } else if c + 1 == data.len() {
            Candidate::Incomplete
        } else {
            match encoding_for(data[c + 1]) {
                None => Candidate::Invalid,
                Some((encoding, len)) => if encoding == HeaderEncoding::Hex16 && !all_hex_digits(
                    hex_available(data, c + 2, len),
                ) {
                    Candidate::Invalid
                } else {
                    match spec_decode_header(data, c + 2, encoding, len) {
                    None => Candidate::Incomplete,
                    Some((decoded, _)) => if !header_crc_valid(decoded, encoding) {
                        Candidate::Invalid
                    } else {
                        match direction_for(decoded[0]) {
                            None => Candidate::Invalid,
                            Some(direction) => Candidate::Valid {
                                detection: ZmodemDetection {
                                    direction,
                                    encoding,
                                    frame_type: decoded[0],
                                },
                            },
                        }
                    },
                }
                },
            }
        }
    }
}

proof fn lemma_leading_zpad_end(data: Seq<u8>, i: int)
    requires
        0 <= i <= data.len(),
    ensures
        i <= leading_zpad_end(data, i) <= data.len(),
        forall|k: int| i <= k < leading_zpad_end(data, i) ==> data[k] == ZPAD,
        leading_zpad_end(data, i) < data.len() ==> data[leading_zpad_end(data, i)] != ZPAD,
    decreases data.len() - i,
{
    if i < data.len() && data[i] == ZPAD {
        lemma_leading_zpad_end(data, i + 1);
    }
}

fn hex_digits_available(data: &[u8], start: usize, len: usize) -> (all: bool)
    requires
        start <= data@.len(),
    ensures
        all == all_hex_digits(hex_available(data@, start as int, len as nat)),
{
    let n = data.len();
    let end = if len <= n - start {
        start + len
    } else {
        n
    };
    let ghost avail = hex_available(data@, start as int, len as nat);
    assert(avail =~= data@.subrange(start as int, end as int));
    let mut i: usize = start;
    while i < end
        invariant
            start <= i <= end,
            end <= n,
            n == data@.len(),
            avail == data@.subrange(start as int, end as int),
            avail == hex_available(data@, start as int, len as nat),
            forall|k: int| 0 <= k < i - start ==> #[trigger] spec_hex_value(avail[k]) is Some,
        decreases end - i,
    {
        if hex_value(data[i]).is_none() {
            assert(avail[i - start] == data@[i as int]);
            assert(spec_hex_value(avail[i - start]) is None);
            assert(!all_hex_digits(avail));
            return false;
        }
        assert(avail[i - start] == data@[i as int]);
        i += 1;
    }
    true
}

pub fn parse_candidate(data: &[u8]) -> (c: Candidate)
    ensures
        c == spec_parse_candidate(data@),
{
    if data.len() == 0 || data[0] != ZPAD {
        return Candidate::Invalid;
    }
    let mut cursor: usize = 0;
    while cursor < data.len() && data[cursor] == ZPAD
        invariant
            cursor <= data@.len(),
            leading_zpad_end(data@, 0) == leading_zpad_end(data@, cursor as int),
        decreases data@.len() - cursor,
    {
        cursor += 1;
    }
    proof {
        lemma_leading_zpad_end(data@, cursor as int);
    }
    if cursor == data.len() {
        return Candidate::Incomplete;
    }
    if data[cursor] != ZDLE {
        return Candidate::Invalid;
    }
    cursor += 1;
    if cursor == data.len() {
        return Candidate::Incomplete;
    }
    let encoding_byte = data[cursor];
    cursor += 1;
    let (encoding, decoded_len) = if encoding_byte == ZBIN {
        (HeaderEncoding::Binary16, HEADER_PAYLOAD_SIZE + 2)
    } else if encoding_byte == ZHEX {
        (HeaderEncoding::Hex16, (HEADER_PAYLOAD_SIZE + 2) * 2)
    } else if encoding_byte == ZBIN32 {
        (HeaderEncoding::Binary32, HEADER_PAYLOAD_SIZE + 4)
    } else {
        return Candidate::Invalid;
    };
    if encoding == HeaderEncoding::Hex16 && !hex_digits_available(data, cursor, decoded_len) {
        return Candidate::Invalid;
    }
    let header = match decode_header_bytes(data, cursor, encoding, decoded_len) {
        Some((header, _)) => header,
        None => {
            return Candidate::Incomplete;
        },
    };
    if !header.crc_valid {
        return Candidate::Invalid;
    }
    let frame_type = header.payload[0];
    let direction = if frame_type == 0 || frame_type == 4 {
        TransferDirection::Download
    } else if frame_type == 1 {
        TransferDirection::Upload
    } else {
        return Candidate::Invalid;
    };
    Candidate::Valid { detection: ZmodemDetection { direction, encoding, frame_type } }
}

// ---------------------------------------------------------------------------
// Probe
// ---------------------------------------------------------------------------

/// What the probe makes of `combined` from position `i` on: terminal bytes, protocol
/// bytes, a detection, and the bytes held back as a possible header prefix.
pub open spec fn probe_scan(c: Seq<u8>, i: int) -> (Seq<u8>, Seq<u8>, Option<ZmodemDetection>, Seq<u8>)
    decreases c.len() - i,
{
    if i < 0 || i >= c.len() {
        (c, seq![], None, seq![])
    } else if c[i] != ZPAD {
        probe_scan(c, i + 1)
    } else {
        match spec_parse_candidate(c.subrange(i, c.len() as int)) {
            Candidate::Valid { detection } => (c.subrange(0, i), c.subrange(i, c.len() as int), Some(detection), seq![]),
            Candidate::Incomplete => (c.subrange(0, i), seq![], None, c.subrange(i, c.len() as int)),
            Candidate::Invalid => probe_scan(c, i + 1),
        }
    }
}

/// The result of inspecting combined bytes `c` from the start.
pub open spec fn spec_inspect(c: Seq<u8>) -> (Seq<u8>, Seq<u8>, Option<ZmodemDetection>, Seq<u8>) {
    probe_scan(c, 0)
}

/// Bytes that the probe may hold back: nothing, or a prefix that could still become a header.
pub open spec fn possible_header_prefix(pending: Seq<u8>) -> bool {
    pending.len() == 0 || (pending[0] == ZPAD && spec_parse_candidate(pending) is Incomplete)
}

#[derive(Debug)]
pub struct ZmodemProbe {
    pending: Vec<u8>,
}

pub struct ProbeOutput {
    pub terminal_data: Vec<u8>,
    pub protocol_data: Vec<u8>,
    pub detection: Option<ZmodemDetection>,
}

impl ZmodemProbe {
    /// The bytes held back after the last inspection.
    pub closed spec fn pending_bytes(&self) -> Seq<u8> {
        self.pending@
    }

    /// The probe holds back nothing but a possible header prefix.
    pub open spec fn wf(&self) -> bool {
        possible_header_prefix(self.pending_bytes())
    }

    pub fn new() -> (probe: Self)
        ensures
            probe.pending_bytes() == Seq::<u8>::empty(),
            probe.wf(),
    {
        ZmodemProbe { pending: Vec::new() }
    }

    pub fn has_pending(&self) -> (b: bool)
        ensures
            b == (self.pending_bytes().len() > 0),
    {
        self.pending.len() > 0
    }

    /// Splits the held-back bytes followed by `data` into terminal output, a detected
    /// transfer header with everything after it, and a possible header prefix to hold back.
    pub fn inspect(&mut self, data: &[u8]) -> (out: ProbeOutput)
        ensures
            ({
                let r = spec_inspect(old(self).pending_bytes() + data@);
                &&& out.terminal_data@ == r.0
                &&& out.protocol_data@ == r.1
                &&& out.detection == r.2
                &&& final(self).pending_bytes() == r.3
            }),
            final(self).wf(),
    {
        let ghost c0 = self.pending@ + data@;
        let mut combined: Vec<u8> = Vec::new();
        combined.append(&mut self.pending);
        push_all(&mut combined, data);
        assert(combined@ =~= c0);
        let mut index: usize = 0;
        loop
            invariant
                index <= combined@.len(),
                combined@ == c0,
                c0 == old(self).pending_bytes() + data@,
                self.pending@ == Seq::<u8>::empty(),
                spec_inspect(c0) == probe_scan(c0, index as int),
            decreases combined@.len() - index,
        {
            let mut start: usize = index;
            while start < combined.len() && combined[start] != ZPAD
                invariant
                    index <= start <= combined@.len(),
                    combined@ == c0,
                    spec_inspect(c0) == probe_scan(c0, start as int),
                decreases combined@.len() - start,
            {
                start += 1;
            }
            if start == combined.len() {
                proof {
                    lemma_probe_scan_wf(c0, start as int);
                }
                return ProbeOutput { terminal_data: combined, protocol_data: Vec::new(), detection: None };
            }
            let len = combined.len();
            let candidate = parse_candidate(slice_subrange(combined.as_slice(), start, len));
            match candidate {
                Candidate::Valid { detection } => {
                    let terminal_data = copy_range(combined.as_slice(), 0, start);
                    let protocol_data = copy_range(combined.as_slice(), start, len);
                    return ProbeOutput { terminal_data, protocol_data, detection: Some(detection) };
                },
                Candidate::Incomplete => {
                    let held = copy_range(combined.as_slice(), start, len);
                    self.pending = held;
                    let terminal_data = copy_range(combined.as_slice(), 0, start);
                    proof {
                        lemma_probe_scan_wf(c0, start as int);
                    }
                    return ProbeOutput { terminal_data, protocol_data: Vec::new(), detection: None };
                },
                Candidate::Invalid => {
                    index = start + 1;
                },
            }
        }
    }

    /// Releases the held-back bytes.
    pub fn flush(&mut self) -> (out: Vec<u8>)
        ensures
            out@ == old(self).pending_bytes(),
            final(self).pending_bytes() == Seq::<u8>::empty(),
            final(self).wf(),
    {
        let mut out: Vec<u8> = Vec::new();
        out.append(&mut self.pending);
        out
    }

    /// Drops the held-back bytes.
    pub fn reset(&mut self)
        ensures
            final(self).pending_bytes() == Seq::<u8>::empty(),
            final(self).wf(),
    {
        self.pending.clear();
    }
}

impl Default for ZmodemProbe {
    fn default() -> (probe: Self)
        ensures
            probe.pending_bytes() == Seq::<u8>::empty(),
    {
        ZmodemProbe::new()
    }
}

proof fn lemma_probe_scan_wf(c: Seq<u8>, i: int)
    requires
        0 <= i <= c.len(),
    ensures
        possible_header_prefix(probe_scan(c, i).3),
    decreases c.len() - i,
{
    if i < c.len() {
        if c[i] != ZPAD {
            lemma_probe_scan_wf(c, i + 1);
        } else {
            match spec_parse_candidate(c.subrange(i, c.len() as int)) {
                Candidate::Invalid => lemma_probe_scan_wf(c, i + 1),
                _ => {},
            }
        }
    }
}

} // verus!

verus! {

proof fn lemma_probe_scan_parts(c: Seq<u8>, i: int)
    requires
        0 <= i <= c.len(),
    ensures
        ({
            let r = probe_scan(c, i);
            &&& r.0 + r.1 + r.3 == c
            &&& r.2 is None ==> r.1.len() == 0
            &&& r.2 is Some ==> r.3.len() == 0 && spec_parse_candidate(r.1) == (Candidate::Valid {
                detection: r.2.unwrap(),
            })
            &&& (forall|k: int| i <= k < c.len() ==> c[k] != ZPAD) ==> r == (
                c,
                Seq::<u8>::empty(),
                None::<ZmodemDetection>,
                Seq::<u8>::empty(),
            )
        }),
    decreases c.len() - i,
{
    if i < c.len() {
        if c[i] != ZPAD {
            lemma_probe_scan_parts(c, i + 1);
        } else {
            match spec_parse_candidate(c.subrange(i, c.len() as int)) {
                Candidate::Invalid => lemma_probe_scan_parts(c, i + 1),
                _ => {
                    assert(c.subrange(0, i) + c.subrange(i, c.len() as int) =~= c);
                },
            }
        }
    } else {
        assert(c + Seq::<u8>::empty() + Seq::<u8>::empty() =~= c);
    }
}

/// Inspection neither loses, duplicates nor reorders a byte: the terminal bytes, then the
/// protocol bytes, then the bytes held back are exactly the bytes held back before followed
/// by the new input. Protocol bytes appear only with a detection, and then they start with a
/// complete header that carries exactly that detection, and nothing is held back.
pub proof fn lemma_inspect_conserves_bytes(held: Seq<u8>, input: Seq<u8>)
    ensures
        ({
            let r = spec_inspect(held + input);
            &&& r.0 + r.1 + r.3 == held + input
            &&& r.2 is None ==> r.1.len() == 0
            &&& r.2 is Some ==> r.3.len() == 0 && spec_parse_candidate(r.1) == (Candidate::Valid {
                detection: r.2.unwrap(),
            })
        }),
{
    lemma_probe_scan_parts(held + input, 0);
}

proof fn lemma_zpad_end_extends(d: Seq<u8>, b: Seq<u8>, i: int)
    requires
        0 <= i <= d.len(),
        leading_zpad_end(d, i) < d.len(),
    ensures
        leading_zpad_end(d + b, i) == leading_zpad_end(d, i),
    decreases d.len() - i,
{
    if i < d.len() && d[i] == ZPAD {
        assert((d + b)[i] == d[i]);
        lemma_zpad_end_extends(d, b, i + 1);
    } else {
        assert((d + b)[i] == d[i]);
    }
}

proof fn lemma_unescape_run_extends(d: Seq<u8>, b: Seq<u8>, cursor: int, count: nat)
    requires
        unescape_run(d, cursor, count) is Some,
    ensures
        unescape_run(d + b, cursor, count) == unescape_run(d, cursor, count),
    decreases count,
{
    if count > 0 {
        assert((d + b)[cursor] == d[cursor]);
        if d[cursor] == ZDLE {
            assert((d + b)[cursor + 1] == d[cursor + 1]);
            lemma_unescape_run_extends(d, b, cursor + 2, (count - 1) as nat);
        } else {
            lemma_unescape_run_extends(d, b, cursor + 1, (count - 1) as nat);
        }
    }
}

/// Bytes that cannot begin a header still cannot once more bytes follow them.
proof fn lemma_invalid_candidate_extends(d: Seq<u8>, b: Seq<u8>)
    requires
        d.len() > 0,
        d[0] == ZPAD,
        spec_parse_candidate(d) is Invalid,
    ensures
        spec_parse_candidate(d + b) is Invalid,
{
    let db = d + b;
    assert(db[0] == d[0]);
    lemma_leading_zpad_end(d, 0);
    let c = leading_zpad_end(d, 0);
    lemma_zpad_end_extends(d, b, 0);
    assert(db[c] == d[c]);
    if d[c] == ZDLE {
        assert(db[c + 1] == d[c + 1]);
        match encoding_for(d[c + 1]) {
            None => {},
            Some((encoding, len)) => {
                let ad = hex_available(d, c + 2, len);
                let ab = hex_available(db, c + 2, len);
                if encoding == HeaderEncoding::Hex16 && !all_hex_digits(ad) {
                    let k = choose|k: int| 0 <= k < ad.len() && !(#[trigger] spec_hex_value(ad[k]) is Some);
                    assert(ab[k] == ad[k]);
                } else {
                    match spec_decode_header(d, c + 2, encoding, len) {
                        None => {},
                        Some(_) => {
                            if encoding == HeaderEncoding::Hex16 {
                                assert(ab =~= ad);
                                assert(db.subrange(c + 2, c + 2 + len) =~= d.subrange(c + 2, c + 2 + len));
                            } else {
                                lemma_unescape_run_extends(d, b, c + 2, len);
                            }
                        },
                    }
                }
            },
        }
    }
}

/// Scanning bytes that follow others gives what scanning them alone gives, behind the
/// bytes before them.
proof fn lemma_probe_scan_shift(x: Seq<u8>, y: Seq<u8>, k: int)
    requires
        0 <= k <= y.len(),
    ensures
        ({
            let r = probe_scan(y, k);
            probe_scan(x + y, x.len() + k) == (x + r.0, r.1, r.2, r.3)
        }),
    decreases y.len() - k,
{
    let c = x + y;
    let i = x.len() + k;
    if k == y.len() {
    } else {
        assert(c[i] == y[k]);
        if y[k] != ZPAD {
            lemma_probe_scan_shift(x, y, k + 1);
        } else {
            assert(c.subrange(i, c.len() as int) =~= y.subrange(k, y.len() as int));
            assert(c.subrange(0, i) =~= x + y.subrange(0, k));
            match spec_parse_candidate(y.subrange(k, y.len() as int)) {
                Candidate::Invalid => lemma_probe_scan_shift(x, y, k + 1),
                _ => {},
            }
        }
    }
}

proof fn lemma_probe_scan_extends(c: Seq<u8>, b: Seq<u8>, i: int)
    requires
        0 <= i <= c.len(),
        probe_scan(c, i).2 is None,
    ensures
        ({
            let s = probe_scan(c, i);
            let r = probe_scan(s.3 + b, 0);
            probe_scan(c + b, i) == (s.0 + r.0, r.1, r.2, r.3)
        }),
    decreases c.len() - i,
{
    let cb = c + b;
    if i == c.len() {
        lemma_probe_scan_shift(c, b, 0);
        assert(Seq::<u8>::empty() + b =~= b);
    } else {
        assert(cb[i] == c[i]);
        if c[i] != ZPAD {
            lemma_probe_scan_extends(c, b, i + 1);
        } else {
            let d = c.subrange(i, c.len() as int);
            assert(cb.subrange(i, cb.len() as int) =~= d + b);
            match spec_parse_candidate(d) {
                Candidate::Invalid => {
                    lemma_invalid_candidate_extends(d, b);
                    lemma_probe_scan_extends(c, b, i + 1);
                },
                Candidate::Incomplete => {
                    assert(cb =~= c.subrange(0, i) + (d + b));
                    lemma_probe_scan_shift(c.subrange(0, i), d + b, 0);
                },
                Candidate::Valid { .. } => {},
            }
        }
    }
}

/// Inspecting input in two pieces gives what inspecting it at once gives: when the first
/// piece detects nothing, its terminal bytes followed by those of the second piece (read
/// after what the first held back) are the terminal bytes of the whole, and the second
/// piece's protocol bytes, detection and held-back bytes are those of the whole.
pub proof fn lemma_inspect_split(held: Seq<u8>, a: Seq<u8>, b: Seq<u8>)
    requires
        spec_inspect(held + a).2 is None,
    ensures
        ({
            let r1 = spec_inspect(held + a);
            let r2 = spec_inspect(r1.3 + b);
            let whole = spec_inspect(held + a + b);
            &&& whole.0 == r1.0 + r2.0
            &&& whole.1 == r2.1
            &&& whole.2 == r2.2
            &&& whole.3 == r2.3
        }),
{
    lemma_probe_scan_extends(held + a, b, 0);
}

/// Bytes that hold no ZPAD pass through to the terminal at once and untouched.
pub proof fn lemma_plain_bytes_pass_through(c: Seq<u8>)
    requires
        forall|k: int| 0 <= k < c.len() ==> c[k] != ZPAD,
    ensures
        spec_inspect(c) == (c, Seq::<u8>::empty(), None::<ZmodemDetection>, Seq::<u8>::empty()),
{
    lemma_probe_scan_parts(c, 0);
}

} // verus!

verus! {

#[verifier::external_type_specification]
#[verifier::external_body]
pub struct ExInstant(std::time::Instant);

/// Calls `std::time::Instant::now`. The instant depends on the clock, so nothing is
/// claimed of it.
#[verifier::external_body]
fn instant_now() -> std::time::Instant {
    std::time::Instant::now()
}

/// The whole nanoseconds of a duration, as `Duration::as_nanos` gives them.
pub uninterp spec fn duration_as_nanos(duration: std::time::Duration) -> u128;

/// Calls `Instant::elapsed`: the time since `since`, read from the clock, of which
/// nothing is claimed.
#[verifier::external_body]
fn elapsed_since(since: &std::time::Instant) -> std::time::Duration {
    since.elapsed()
}

/// Calls `Duration::as_nanos`; the number is named.
#[verifier::external_body]
pub(crate) fn duration_nanos(duration: &std::time::Duration) -> (n: u128)
    ensures
        n == duration_as_nanos(*duration),
{
    duration.as_nanos()
}

/// The whole nanoseconds since `since`, read from the clock.
pub(crate) fn nanos_since(since: &std::time::Instant) -> u128 {
    let elapsed = elapsed_since(since);
    duration_nanos(&elapsed)
}

/// Held-back bytes are stale once they have been held for at least the maximum age.
pub fn is_stale(elapsed_nanos: u128, max_age_nanos: u128) -> (stale: bool)
    ensures
        stale == (elapsed_nanos >= max_age_nanos),
{
    elapsed_nanos >= max_age_nanos
}

#[derive(Clone, Copy, Debug, PartialEq, Eq, Structural)]
pub enum StreamMode {
    Normal,
    AwaitingDecision,
    Transferring,
    Recovering,
}

#[derive(Clone, Debug, PartialEq, Eq)]
pub enum StreamEvent {
    TerminalData(Vec<u8>),
    Detected(ZmodemDetection),
    ProtocolData(Vec<u8>),
}

#[derive(Clone, Copy, Debug, PartialEq, Eq, Structural)]
pub enum StreamError {
    PendingBufferOverflow { limit: usize },
    InvalidTransition,
}

pub open spec fn is_terminal_event(e: StreamEvent, bytes: Seq<u8>) -> bool {
    e matches StreamEvent::TerminalData(v) && v@ == bytes
}

pub open spec fn is_protocol_event(e: StreamEvent, bytes: Seq<u8>) -> bool {
    e matches StreamEvent::ProtocolData(v) && v@ == bytes
}

/// `events` report terminal bytes `t` (when there are any) and then the detection `d`
/// (when there is one), and nothing else.
pub open spec fn events_report(events: Seq<StreamEvent>, t: Seq<u8>, d: Option<ZmodemDetection>) -> bool {
    let n = if t.len() > 0 { 1int } else { 0int };
    &&& events.len() == n + if d is Some { 1int } else { 0int }
    &&& t.len() > 0 ==> is_terminal_event(events[0], t)
    &&& d matches Some(det) ==> events[n] == StreamEvent::Detected(det)
}

/// `events` pass `data` on as protocol bytes, unless it is empty.
pub open spec fn events_forward(events: Seq<StreamEvent>, data: Seq<u8>) -> bool {
    &&& events.len() == if data.len() > 0 { 1int } else { 0int }
    &&& data.len() > 0 ==> is_protocol_event(events[0], data)
}

/// Splits a remote byte stream between the terminal and a ZMODEM transfer.
pub struct TerminalStreamMux {
    mode: StreamMode,
    probe: ZmodemProbe,
    probe_pending_since: Option<std::time::Instant>,
    pending_protocol: Vec<u8>,
    pending_limit: usize,
}

impl TerminalStreamMux {
    pub closed spec fn spec_mode(&self) -> StreamMode {
        self.mode
    }

    /// Bytes the probe holds back as a possible header prefix.
    pub closed spec fn held_bytes(&self) -> Seq<u8> {
        self.probe.pending_bytes()
    }

    /// Protocol bytes buffered while a transfer awaits a decision.
    pub closed spec fn buffered_protocol(&self) -> Seq<u8> {
        self.pending_protocol@
    }

    pub closed spec fn limit(&self) -> nat {
        self.pending_limit as nat
    }

    /// When the probe began to hold bytes back.
    pub closed spec fn held_since(&self) -> Option<std::time::Instant> {
        self.probe_pending_since
    }

    /// The mux's invariant: protocol bytes are buffered only while awaiting a decision and
    /// never beyond the limit; bytes are held back only in normal mode, only as a possible
    /// header prefix, and exactly while a hold-back time is recorded.
    pub open spec fn wf(&self) -> bool {
        &&& self.limit() >= 1
        &&& self.spec_mode() != StreamMode::AwaitingDecision ==> self.buffered_protocol().len() == 0
        &&& self.buffered_protocol().len() <= self.limit()
        &&& self.spec_mode() != StreamMode::Normal ==> self.held_bytes().len() == 0
        &&& self.held_since().is_some() == (self.held_bytes().len() > 0)
        &&& possible_header_prefix(self.held_bytes())
    }

    /// All but the mode and the held-back bytes are as in `other`.
    pub open spec fn same_buffers(&self, other: &Self) -> bool {
        &&& self.limit() == other.limit()
        &&& self.buffered_protocol() == other.buffered_protocol()
        &&& self.held_bytes() == other.held_bytes()
        &&& self.held_since() == other.held_since()
    }

    pub fn new(pending_limit: usize) -> (mux: Self)
        ensures
            mux.spec_mode() == StreamMode::Normal,
            mux.limit() == if pending_limit >= 1 { pending_limit as nat } else { 1nat },
            mux.held_bytes() == Seq::<u8>::empty(),
            mux.buffered_protocol() == Seq::<u8>::empty(),
            mux.held_since() is None,
            mux.wf(),
    {
        TerminalStreamMux {
            mode: StreamMode::Normal,
            probe: ZmodemProbe::new(),
            probe_pending_since: None,
            pending_protocol: Vec::new(),
            pending_limit: if pending_limit >= 1 { pending_limit } else { 1 },
        }
    }

    pub fn mode(&self) -> (mode: StreamMode)
        ensures
            mode == self.spec_mode(),
    {
        self.mode
    }

    /// Routes bytes from the remote side. In normal mode they pass through the probe: terminal
    /// bytes are reported first, then a detected transfer, whose protocol bytes are buffered
    /// until a decision. While a decision is awaited the bytes are buffered; during a transfer
    /// or recovery they are passed on as protocol bytes. Buffering beyond the limit drops the
    /// buffer, switches to recovery and fails.
    pub fn push_remote(&mut self, data: &[u8]) -> (result: Result<Vec<StreamEvent>, StreamError>)
        ensures
            final(self).limit() == old(self).limit(),
            old(self).wf() ==> final(self).wf(),
            match old(self).spec_mode() {
                StreamMode::Normal => {
                    let r = spec_inspect(old(self).held_bytes() + data@);
                    &&& final(self).held_bytes() == r.3
                    &&& r.3.len() == 0 ==> final(self).held_since() is None
                    &&& (old(self).held_bytes().len() > 0 && r.3.len() > 0) ==> final(self).held_since()
                        == old(self).held_since()
                    &&& (old(self).held_bytes().len() == 0 && r.3.len() > 0) ==> final(self).held_since() is Some
                    &&& match r.2 {
                        None => {
                            &&& final(self).spec_mode() == StreamMode::Normal
                            &&& final(self).buffered_protocol() == old(self).buffered_protocol()
                            &&& result matches Ok(events) && events_report(events@, r.0, None)
                        },
                        Some(detection) => if r.1.len() <= old(self).limit() {
                            &&& final(self).spec_mode() == StreamMode::AwaitingDecision
                            &&& final(self).buffered_protocol() == r.1
                            &&& result matches Ok(events) && events_report(events@, r.0, Some(detection))
                        } else {
                            &&& final(self).spec_mode() == StreamMode::Recovering
                            &&& final(self).buffered_protocol() == Seq::<u8>::empty()
                            &&& result == Err::<Vec<StreamEvent>, StreamError>(
                                StreamError::PendingBufferOverflow { limit: old(self).limit() as usize },
                            )
                        },
                    }
                },
                StreamMode::AwaitingDecision => {
                    let buffered = old(self).buffered_protocol() + data@;
                    &&& final(self).held_bytes() == old(self).held_bytes()
                    &&& final(self).held_since() == old(self).held_since()
                    &&& if buffered.len() <= old(self).limit() {
                        &&& final(self).spec_mode() == StreamMode::AwaitingDecision
                        &&& final(self).buffered_protocol() == buffered
                        &&& result matches Ok(events) && events@.len() == 0
                    } else {
                        &&& final(self).spec_mode() == StreamMode::Recovering
                        &&& final(self).buffered_protocol() == Seq::<u8>::empty()
                        &&& result == Err::<Vec<StreamEvent>, StreamError>(
                            StreamError::PendingBufferOverflow { limit: old(self).limit() as usize },
                        )
                    }
                },
                _ => {
                    &&& final(self).spec_mode() == old(self).spec_mode()
                    &&& final(self).same_buffers(old(self))
                    &&& result matches Ok(events) && events_forward(events@, data@)
                },
            },
    {
        match self.mode {
            StreamMode::Normal => {
                let had_pending = self.probe.has_pending();
                let output = self.probe.inspect(data);
                proof {
                    lemma_inspect_conserves_bytes(old(self).held_bytes(), data@);
                }
                let has_pending = self.probe.has_pending();
                if !has_pending {
                    self.probe_pending_since = None;
                } else if !had_pending {
                    self.probe_pending_since = Some(instant_now());
                }
                let mut events: Vec<StreamEvent> = Vec::new();
                let ProbeOutput { terminal_data, protocol_data, detection } = output;
                if terminal_data.len() > 0 {
                    events.push(StreamEvent::TerminalData(terminal_data));
                }
                match detection {
                    Some(detection) => {
                        self.probe_pending_since = None;
                        self.pending_protocol = protocol_data;
                        self.ensure_pending_limit()?;
                        self.mode = StreamMode::AwaitingDecision;
                        events.push(StreamEvent::Detected(detection));
                        Ok(events)
                    },
                    None => Ok(events),
                }
            },
            StreamMode::AwaitingDecision => {
                push_all(&mut self.pending_protocol, data);
                self.ensure_pending_limit()?;
                Ok(Vec::new())
            },
            StreamMode::Transferring | StreamMode::Recovering => {
                let mut events: Vec<StreamEvent> = Vec::new();
                if data.len() > 0 {
                    events.push(StreamEvent::ProtocolData(slice_to_vec(data)));
                }
                Ok(events)
            },
        }
    }

    /// Accepts a detected transfer: hands over the buffered protocol bytes and switches to
    /// transferring. Fails, changing nothing, unless a decision is awaited.
    pub fn accept(&mut self) -> (result: Result<Vec<u8>, StreamError>)
        ensures
            final(self).limit() == old(self).limit(),
            old(self).wf() ==> final(self).wf(),
            final(self).held_bytes() == old(self).held_bytes(),
            final(self).held_since() == old(self).held_since(),
            if old(self).spec_mode() == StreamMode::AwaitingDecision {
                &&& result matches Ok(bytes) && bytes@ == old(self).buffered_protocol()
                &&& final(self).spec_mode() == StreamMode::Transferring
                &&& final(self).buffered_protocol() == Seq::<u8>::empty()
            } else {
                &&& result == Err::<Vec<u8>, StreamError>(StreamError::InvalidTransition)
                &&& final(self).spec_mode() == old(self).spec_mode()
                &&& final(self).buffered_protocol() == old(self).buffered_protocol()
            },
    {
        if self.mode != StreamMode::AwaitingDecision {
            return Err(StreamError::InvalidTransition);
        }
        self.mode = StreamMode::Transferring;
        let mut taken: Vec<u8> = Vec::new();
        taken.append(&mut self.pending_protocol);
        Ok(taken)
    }

    /// Rejects a detected transfer: drops the buffered protocol bytes and switches to
    /// recovery. Fails, changing nothing, unless a decision is awaited.
    pub fn reject(&mut self) -> (result: Result<(), StreamError>)
        ensures
            final(self).limit() == old(self).limit(),
            old(self).wf() ==> final(self).wf(),
            final(self).held_bytes() == old(self).held_bytes(),
            final(self).held_since() == old(self).held_since(),
            if old(self).spec_mode() == StreamMode::AwaitingDecision {
                &&& result is Ok
                &&& final(self).spec_mode() == StreamMode::Recovering
                &&& final(self).buffered_protocol() == Seq::<u8>::empty()
            } else {
                &&& result == Err::<(), StreamError>(StreamError::InvalidTransition)
                &&& final(self).spec_mode() == old(self).spec_mode()
                &&& final(self).buffered_protocol() == old(self).buffered_protocol()
            },
    {
        if self.mode != StreamMode::AwaitingDecision {
            return Err(StreamError::InvalidTransition);
        }
        self.pending_protocol.clear();
        self.mode = StreamMode::Recovering;
        Ok(())
    }

    /// Drops everything buffered or held back and switches to recovery.
    pub fn begin_recovery(&mut self)
        ensures
            final(self).limit() == old(self).limit(),
            old(self).wf() ==> final(self).wf(),
            final(self).spec_mode() == StreamMode::Recovering,
            final(self).buffered_protocol() == Seq::<u8>::empty(),
            final(self).held_bytes() == Seq::<u8>::empty(),
            final(self).held_since() is None,
    {
        self.pending_protocol.clear();
        self.probe.reset();
        self.probe_pending_since = None;
        self.mode = StreamMode::Recovering;
    }

    /// Drops everything buffered or held back and returns to normal terminal mode.
    pub fn restore_terminal(&mut self)
        ensures
            final(self).limit() == old(self).limit(),
            old(self).wf() ==> final(self).wf(),
            final(self).spec_mode() == StreamMode::Normal,
            final(self).buffered_protocol() == Seq::<u8>::empty(),
            final(self).held_bytes() == Seq::<u8>::empty(),
            final(self).held_since() is None,
    {
        self.pending_protocol.clear();
        self.probe.reset();
        self.probe_pending_since = None;
        self.mode = StreamMode::Normal;
    }

    /// In normal mode, releases the bytes held back as a possible header prefix; in any
    /// other mode returns nothing and changes nothing.
    pub fn flush_terminal_data(&mut self) -> (out: Vec<u8>)
        ensures
            final(self).limit() == old(self).limit(),
            old(self).wf() ==> final(self).wf(),
            final(self).spec_mode() == old(self).spec_mode(),
            final(self).buffered_protocol() == old(self).buffered_protocol(),
            if old(self).spec_mode() == StreamMode::Normal {
                &&& out@ == old(self).held_bytes()
                &&& final(self).held_bytes() == Seq::<u8>::empty()
                &&& final(self).held_since() is None
            } else {
                &&& out@ == Seq::<u8>::empty()
                &&& final(self).same_buffers(old(self))
            },
    {
        if self.mode == StreamMode::Normal {
            self.probe_pending_since = None;
            self.probe.flush()
        } else {
            Vec::new()
        }
    }

    /// Releases the held-back bytes when `stale` says they have waited long enough and the
    /// mux is in normal mode with bytes held back; otherwise returns nothing and changes nothing.
    pub fn flush_held_bytes_if(&mut self, stale: bool) -> (out: Vec<u8>)
        ensures
            final(self).limit() == old(self).limit(),
            old(self).wf() ==> final(self).wf(),
            final(self).spec_mode() == old(self).spec_mode(),
            final(self).buffered_protocol() == old(self).buffered_protocol(),
            if stale && old(self).spec_mode() == StreamMode::Normal && old(self).held_since() is Some {
                &&& out@ == old(self).held_bytes()
                &&& final(self).held_bytes() == Seq::<u8>::empty()
                &&& final(self).held_since() is None
            } else {
                &&& out@ == Seq::<u8>::empty()
                &&& final(self).same_buffers(old(self))
            },
    {
        if self.mode != StreamMode::Normal || self.probe_pending_since.is_none() || !stale {
            return Vec::new();
        }
        self.flush_terminal_data()
    }

    /// Releases the held-back bytes once they have been held for at least `max_age`.
    /// The age is read from the clock, so either nothing happens, or the held-back bytes
    /// are released exactly as `flush_terminal_data` would release them; with a zero
    /// `max_age` any held-back bytes in normal mode are released whatever the clock says.
    pub fn flush_stale_terminal_data(&mut self, max_age: std::time::Duration) -> (out: Vec<u8>)
        ensures
            final(self).limit() == old(self).limit(),
            old(self).wf() ==> final(self).wf(),
            final(self).spec_mode() == old(self).spec_mode(),
            final(self).buffered_protocol() == old(self).buffered_protocol(),
            ({
                ||| out@ == Seq::<u8>::empty() && final(self).same_buffers(old(self))
                ||| {
                    &&& old(self).spec_mode() == StreamMode::Normal
                    &&& old(self).held_since() is Some
                    &&& out@ == old(self).held_bytes()
                    &&& final(self).held_bytes() == Seq::<u8>::empty()
                    &&& final(self).held_since() is None
                }
            }),
            duration_as_nanos(max_age) == 0 && old(self).spec_mode() == StreamMode::Normal && old(self).held_since() is Some
                ==> {
                &&& out@ == old(self).held_bytes()
                &&& final(self).held_bytes() == Seq::<u8>::empty()
                &&& final(self).held_since() is None
            },
    {
        let stale = match &self.probe_pending_since {
            Some(since) => is_stale(nanos_since(since), duration_nanos(&max_age)),
            None => false,
        };
        self.flush_held_bytes_if(stale)
    }

    fn ensure_pending_limit(&mut self) -> (result: Result<(), StreamError>)
        ensures
            final(self).limit() == old(self).limit(),
            final(self).held_bytes() == old(self).held_bytes(),
            final(self).held_since() == old(self).held_since(),
            if old(self).buffered_protocol().len() <= old(self).limit() {
                &&& result is Ok
                &&& final(self).spec_mode() == old(self).spec_mode()
                &&& final(self).buffered_protocol() == old(self).buffered_protocol()
            } else {
                &&& result == Err::<(), StreamError>(
                    StreamError::PendingBufferOverflow { limit: old(self).limit() as usize },
                )
                &&& final(self).spec_mode() == StreamMode::Recovering
                &&& final(self).buffered_protocol() == Seq::<u8>::empty()
            },
    {
        if self.pending_protocol.len() <= self.pending_limit {
            return Ok(());
        }
        self.pending_protocol.clear();
        self.mode = StreamMode::Recovering;
        Err(StreamError::PendingBufferOverflow { limit: self.pending_limit })
    }
}

impl Default for TerminalStreamMux {
    fn default() -> (mux: Self)
        ensures
            mux.spec_mode() == StreamMode::Normal,
            mux.limit() == DEFAULT_PENDING_LIMIT as nat,
            mux.wf(),
    {
        TerminalStreamMux::new(DEFAULT_PENDING_LIMIT)
    }
}


/// The decision buffer never grows beyond its limit. A mux made by `new(n)` has the
/// invariant `wf` with limit `max(n, 1)`, and every method keeps `wf` and the limit (see
/// their contracts); under `wf` the buffer, which is what `accept` hands over, is at most
/// the limit, and a call that would buffer more fails with the overflow error instead.
pub proof fn lemma_decision_buffer_bounded(m: TerminalStreamMux)
    requires
        m.wf(),
    ensures
        m.limit() >= 1,
        m.buffered_protocol().len() <= m.limit(),
        m.spec_mode() == StreamMode::AwaitingDecision || m.buffered_protocol().len() == 0,
{
}

/// The pieces joined in order.
pub open spec fn joined(pieces: Seq<Seq<u8>>) -> Seq<u8>
    decreases pieces.len(),
{
    if pieces.len() == 0 {
        Seq::empty()
    } else {
        joined(pieces.drop_last()) + pieces.last()
    }
}

/// What `push_remote` in normal mode does when it succeeds, as its contract states: the
/// terminal bytes it reports, the bytes it holds back, and, on a detection, the decision
/// it awaits with the protocol bytes buffered.
pub open spec fn normal_push(before: TerminalStreamMux, input: Seq<u8>, after: TerminalStreamMux, terminal: Seq<u8>) -> bool {
    let r = spec_inspect(before.held_bytes() + input);
    &&& terminal == r.0
    &&& after.held_bytes() == r.3
    &&& r.2 is None ==> after.spec_mode() == StreamMode::Normal
    &&& r.2 is Some ==> after.spec_mode() == StreamMode::AwaitingDecision && after.buffered_protocol() == r.1
}

/// Over a run of successful `push_remote` calls in normal mode, starting with nothing held
/// back, no byte is lost, duplicated or reordered: the terminal bytes reported, followed by
/// the buffered protocol bytes (once a transfer was detected, which `accept` hands over)
/// or else by the bytes still held back (which `flush_terminal_data` releases), are the
/// input in order.
pub proof fn lemma_push_run_conserves(muxes: Seq<TerminalStreamMux>, inputs: Seq<Seq<u8>>, terminal: Seq<Seq<u8>>)
    requires
        muxes.len() == inputs.len() + 1,
        terminal.len() == inputs.len(),
        muxes[0].held_bytes() == Seq::<u8>::empty(),
        muxes[0].spec_mode() == StreamMode::Normal,
        forall|i: int| 0 <= i < inputs.len() ==> (#[trigger] muxes[i]).spec_mode() == StreamMode::Normal,
        forall|i: int|
            0 <= i < inputs.len() ==> normal_push(muxes[i], inputs[i], #[trigger] muxes[i + 1], terminal[i]),
    ensures
        joined(terminal) + (if muxes.last().spec_mode() == StreamMode::AwaitingDecision {
            muxes.last().buffered_protocol()
        } else {
            muxes.last().held_bytes()
        }) == joined(inputs),
    decreases inputs.len(),
{
    let n = inputs.len();
    if n == 0 {
        assert(Seq::<u8>::empty() + Seq::<u8>::empty() =~= Seq::<u8>::empty());
    } else {
        let m = (n - 1) as int;
        lemma_push_run_conserves(muxes.drop_last(), inputs.drop_last(), terminal.drop_last());
        assert(muxes.drop_last().last() == muxes[m]);
        assert(muxes[m].spec_mode() == StreamMode::Normal);
        assert(normal_push(muxes[m], inputs[m], muxes[m + 1], terminal[m]));
        let held = muxes[m].held_bytes();
        lemma_inspect_conserves_bytes(held, inputs[m]);
        let r = spec_inspect(held + inputs[m]);
        assert(joined(terminal) == joined(terminal.drop_last()) + r.0);
        assert(joined(inputs) == joined(inputs.drop_last()) + inputs[m]);
        assert(muxes.last() == muxes[m + 1]);
        assert(joined(terminal.drop_last()) + held == joined(inputs.drop_last()));
        if r.2 is Some {
            assert(muxes.last().spec_mode() == StreamMode::AwaitingDecision);
            assert(muxes.last().buffered_protocol() == r.1);
            assert(r.3 =~= Seq::<u8>::empty());
            assert(joined(terminal.drop_last()) + r.0 + r.1 =~= joined(terminal.drop_last()) + (r.0 + r.1 + r.3));
        } else {
            assert(muxes.last().spec_mode() == StreamMode::Normal);
            assert(muxes.last().held_bytes() == r.3);
            assert(r.1 =~= Seq::<u8>::empty());
            assert(joined(terminal.drop_last()) + r.0 + r.3 =~= joined(terminal.drop_last()) + (r.0 + r.1 + r.3));
        }
        assert(joined(terminal.drop_last()) + (held + inputs[m]) =~= joined(inputs.drop_last()) + inputs[m]);
    }
}
} // verus!
