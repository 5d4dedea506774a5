//! Wire codec of the printer: outgoing frames and incoming notifications.
use vstd::prelude::*;

verus! {

pub const WRITE_UUID_STR: &'static str = "0000ffe1-0000-1000-8000-00805f9b34fb";

pub const READ_UUID_STR: &'static str = "0000ffe2-0000-1000-8000-00805f9b34fb";

/// The write characteristic, as a 128-bit value.
pub const WRITE_UUID: u128 = 0x0000ffe1_0000_1000_8000_00805f9b34fb;

/// The notify characteristic, as a 128-bit value.
pub const READ_UUID: u128 = 0x0000ffe2_0000_1000_8000_00805f9b34fb;

/// The service that printers of this family advertise.
pub const PRINTER_SERVICE_UUID: u128 = 0x0000ffe6_0000_1000_8000_00805f9b34fb;

pub const MAX_DOTS_PER_LINE: usize = 384;

pub const BYTES_PER_LINE: usize = 48;

pub const PACKED_LINE_BYTES: usize = 96;

/// Two scan rows of 384 dots, 48 bytes each, most significant bit first.
pub type PackedLine = [u8; PACKED_LINE_BYTES];

/// A device seen during a scan.
#[derive(Debug, Clone)]
pub struct PrinterInfo {
    pub address: String,
    pub local_name: Option<String>,
}

/// What a status notification reports.
#[derive(Debug, Clone, Copy, PartialEq, Eq, Structural)]
pub struct StatusEvent {
    pub battery: u8,
    pub no_paper: bool,
    pub overheat: bool,
}

/// A notification of the printer, decoded from its bytes.
#[derive(Debug, Clone, Copy, PartialEq, Eq, Structural)]
pub enum NotifyEvent {
    Handshake0a,
    Handshake0b { ok: bool },
    Lost { line_no: u16 },
    Finished,
    Paused,
    Status(StatusEvent),
    Other,
}

/// Dots per inch of the print head.
pub fn dpi() -> (r: u16)
    ensures
        r == 203,
{
    203
}

// ---------------------------------------------------------------------------
// CRC-16/XMODEM
// ---------------------------------------------------------------------------

/// One step of the shift register: shift left, feed `bit` against bit 15.
pub open spec fn crc_bit(crc: u16, bit: u16) -> u16 {
    let c15 = (crc >> 15u16) & 1u16;
    let shifted = (crc << 1u16) as u16;
    if (c15 ^ bit) != 0 {
        shifted ^ 0x1021u16
    } else {
        shifted
    }
}

/// The register after the first `k` bits of `b`, most significant first.
pub open spec fn crc_bits(crc: u16, b: u8, k: nat) -> u16
    decreases k,
{
    if k == 0 {
        crc
    } else {
        let prev = crc_bits(crc, b, (k - 1) as nat);
        crc_bit(prev, ((b >> (8 - k) as u8) & 1u8) as u16)
    }
}

/// CRC-16/XMODEM (polynomial 0x1021, initial value 0, no reflection, no final xor).
pub open spec fn crc16(data: Seq<u8>) -> u16
    decreases data.len(),
{
    if data.len() == 0 {
        0
    } else {
        crc_bits(crc16(data.drop_last()), data.last(), 8)
    }
}

pub fn crc16_xmodem(data: &[u8]) -> (r: u16)
    ensures
        r == crc16(data@),
{
    let mut crc: u16 = 0;
    let mut i: usize = 0;
    while i < data.len()
        invariant
            i <= data@.len(),
            crc == crc16(data@.subrange(0, i as int)),
        decreases data.len() - i,
    {
        let byte = data[i];
        let ghost start = crc;
        let mut bit_idx: u8 = 0;
        while bit_idx < 8
            invariant
                bit_idx <= 8,
                crc == crc_bits(start, byte, bit_idx as nat),
            decreases 8 - bit_idx,
        {
            let bit = (byte >> (7 - bit_idx)) & 1;
            let c15 = (crc >> 15u16) & 1u16;
            let shifted: u16 = crc << 1u16;
            let next = if (c15 ^ bit as u16) != 0 {
                shifted ^ 0x1021u16
            } else {
                shifted
            };
            proof {
                assert((8 - (bit_idx + 1) as nat) as u8 == 7 - bit_idx);
            }
            crc = next;
            bit_idx = bit_idx + 1;
        }
        proof {
            let s = data@.subrange(0, i as int + 1);
            assert(s.drop_last() =~= data@.subrange(0, i as int));
            assert(s.last() == byte);
        }
        i = i + 1;
    }
    proof {
        assert(data@.subrange(0, data@.len() as int) =~= data@);
    }
    crc
}

// ---------------------------------------------------------------------------
// Outgoing frames
// ---------------------------------------------------------------------------

/// A frame `5A <kind>` followed by ten copies of `fill`.
pub open spec fn padded_frame(kind: u8, fill: u8) -> Seq<u8> {
    seq![0x5au8, kind] + Seq::new(10, |_i: int| fill)
}

/// High byte of a 16-bit value.
pub open spec fn hi_byte(n: u16) -> u8 {
    (n / 256) as u8
}

/// Low byte of a 16-bit value.
pub open spec fn lo_byte(n: u16) -> u8 {
    (n % 256) as u8
}

fn padded(kind: u8, fill: u8) -> (r: Vec<u8>)
    ensures
        r@ == padded_frame(kind, fill),
{
    let mut out: Vec<u8> = Vec::new();
    out.push(0x5a);
    out.push(kind);
    let mut i: usize = 0;
    while i < 10
        invariant
            i <= 10,
            out@ == seq![0x5au8, kind] + Seq::new(i as nat, |_j: int| fill),
        decreases 10 - i,
    {
        out.push(fill);
        i = i + 1;
        proof {
            assert(out@ =~= seq![0x5au8, kind] + Seq::new(i as nat, |_j: int| fill));
        }
    }
    out
}

/// `5A 01` and ten zero bytes: asks for the hardware information.
pub fn hardware_info_packet() -> (r: Vec<u8>)
    ensures
        r@ == padded_frame(0x01, 0),
{
    padded(0x01, 0)
}

/// `5A 0C <density>`.
pub fn density_packet(density: u8) -> (r: Vec<u8>)
    ensures
        r@ == seq![0x5au8, 0x0cu8, density],
{
    let mut out: Vec<u8> = Vec::new();
    out.push(0x5a);
    out.push(0x0c);
    out.push(density);
    proof {
        assert(out@ =~= seq![0x5au8, 0x0cu8, density]);
    }
    out
}

/// `5A 0A` and ten zero bytes: the first stage of the handshake.
pub fn handshake_0a_packet() -> (r: Vec<u8>)
    ensures
        r@ == padded_frame(0x0a, 0),
{
    padded(0x0a, 0)
}

/// `5A 04 <lines, big-endian> <end flag, little-endian>`.
pub open spec fn event_frame(num_lines: u16, end: bool) -> Seq<u8> {
    seq![0x5au8, 0x04u8, hi_byte(num_lines), lo_byte(num_lines), if end { 1u8 } else { 0u8 }, 0u8]
}

pub fn print_event_packet(num_lines: u16, end: bool) -> (r: Vec<u8>)
    ensures
        r@ == event_frame(num_lines, end),
{
    let mut out: Vec<u8> = Vec::new();
    out.push(0x5a);
    out.push(0x04);
    out.push((num_lines / 256) as u8);
    out.push((num_lines % 256) as u8);
    let end_u16: u16 = if end { 1 } else { 0 };
    out.push((end_u16 % 256) as u8);
    out.push((end_u16 / 256) as u8);
    proof {
        assert(out@ =~= event_frame(num_lines, end));
    }
    out
}

/// `55 <line number, big-endian> <96 payload bytes> 00`.
pub open spec fn line_frame(line_no: u16, line: Seq<u8>) -> Seq<u8> {
    seq![0x55u8, hi_byte(line_no), lo_byte(line_no)] + line + seq![0u8]
}

pub fn print_line_packet(line_no: u16, line_data: &PackedLine) -> (r: Vec<u8>)
    ensures
        r@ == line_frame(line_no, line_data@),
        r@.len() == 1 + 2 + PACKED_LINE_BYTES + 1,
{
    let mut out: Vec<u8> = Vec::new();
    out.push(0x55);
    out.push((line_no / 256) as u8);
    out.push((line_no % 256) as u8);
    let mut i: usize = 0;
    while i < PACKED_LINE_BYTES
        invariant
            i <= PACKED_LINE_BYTES,
            line_data@.len() == PACKED_LINE_BYTES,
            out@ == seq![0x55u8, hi_byte(line_no), lo_byte(line_no)] + line_data@.subrange(0, i as int),
        decreases PACKED_LINE_BYTES - i,
    {
        out.push(line_data[i]);
        i = i + 1;
        proof {
            assert(out@ =~= seq![0x55u8, hi_byte(line_no), lo_byte(line_no)] + line_data@.subrange(0, i as int));
        }
    }
    out.push(0);
    proof {
        assert(line_data@.subrange(0, PACKED_LINE_BYTES as int) =~= line_data@);
        assert(out@ =~= line_frame(line_no, line_data@));
    }
    out
}

// ---------------------------------------------------------------------------
// Handshake B
// ---------------------------------------------------------------------------

pub open spec fn is_separator(c: char) -> bool {
    c == ':' || c == '-'
}

/// The address with every `:` and `-` taken out.
pub open spec fn strip_separators(s: Seq<char>) -> Seq<char>
    decreases s.len(),
{
    if s.len() == 0 {
        seq![]
    } else {
        let rest = strip_separators(s.drop_last());
        if is_separator(s.last()) {
            rest
        } else {
            rest.push(s.last())
        }
    }
}

pub open spec fn is_hex_digit(c: char) -> bool {
    ('0' <= c && c <= '9') || ('a' <= c && c <= 'f') || ('A' <= c && c <= 'F')
}

pub open spec fn hex_value(c: char) -> int {
    if '0' <= c && c <= '9' {
        c as int - '0' as int
    } else if 'a' <= c && c <= 'f' {
        c as int - 'a' as int + 10
    } else {
        c as int - 'A' as int + 10
    }
}

/// An address is well formed when, its separators taken out, twelve hex digits remain.
pub open spec fn is_mac_text(s: Seq<char>) -> bool {
    let h = strip_separators(s);
    h.len() == 12 && forall|i: int| 0 <= i < 12 ==> is_hex_digit(#[trigger] h[i])
}

/// The six bytes that a well-formed address spells.
pub open spec fn mac_bytes(s: Seq<char>) -> Seq<u8> {
    let h = strip_separators(s);
    Seq::new(6, |i: int| (hex_value(h[2 * i]) * 16 + hex_value(h[2 * i + 1])) as u8)
}

/// The byte that fills handshake B: the high byte of the CRC over `00 || mac`.
pub open spec fn handshake_response(mac: Seq<u8>) -> u8 {
    ((crc16(seq![0u8] + mac) >> 8u16) & 0xffu16) as u8
}

/// What can be wrong with a printer address.
#[derive(Debug, Clone, Copy, PartialEq, Eq, Structural)]
pub enum AddressError {
    /// The address does not spell six bytes in hex.
    InvalidMac,
}

fn hex_digit(c: char) -> (r: Option<u8>)
    ensures
        is_hex_digit(c) <==> r is Some,
        r matches Some(v) ==> v as int == hex_value(c),
{
    if '0' <= c && c <= '9' {
        Some((c as u32 - '0' as u32) as u8)
    } else if 'a' <= c && c <= 'f' {
        Some((c as u32 - 'a' as u32 + 10) as u8)
    } else if 'A' <= c && c <= 'F' {
        Some((c as u32 - 'A' as u32 + 10) as u8)
    } else {
        None
    }
}

/// Parses an address such as `AA:BB:CC:DD:EE:FF` (`:` and `-` are ignored).
pub fn parse_mac(address: &str) -> (r: Result<Vec<u8>, AddressError>)
    ensures
        is_mac_text(address@) <==> r is Ok,
        r matches Ok(m) ==> m@ == mac_bytes(address@),
{
    let n = address.unicode_len();
    let mut digits: Vec<char> = Vec::new();
    let mut i: usize = 0;
    while i < n
        invariant
            i <= n,
            n == address@.len(),
            digits@ == strip_separators(address@.subrange(0, i as int)),
        decreases n - i,
    {
        let c = address.get_char(i);
        proof {
            let s = address@.subrange(0, i as int + 1);
            assert(s.drop_last() =~= address@.subrange(0, i as int));
            assert(s.last() == c);
        }
        if c != ':' && c != '-' {
            digits.push(c);
        }
        i = i + 1;
    }
    proof {
        assert(address@.subrange(0, n as int) =~= address@);
    }
    if digits.len() != 12 {
        return Err(AddressError::InvalidMac);
    }
    let mut mac: Vec<u8> = Vec::new();
    let mut k: usize = 0;
    while k < 6
        invariant
            k <= 6,
            digits@ == strip_separators(address@),
            digits@.len() == 12,
            forall|j: int| 0 <= j < 2 * k ==> is_hex_digit(#[trigger] digits@[j]),
            mac@ == mac_bytes(address@).subrange(0, k as int),
        decreases 6 - k,
    {
        let hi = hex_digit(digits[2 * k]);
        let lo = hex_digit(digits[2 * k + 1]);
        match (hi, lo) {
            (Some(h), Some(l)) => {
                mac.push(h * 16 + l);
                proof {
                    assert(mac@ =~= mac_bytes(address@).subrange(0, k as int + 1));
                }
            },
            _ => {
                return Err(AddressError::InvalidMac);
            },
        }
        k = k + 1;
    }
    proof {
        assert(mac@ =~= mac_bytes(address@));
    }
    Ok(mac)
}

/// `5A 0B` and ten copies of the response byte computed from the peer's address.
pub fn handshake_0b_packet(bdaddr: &str) -> (r: Result<Vec<u8>, AddressError>)
    ensures
        is_mac_text(bdaddr@) <==> r is Ok,
        r matches Ok(p) ==> p@ == padded_frame(0x0b, handshake_response(mac_bytes(bdaddr@))),
{
    let mac = parse_mac(bdaddr)?;
    let mut payload: Vec<u8> = Vec::new();
    payload.push(0);
    let mut i: usize = 0;
    while i < mac.len()
        invariant
            i <= mac@.len(),
            payload@ == seq![0u8] + mac@.subrange(0, i as int),
        decreases mac.len() - i,
    {
        payload.push(mac[i]);
        i = i + 1;
        proof {
            assert(payload@ =~= seq![0u8] + mac@.subrange(0, i as int));
        }
    }
    proof {
        assert(mac@.subrange(0, mac@.len() as int) =~= mac@);
    }
    let crc = crc16_xmodem(payload.as_slice());
    let response = ((crc >> 8u16) & 0xffu16) as u8;
    Ok(padded(0x0b, response))
}

// ---------------------------------------------------------------------------
// Incoming notifications
// ---------------------------------------------------------------------------

/// The byte at `i`, or 0 past the end.
pub open spec fn byte_or_zero(v: Seq<u8>, i: int) -> u8 {
    if i < v.len() {
        v[i]
    } else {
        0
    }
}

/// The event that a notification's bytes stand for.
pub open spec fn notify_event(v: Seq<u8>) -> NotifyEvent {
    if v.len() < 2 || v[0] != 0x5a {
        NotifyEvent::Other
    } else if v[1] == 0x0a {
        NotifyEvent::Handshake0a
    } else if v[1] == 0x0b {
        NotifyEvent::Handshake0b { ok: v.len() > 2 && v[2] == 0x01 }
    } else if v[1] == 0x05 {
        NotifyEvent::Lost {
            line_no: if v.len() >= 4 { (v[2] as int * 256 + v[3] as int) as u16 } else { 0 },
        }
    } else if v[1] == 0x06 {
        NotifyEvent::Finished
    } else if v[1] == 0x08 {
        NotifyEvent::Paused
    } else if v[1] == 0x02 {
        NotifyEvent::Status(
            StatusEvent {
                battery: byte_or_zero(v, 2),
                no_paper: byte_or_zero(v, 3) != 0,
                overheat: byte_or_zero(v, 5) != 0,
            },
        )
    } else {
        NotifyEvent::Other
    }
}

fn get_or_zero(v: &[u8], i: usize) -> (r: u8)
    ensures
        r == byte_or_zero(v@, i as int),
{
    if i < v.len() {
        v[i]
    } else {
        0
    }
}

/// Decodes the bytes of a notification.
pub fn parse_notify(value: &[u8]) -> (r: NotifyEvent)
    ensures
        r == notify_event(value@),
{
    if value.len() < 2 || value[0] != 0x5a {
        return NotifyEvent::Other;
    }
    let tag = value[1];
    if tag == 0x0a {
        NotifyEvent::Handshake0a
    } else if tag == 0x0b {
        NotifyEvent::Handshake0b { ok: value.len() > 2 && value[2] == 0x01 }
    } else if tag == 0x05 {
        let line_no: u16 = if value.len() >= 4 {
            value[2] as u16 * 256 + value[3] as u16
        } else {
            0
        };
        NotifyEvent::Lost { line_no }
    } else if tag == 0x06 {
        NotifyEvent::Finished
    } else if tag == 0x08 {
        NotifyEvent::Paused
    } else if tag == 0x02 {
        NotifyEvent::Status(
            StatusEvent {
                battery: get_or_zero(value, 2),
                no_paper: get_or_zero(value, 3) != 0,
                overheat: get_or_zero(value, 5) != 0,
            },
        )
    } else {
        NotifyEvent::Other
    }
}

} // verus!
