//! AX.25 packets as the tooling sends them: two shifted callsigns with
//! their SSID bytes, a control and a protocol byte, and the data.

use vstd::prelude::*;
use vstd::string::*;
use crate::chars::{
    chars_of, is_alpha, is_alpha_char, is_digit, is_digit_char, is_space, is_space_char,
};
use crate::text::string_from_chars;

verus! {

/// A decoded packet.
#[derive(Debug, Clone, PartialEq, Eq)]
pub struct Ax25Packet {
    pub dest_callsign: String,
    pub dest_ssid: u8,
    pub src_callsign: String,
    pub src_ssid: u8,
    pub data: Vec<u8>,
}

/// Why a packet cannot be encoded or decoded.
#[derive(Clone, Copy, Debug, PartialEq, Eq, Structural)]
pub enum Ax25Error {
    BadCallsign,
    BadSsid,
    PacketTooShortOrLong,
    InvalidUtf8,
}

/// The message of an error.
pub open spec fn error_text(e: Ax25Error) -> Seq<char> {
    match e {
        Ax25Error::BadCallsign => "Callsign must be exactly 6 A-Z0-9"@,
        Ax25Error::BadSsid => "SSID must be 0..9"@,
        Ax25Error::PacketTooShortOrLong => "Packet too short or too long"@,
        Ax25Error::InvalidUtf8 => "Invalid UTF-8 in callsign"@,
    }
}

impl Ax25Error {
    /// The message of the error.
    pub fn to_string(&self) -> (s: String)
        ensures
            s@ == error_text(*self),
    {
        match self {
            Ax25Error::BadCallsign => String::from_str("Callsign must be exactly 6 A-Z0-9"),
            Ax25Error::BadSsid => String::from_str("SSID must be 0..9"),
            Ax25Error::PacketTooShortOrLong => String::from_str("Packet too short or too long"),
            Ax25Error::InvalidUtf8 => String::from_str("Invalid UTF-8 in callsign"),
        }
    }
}

/// The shortest packet: two callsigns with SSID, control and protocol.
pub const MIN_PACKET: usize = 16;

/// The longest packet.
pub const MAX_PACKET: usize = 272;

/// A callsign is six ASCII letters or digits.
pub open spec fn valid_callsign(s: Seq<char>) -> bool {
    s.len() == 6 && forall|i: int| 0 <= i < 6 ==> is_alpha(#[trigger] s[i]) || is_digit(s[i])
}

/// The SSID byte: the SSID in bits 1 to 4, bits 5 and 6 set, and the low
/// bit of `type_bit` in bit 0.
pub open spec fn ssid_byte(ssid: u8, type_bit: u8) -> u8 {
    ((ssid & 0x0F) << 1) | 0x60 | (type_bit & 0x01)
}

/// The SSID that an SSID byte holds.
pub open spec fn ssid_of(byte: u8) -> u8 {
    (byte >> 1) & 0x0F
}

/// The six bytes of a callsign: each character shifted left by one bit,
/// zeros where the callsign is shorter.
pub open spec fn shifted(cs: Seq<char>) -> Seq<u8> {
    Seq::new(
        6,
        |i: int|
            if i < cs.len() {
                ((cs[i] as u8) << 1) as u8
            } else {
                0u8
            },
    )
}

/// The characters that shifted bytes hold: each byte shifted right by one
/// bit.
pub open spec fn unshifted(raw: Seq<u8>) -> Seq<char> {
    Seq::new(raw.len(), |i: int| (raw[i] >> 1) as char)
}

/// The end of `s[..end]` without the NUL characters at its end.
pub open spec fn without_nul_end(s: Seq<char>, end: int) -> int
    decreases end,
{
    if 0 < end <= s.len() && s[end - 1] == '\0' {
        without_nul_end(s, end - 1)
    } else {
        end
    }
}

/// The end of `s[..end]` without the white space at its end.
pub open spec fn without_space_end(s: Seq<char>, end: int) -> int
    decreases end,
{
    if 0 < end <= s.len() && is_space(s[end - 1]) {
        without_space_end(s, end - 1)
    } else {
        end
    }
}

/// The start of `s[start..end]` without the white space at its start.
pub open spec fn without_space_start(s: Seq<char>, start: int, end: int) -> int
    decreases end - start,
{
    if 0 <= start < end <= s.len() && is_space(s[start]) {
        without_space_start(s, start + 1, end)
    } else {
        start
    }
}

/// The callsign that six shifted bytes hold: the characters without the
/// NULs at the end and then without white space at either end.
pub open spec fn callsign_text(raw: Seq<u8>) -> Seq<char> {
    let s = unshifted(raw);
    let end = without_space_end(s, without_nul_end(s, s.len() as int));
    s.subrange(without_space_start(s, 0, end), end)
}

/// The bytes of a packet.
pub open spec fn packet_bytes(
    dest: Seq<char>,
    dest_ssid: u8,
    src: Seq<char>,
    src_ssid: u8,
    data: Seq<u8>,
) -> Seq<u8> {
    shifted(dest) + seq![ssid_byte(dest_ssid, 0)] + shifted(src) + seq![ssid_byte(src_ssid, 1)]
        + seq![0x03u8, 0xF0u8] + data
}

/// What encoding a packet from the station `src` gives.
pub open spec fn encoding(
    src: Seq<char>,
    src_ssid: u8,
    dest: Seq<char>,
    dest_ssid: u8,
    data: Seq<u8>,
) -> Result<Seq<u8>, Ax25Error> {
    if !valid_callsign(dest) {
        Err(Ax25Error::BadCallsign)
    } else if dest_ssid > 9 {
        Err(Ax25Error::BadSsid)
    } else if MIN_PACKET + data.len() > MAX_PACKET {
        Err(Ax25Error::PacketTooShortOrLong)
    } else {
        Ok(packet_bytes(dest, dest_ssid, src, src_ssid, data))
    }
}

/// The view of a packet.
pub struct PacketView {
    pub dest_callsign: Seq<char>,
    pub dest_ssid: u8,
    pub src_callsign: Seq<char>,
    pub src_ssid: u8,
    pub data: Seq<u8>,
}

impl View for Ax25Packet {
    type V = PacketView;

    open spec fn view(&self) -> PacketView {
        PacketView {
            dest_callsign: self.dest_callsign@,
            dest_ssid: self.dest_ssid,
            src_callsign: self.src_callsign@,
            src_ssid: self.src_ssid,
            data: self.data@,
        }
    }
}

/// What `buf` holds: a packet if its length is in range. The control and
/// the protocol byte are not looked at.
pub open spec fn decoding(buf: Seq<u8>) -> Result<PacketView, Ax25Error> {
    if buf.len() < MIN_PACKET || buf.len() > MAX_PACKET {
        Err(Ax25Error::PacketTooShortOrLong)
    } else {
        Ok(
            PacketView {
                dest_callsign: callsign_text(buf.subrange(0, 6)),
                dest_ssid: ssid_of(buf[6]),
                src_callsign: callsign_text(buf.subrange(7, 13)),
                src_ssid: ssid_of(buf[13]),
                data: buf.subrange(16, buf.len() as int),
            },
        )
    }
}

/// The six bytes of a callsign hold the callsign.
pub proof fn lemma_callsign_round_trip(cs: Seq<char>)
    requires
        valid_callsign(cs),
    ensures
        callsign_text(shifted(cs)) == cs,
{
    let raw = shifted(cs);
    let s = unshifted(raw);
    assert forall|i: int| 0 <= i < 6 implies s[i] == cs[i] by {
        assert(is_alpha(cs[i]) || is_digit(cs[i]));
        let c = cs[i] as u8;
        let b = raw[i];
        assert(b == (c << 1) as u8);
        assert(b >> 1 == c) by (bit_vector)
            requires
                b == (c << 1) as u8,
                c < 128,
        ;
    }
    assert(s =~= cs);
    assert(is_alpha(cs[5]) || is_digit(cs[5]));
    assert(is_alpha(cs[0]) || is_digit(cs[0]));
    assert(s.subrange(0, 6) =~= s);
}

/// What is read back from the bytes of a packet is the packet, where both
/// callsigns are valid, both SSIDs at most 15 and the data at most 256
/// bytes.
pub proof fn lemma_round_trip(
    dest: Seq<char>,
    dest_ssid: u8,
    src: Seq<char>,
    src_ssid: u8,
    data: Seq<u8>,
)
    requires
        valid_callsign(dest),
        valid_callsign(src),
        dest_ssid <= 15,
        src_ssid <= 15,
        data.len() <= 256,
    ensures
        decoding(packet_bytes(dest, dest_ssid, src, src_ssid, data)) == Ok::<
            PacketView,
            Ax25Error,
        >(
            PacketView {
                dest_callsign: dest,
                dest_ssid,
                src_callsign: src,
                src_ssid,
                data,
            },
        ),
{
    let buf = packet_bytes(dest, dest_ssid, src, src_ssid, data);
    assert(buf.len() == 16 + data.len());
    assert(buf.subrange(0, 6) =~= shifted(dest));
    assert(buf.subrange(7, 13) =~= shifted(src));
    assert(buf.subrange(16, buf.len() as int) =~= data);
    assert(buf[6] == ssid_byte(dest_ssid, 0));
    assert(buf[13] == ssid_byte(src_ssid, 1));
    lemma_callsign_round_trip(dest);
    lemma_callsign_round_trip(src);
    assert(ssid_of(ssid_byte(dest_ssid, 0)) == dest_ssid) by (bit_vector)
        requires
            dest_ssid <= 15,
    ;
    assert(ssid_of(ssid_byte(src_ssid, 1)) == src_ssid) by (bit_vector)
        requires
            src_ssid <= 15,
    ;
}

/// Whether the characters are a callsign.
fn check_callsign(chars: &Vec<char>) -> (ok: bool)
    ensures
        ok == valid_callsign(chars@),
{
    if chars.len() != 6 {
        return false;
    }
    let mut i: usize = 0;
    while i < 6
        invariant
            i <= 6,
            chars.len() == 6,
            forall|k: int| 0 <= k < i ==> is_alpha(#[trigger] chars@[k]) || is_digit(chars@[k]),
        decreases 6 - i,
    {
        let c = chars[i];
        if !(is_alpha_char(c) || is_digit_char(c)) {
            return false;
        }
        i += 1;
    }
    true
}

/// The six bytes of a callsign.
fn shift_callsign(chars: &Vec<char>) -> (buf: Vec<u8>)
    requires
        valid_callsign(chars@),
    ensures
        buf@ == shifted(chars@),
{
    let mut buf: Vec<u8> = Vec::new();
    let mut i: usize = 0;
    while i < 6
        invariant
            i <= 6,
            valid_callsign(chars@),
            buf@.len() == i,
            forall|k: int| 0 <= k < i ==> buf@[k] == shifted(chars@)[k],
        decreases 6 - i,
    {
        let c = chars[i];
        assert(is_alpha(chars@[i as int]) || is_digit(chars@[i as int]));
        let b: u8 = c as u8;
        buf.push(b << 1);
        i += 1;
    }
    assert(buf@ =~= shifted(chars@));
    buf
}

/// The callsign that the six bytes `buf[from..from + 6]` hold.
fn unshift_callsign(buf: &[u8], from: usize) -> (s: String)
    requires
        from + 6 <= buf.len(),
    ensures
        s@ == callsign_text(buf@.subrange(from as int, from + 6)),
{
    let ghost raw = buf@.subrange(from as int, from + 6);
    let mut chars: Vec<char> = Vec::new();
    let mut i: usize = 0;
    while i < 6
        invariant
            i <= 6,
            from + 6 <= buf.len(),
            raw == buf@.subrange(from as int, from + 6),
            chars@.len() == i,
            forall|k: int| 0 <= k < i ==> chars@[k] == unshifted(raw)[k],
        decreases 6 - i,
    {
        let b = buf[from + i];
        assert(raw[i as int] == b);
        let half: u8 = b >> 1;
        assert(half < 128) by (bit_vector)
            requires
                half == b >> 1,
        ;
        chars.push(half as char);
        i += 1;
    }
    assert(chars@ =~= unshifted(raw));
    let mut end: usize = 6;
    while end > 0 && chars[end - 1] == '\0'
        invariant
            end <= 6,
            chars@.len() == 6,
            without_nul_end(chars@, end as int) == without_nul_end(chars@, 6),
        decreases end,
    {
        end -= 1;
    }
    let ghost mid = end;
    while end > 0 && is_space_char(chars[end - 1])
        invariant
            end <= mid <= 6,
            chars@.len() == 6,
            without_space_end(chars@, end as int) == without_space_end(chars@, mid as int),
        decreases end,
    {
        end -= 1;
    }
    let mut start: usize = 0;
    while start < end && is_space_char(chars[start])
        invariant
            start <= end <= 6,
            chars@.len() == 6,
            without_space_start(chars@, start as int, end as int) == without_space_start(
                chars@,
                0,
                end as int,
            ),
        decreases end - start,
    {
        start += 1;
    }
    string_from_chars(&chars, start, end)
}

/// The SSID byte for `ssid` and the low bit of `type_bit`.
fn encode_ssid(ssid: u8, type_bit: u8) -> (v: u8)
    ensures
        v == ssid_byte(ssid, type_bit),
{
    let mut v = (ssid & 0x0F) << 1;
    v |= 0x60;
    v |= type_bit & 0x01;
    v
}

/// The SSID that an SSID byte holds.
fn decode_ssid(byte: u8) -> (v: u8)
    ensures
        v == ssid_of(byte),
{
    (byte >> 1) & 0x0F
}

/// The codec of one station: it writes the station's callsign and SSID as
/// the source of every packet that it encodes.
pub struct Ax25Codec {
    src_callsign: Vec<char>,
    src_ssid: u8,
}

impl Ax25Codec {
    /// The callsign of the station.
    pub closed spec fn callsign(&self) -> Seq<char> {
        self.src_callsign@
    }

    /// The SSID of the station.
    pub closed spec fn ssid(&self) -> u8 {
        self.src_ssid
    }

    #[verifier::type_invariant]
    spec fn wf(&self) -> bool {
        valid_callsign(self.src_callsign@) && self.src_ssid <= 9
    }

    /// A codec for the station `callsign` with the SSID `ssid`. The
    /// callsign must be six ASCII letters or digits, the SSID at most 9.
    pub fn new(callsign: &str, ssid: u8) -> (r: Result<Ax25Codec, Ax25Error>)
        ensures
            match r {
                Ok(codec) => valid_callsign(callsign@) && ssid <= 9 && codec.callsign()
                    == callsign@ && codec.ssid() == ssid,
                Err(e) => e == if !valid_callsign(callsign@) {
                    Ax25Error::BadCallsign
                } else {
                    Ax25Error::BadSsid
                } && (!valid_callsign(callsign@) || ssid > 9),
            },
    {
        let chars = chars_of(callsign);
        if !check_callsign(&chars) {
            return Err(Ax25Error::BadCallsign);
        }
        if ssid > 9 {
            return Err(Ax25Error::BadSsid);
        }
        Ok(Ax25Codec { src_callsign: chars, src_ssid: ssid })
    }

    /// Reads a packet. The length must be from 16 to 272 bytes.
    pub fn decode(&self, buf: &[u8]) -> (r: Result<Ax25Packet, Ax25Error>)
        ensures
            match r {
                Ok(p) => decoding(buf@) == Ok::<PacketView, Ax25Error>(p@),
                Err(e) => decoding(buf@) == Err::<PacketView, Ax25Error>(e),
            },
    {
        if buf.len() < MIN_PACKET || buf.len() > MAX_PACKET {
            return Err(Ax25Error::PacketTooShortOrLong);
        }
        let dest_callsign = unshift_callsign(buf, 0);
        let dest_ssid = decode_ssid(buf[6]);
        let src_callsign = unshift_callsign(buf, 7);
        let src_ssid = decode_ssid(buf[13]);
        let mut data: Vec<u8> = Vec::new();
        let mut i: usize = 16;
        while i < buf.len()
            invariant
                16 <= i <= buf.len(),
                data@ == buf@.subrange(16, i as int),
            decreases buf.len() - i,
        {
            data.push(buf[i]);
            assert(data@ =~= buf@.subrange(16, i as int + 1));
            i += 1;
        }
        Ok(Ax25Packet { dest_callsign, dest_ssid, src_callsign, src_ssid, data })
    }

    /// Writes a packet from this station to the destination in `pkt`. The
    /// source in `pkt` is not used.
    pub fn encode(&self, pkt: &Ax25Packet) -> (r: Result<Vec<u8>, Ax25Error>)
        ensures
            match r {
                Ok(out) => encoding(
                    self.callsign(),
                    self.ssid(),
                    pkt.dest_callsign@,
                    pkt.dest_ssid,
                    pkt.data@,
                ) == Ok::<Seq<u8>, Ax25Error>(out@),
                Err(e) => encoding(
                    self.callsign(),
                    self.ssid(),
                    pkt.dest_callsign@,
                    pkt.dest_ssid,
                    pkt.data@,
                ) == Err::<Seq<u8>, Ax25Error>(e),
            },
    {
        proof {
            use_type_invariant(self);
        }
        let dest = chars_of(pkt.dest_callsign.as_str());
        if !check_callsign(&dest) {
            return Err(Ax25Error::BadCallsign);
        }
        if pkt.dest_ssid > 9 {
            return Err(Ax25Error::BadSsid);
        }
        if pkt.data.len() > MAX_PACKET - MIN_PACKET {
            return Err(Ax25Error::PacketTooShortOrLong);
        }
        let mut out = shift_callsign(&dest);
        out.push(encode_ssid(pkt.dest_ssid, 0));
        let mut src = shift_callsign(&self.src_callsign);
        out.append(&mut src);
        out.push(encode_ssid(self.src_ssid, 1));
        out.push(0x03);
        out.push(0xF0);
        let ghost head = out@;
        let mut i: usize = 0;
        while i < pkt.data.len()
            invariant
                i <= pkt.data.len(),
                out@ == head + pkt.data@.take(i as int),
            decreases pkt.data.len() - i,
        {
            out.push(pkt.data[i]);
            assert(out@ =~= head + pkt.data@.take(i as int + 1));
            i += 1;
        }
        assert(pkt.data@.take(pkt.data.len() as int) =~= pkt.data@);
        assert(head =~= shifted(pkt.dest_callsign@) + seq![ssid_byte(pkt.dest_ssid, 0)] + shifted(
            self.callsign(),
        ) + seq![ssid_byte(self.ssid(), 1)] + seq![0x03u8, 0xF0u8]);
        Ok(out)
    }
}

} // verus!
