//! KISS framing: a frame is a port, a command and a payload between two
//! frame-end bytes, with the frame-end and escape bytes of the payload
//! escaped.

use vstd::prelude::*;

verus! {

/// The byte that starts and ends a frame.
pub const FEND: u8 = 0xC0;

/// The byte that starts an escape.
pub const FESC: u8 = 0xDB;

/// After the escape byte: stands for the frame-end byte.
pub const TFEND: u8 = 0xDC;

/// After the escape byte: stands for the escape byte.
pub const TFESC: u8 = 0xDD;

/// A frame. Port and command are four bits each.
pub struct KissFrame {
    pub port: u8,
    pub cmd: u8,
    pub payload: Vec<u8>,
}

/// Why a byte string holds no frame.
#[derive(Clone, Copy, Debug, PartialEq, Eq, Structural)]
pub enum DecodeError {
    /// There is no frame-end byte.
    MissingStart,
    /// There is no second frame-end byte.
    MissingEnd,
    /// Less than two bytes follow the first frame-end byte, or the frame
    /// is empty.
    TooShort,
    /// The escape byte is followed by a byte that it cannot escape, or by
    /// none.
    BadEscape,
}

/// The port in the high four bits, the command in the low four.
pub open spec fn header_byte(port: u8, cmd: u8) -> u8 {
    (port << 4) | (cmd & 0x0F)
}

/// How one byte of a payload is written in a frame.
pub open spec fn escape_byte(b: u8) -> Seq<u8> {
    if b == FEND {
        seq![FESC, TFEND]
    } else if b == FESC {
        seq![FESC, TFESC]
    } else {
        seq![b]
    }
}

/// How a payload is written in a frame.
pub open spec fn escape(payload: Seq<u8>) -> Seq<u8>
    decreases payload.len(),
{
    if payload.len() == 0 {
        Seq::empty()
    } else {
        escape(payload.drop_last()) + escape_byte(payload.last())
    }
}

/// The bytes of a frame.
pub open spec fn frame_bytes(port: u8, cmd: u8, payload: Seq<u8>) -> Seq<u8> {
    seq![FEND, header_byte(port, cmd)] + escape(payload) + seq![FEND]
}

/// The index of the first frame-end byte at or after `from`, or the length
/// of `data` if there is none.
pub open spec fn find_fend(data: Seq<u8>, from: int) -> int
    decreases data.len() - from,
{
    if 0 <= from < data.len() && data[from] != FEND {
        find_fend(data, from + 1)
    } else {
        from
    }
}

/// The payload that the bytes `frame[i..]` write, if every escape in them
/// is complete and known.
pub open spec fn unescape(frame: Seq<u8>, i: int) -> Option<Seq<u8>>
    decreases frame.len() - i,
{
    if !(0 <= i < frame.len()) {
        Some(Seq::empty())
    } else if frame[i] == FESC {
        if i + 1 < frame.len() && (frame[i + 1] == TFEND || frame[i + 1] == TFESC) {
            match unescape(frame, i + 2) {
                Some(rest) => Some(
                    seq![
                        if frame[i + 1] == TFEND {
                            FEND
                        } else {
                            FESC
                        },
                    ] + rest,
                ),
                None => None,
            }
        } else {
            None
        }
    } else {
        match unescape(frame, i + 1) {
            Some(rest) => Some(seq![frame[i]] + rest),
            None => None,
        }
    }
}

/// What `data` holds: port, command and payload of the first frame in it,
/// or why there is none.
///
/// The frame starts behind the first frame-end byte and ends before the
/// next. Its first byte holds port and command, the rest is the escaped
/// payload.
pub open spec fn decoding(data: Seq<u8>) -> Result<(u8, u8, Seq<u8>), DecodeError> {
    let start = find_fend(data, 0);
    if start >= data.len() {
        Err(DecodeError::MissingStart)
    } else if data.len() - (start + 1) < 2 {
        Err(DecodeError::TooShort)
    } else {
        let end = find_fend(data, start + 1);
        if end >= data.len() {
            Err(DecodeError::MissingEnd)
        } else if end == start + 1 {
            Err(DecodeError::TooShort)
        } else {
            let frame = data.subrange(start + 1, end);
            match unescape(frame, 1) {
                Some(payload) => Ok((frame[0] >> 4, frame[0] & 0x0F, payload)),
                None => Err(DecodeError::BadEscape),
            }
        }
    }
}

/// What decoding gave, in the terms of [`decoding`].
pub open spec fn decoded_view(r: Result<KissFrame, DecodeError>) -> Result<
    (u8, u8, Seq<u8>),
    DecodeError,
> {
    match r {
        Ok(f) => Ok((f.port, f.cmd, f.payload@)),
        Err(e) => Err(e),
    }
}

/// The first frame-end byte is inside the data or at their end, and no byte
/// before it is one.
pub proof fn lemma_find_fend(data: Seq<u8>, from: int)
    requires
        0 <= from <= data.len(),
    ensures
        from <= find_fend(data, from) <= data.len(),
        find_fend(data, from) < data.len() ==> data[find_fend(data, from)] == FEND,
        forall|k: int| from <= k < find_fend(data, from) ==> data[k] != FEND,
    decreases data.len() - from,
{
    if from < data.len() && data[from] != FEND {
        lemma_find_fend(data, from + 1);
    }
}

/// The escaped payload starts with the escaped first byte.
pub proof fn lemma_escape_front(payload: Seq<u8>)
    requires
        payload.len() > 0,
    ensures
        escape(payload) == escape_byte(payload[0]) + escape(payload.drop_first()),
    decreases payload.len(),
{
    if payload.len() == 1 {
        assert(payload.drop_last() =~= Seq::<u8>::empty());
        assert(payload.drop_first() =~= Seq::<u8>::empty());
        assert(escape(payload.drop_last()) =~= Seq::<u8>::empty());
        assert(escape(payload) =~= escape_byte(payload[0]) + escape(payload.drop_first()));
    } else {
        lemma_escape_front(payload.drop_last());
        assert(payload.drop_last().drop_first() =~= payload.drop_first().drop_last());
        assert(payload.drop_first().last() == payload.last());
        assert(payload.drop_last()[0] == payload[0]);
        assert(escape(payload) =~= escape_byte(payload[0]) + escape(payload.drop_first()));
    }
}

/// No byte of an escaped payload is the frame-end byte.
pub proof fn lemma_escape_has_no_fend(payload: Seq<u8>)
    ensures
        forall|k: int| 0 <= k < escape(payload).len() ==> escape(payload)[k] != FEND,
    decreases payload.len(),
{
    if payload.len() > 0 {
        lemma_escape_has_no_fend(payload.drop_last());
        let head = escape(payload.drop_last());
        let tail = escape_byte(payload.last());
        assert forall|k: int| 0 <= k < escape(payload).len() implies escape(payload)[k]
            != FEND by {
            if k < head.len() {
                assert(escape(payload)[k] == head[k]);
            } else {
                assert(escape(payload)[k] == tail[k - head.len()]);
            }
        }
    }
}

/// Where no byte from `from` up to `to` is the frame-end byte and the byte
/// at `to` is one, or the data end there, the search from `from` ends at
/// `to`.
pub proof fn lemma_find_fend_at(data: Seq<u8>, from: int, to: int)
    requires
        0 <= from <= to <= data.len(),
        forall|k: int| from <= k < to ==> data[k] != FEND,
        to < data.len() ==> data[to] == FEND,
    ensures
        find_fend(data, from) == to,
    decreases to - from,
{
    if from < to {
        lemma_find_fend_at(data, from + 1, to);
    }
}

/// Reading an escaped payload back gives the payload, whatever stands
/// before it.
pub proof fn lemma_unescape_escape(before: Seq<u8>, payload: Seq<u8>)
    ensures
        unescape(before + escape(payload), before.len() as int) == Some(payload),
    decreases payload.len(),
{
    let frame = before + escape(payload);
    let i = before.len() as int;
    if payload.len() == 0 {
        assert(frame =~= before);
        assert(payload =~= Seq::<u8>::empty());
    } else {
        lemma_escape_front(payload);
        let b = payload[0];
        let rest = payload.drop_first();
        let longer = before + escape_byte(b);
        lemma_unescape_escape(longer, rest);
        assert(frame =~= longer + escape(rest));
        assert(frame[i] == escape_byte(b)[0]);
        if b == FEND || b == FESC {
            assert(frame[i + 1] == escape_byte(b)[1]);
            assert(longer.len() == i + 2);
        } else {
            assert(longer.len() == i + 1);
        }
        assert(seq![b] + rest =~= payload);
    }
}

/// What is read back from the bytes of a frame is the frame, where port
/// and command are four bits each and do not make up the frame-end byte
/// between them (port 12 with command 0 does).
pub proof fn lemma_round_trip(port: u8, cmd: u8, payload: Seq<u8>)
    requires
        port < 16,
        cmd < 16,
        !(port == 12 && cmd == 0),
    ensures
        decoding(frame_bytes(port, cmd, payload)) == Ok::<(u8, u8, Seq<u8>), DecodeError>(
            (port, cmd, payload),
        ),
{
    let h = header_byte(port, cmd);
    assert(h != 0xC0 && h >> 4 == port && h & 0x0F == cmd) by (bit_vector)
        requires
            h == (port << 4) | (cmd & 0x0F),
            port < 16,
            cmd < 16,
            !(port == 12 && cmd == 0),
    ;
    let body = escape(payload);
    let data = frame_bytes(port, cmd, payload);
    let n = body.len() as int;
    lemma_escape_has_no_fend(payload);
    assert(data.len() == n + 3);
    assert(data[0] == FEND);
    assert(data[1] == h);
    assert(data[n + 2] == FEND);
    assert forall|k: int| 1 <= k < n + 2 implies data[k] != FEND by {
        if k >= 2 {
            assert(data[k] == body[k - 2]);
        }
    }
    lemma_find_fend_at(data, 0, 0);
    lemma_find_fend_at(data, 1, n + 2);
    let frame = data.subrange(1, n + 2);
    assert(frame =~= seq![h] + body);
    lemma_unescape_escape(seq![h], payload);
}

/// The index of the first frame-end byte at or after `from`, or the length
/// of `data` if there is none.
fn position_of_fend(data: &[u8], from: usize) -> (r: usize)
    requires
        from <= data.len(),
    ensures
        r == find_fend(data@, from as int),
        from <= r <= data.len(),
{
    let mut i: usize = from;
    while i < data.len() && data[i] != FEND
        invariant
            from <= i <= data.len(),
            find_fend(data@, i as int) == find_fend(data@, from as int),
        decreases data.len() - i,
    {
        i += 1;
    }
    i
}

impl KissFrame {
    /// A frame for `port` and `cmd`, which must be four bits each.
    pub fn new(port: u8, cmd: u8, payload: Vec<u8>) -> (f: KissFrame)
        requires
            port < 16,
            cmd < 16,
        ensures
            f.port == port,
            f.cmd == cmd,
            f.payload == payload,
    {
        KissFrame { port, cmd, payload }
    }

    /// The bytes of the frame.
    pub fn encode(&self) -> (buf: Vec<u8>)
        ensures
            buf@ == frame_bytes(self.port, self.cmd, self.payload@),
    {
        let mut buf: Vec<u8> = Vec::new();
        buf.push(FEND);
        buf.push((self.port << 4) | (self.cmd & 0x0F));
        let ghost head = buf@;
        let mut i: usize = 0;
        assert(self.payload@.take(0) =~= Seq::<u8>::empty());
        assert(head + Seq::<u8>::empty() =~= head);
        while i < self.payload.len()
            invariant
                i <= self.payload.len(),
                head == seq![FEND, header_byte(self.port, self.cmd)],
                buf@ == head + escape(self.payload@.take(i as int)),
            decreases self.payload.len() - i,
        {
            let b = self.payload[i];
            let ghost before = self.payload@.take(i as int);
            let ghost after = self.payload@.take(i as int + 1);
            assert(after.drop_last() =~= before);
            assert(after.last() == b);
            let ghost old_buf = buf@;
            if b == FEND {
                buf.push(FESC);
                buf.push(TFEND);
            } else if b == FESC {
                buf.push(FESC);
                buf.push(TFESC);
            } else {
                buf.push(b);
            }
            assert(buf@ =~= old_buf + escape_byte(b));
            assert((head + escape(before)) + escape_byte(b) =~= head + (escape(before)
                + escape_byte(b)));
            i += 1;
        }
        assert(self.payload@.take(self.payload.len() as int) =~= self.payload@);
        buf.push(FEND);
        buf
    }

    /// Reads the first frame in `data`.
    #[verifier::loop_isolation(false)]
    pub fn decode(data: &[u8]) -> (r: Result<KissFrame, DecodeError>)
        ensures
            decoded_view(r) == decoding(data@),
    {
        let start = position_of_fend(data, 0);
        if start >= data.len() {
            return Err(DecodeError::MissingStart);
        }
        if data.len() - (start + 1) < 2 {
            return Err(DecodeError::TooShort);
        }
        let end = position_of_fend(data, start + 1);
        if end >= data.len() {
            return Err(DecodeError::MissingEnd);
        }
        if end == start + 1 {
            return Err(DecodeError::TooShort);
        }
        let ghost frame = data@.subrange(start as int + 1, end as int);
        let pc = data[start + 1];
        assert(frame[0] == pc);
        let port = pc >> 4;
        let cmd = pc & 0x0F;
        let mut payload: Vec<u8> = Vec::new();
        let mut i: usize = start + 2;
        let ghost whole = unescape(frame, 1);
        loop
            invariant
                start + 2 <= i <= end < data.len(),
                frame == data@.subrange(start as int + 1, end as int),
                whole == unescape(frame, 1),
                match unescape(frame, i - (start + 1)) {
                    Some(rest) => whole == Some(payload@ + rest),
                    None => whole is None,
                },
            decreases end - i,
        {
            let ghost at = i - (start + 1);
            if i >= end {
                assert(payload@ + Seq::<u8>::empty() =~= payload@);
                return Ok(KissFrame { port, cmd, payload });
            }
            let b = data[i];
            assert(frame[at] == b);
            if b == FESC {
                if i + 1 >= end {
                    return Err(DecodeError::BadEscape);
                }
                let t = data[i + 1];
                assert(frame[at + 1] == t);
                let ghost before = payload@;
                if t == TFEND {
                    payload.push(FEND);
                } else if t == TFESC {
                    payload.push(FESC);
                } else {
                    return Err(DecodeError::BadEscape);
                }
                proof {
                    match unescape(frame, at + 2) {
                        Some(rest) => {
                            let c = if t == TFEND {
                                FEND
                            } else {
                                FESC
                            };
                            assert(before + (seq![c] + rest) =~= before.push(c) + rest);
                        },
                        None => {},
                    }
                }
                i += 2;
            } else {
                let ghost before = payload@;
                payload.push(b);
                proof {
                    match unescape(frame, at + 1) {
                        Some(rest) => {
                            assert(before + (seq![b] + rest) =~= before.push(b) + rest);
                        },
                        None => {},
                    }
                }
                i += 1;
            }
        }
    }
}

} // verus!
