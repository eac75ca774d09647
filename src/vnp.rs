//! The wire protocol: typed messages and their length-prefixed frames.
//!
//! A frame is a big-endian 32-bit length `n` followed by `n` bytes that
//! encode one message. Object bytes travel as `ObjectData` messages after an
//! `ObjectHeader` that announces their total size.
use vstd::prelude::*;
use crate::error::OrbitError;

verus! {

/// The largest frame body accepted: 64 MiB.
pub const MAX_FRAME_LEN: u32 = 67108864;

/// The largest payload of one `ObjectData` message.
pub const OBJECT_DATA_CHUNK: usize = 8192;

/// The messages exchanged between client and server.
#[derive(Debug, Clone)]
pub enum VnpCommand {
    /// Client: presents its access token.
    Authenticate(String),
    /// Server: whether the token was accepted.
    AuthResult { success: bool, message: String },
    /// Client: asks for the repositories it may use.
    ListRepositories,
    /// Server: the repositories the client may use.
    RepositoryList(Vec<String>),
    /// Client: picks a repository.
    SelectRepository(String),
    /// Client: creates a repository and picks it.
    CreateRepository(String),
    /// Server: confirms the repository in use.
    RepositorySelected(String),
    /// Client: the commits it holds.
    Have(Vec<String>),
    /// Server: the commits the client must fetch.
    Want(Vec<String>),
    /// Client: the commits it offers for upload.
    Push(Vec<String>),
    /// Client: the commits it asks to download.
    Pull(Vec<String>),
    /// Client: asks for any object.
    Get(String),
    /// Client: asks for a tree.
    GetTree(String),
    /// Client: asks for a file object.
    GetFile(String),
    /// Client: asks for a commit and everything it reaches.
    GetCompleteGraph(String),
    /// Server: asks the client for an object.
    SendObject(String),
    /// Either side: announces an object's identifier, kind and size.
    ObjectHeader { id: String, object_type: String, size: usize },
    /// Either side: a piece of an announced object's bytes.
    ObjectData(Vec<u8>),
    /// Either side: the phase is over.
    Ready,
    /// Server: the operation succeeded (tagged `Ok` on the wire).
    Ack,
    /// Either side: the operation failed.
    Error(String),
}

/// The four big-endian bytes of `n`.
pub open spec fn be32(n: u32) -> Seq<u8> {
    seq![
        (n / 0x1000000) as u8,
        ((n / 0x10000) % 0x100) as u8,
        ((n / 0x100) % 0x100) as u8,
        (n % 0x100) as u8,
    ]
}

/// The number that four big-endian bytes denote.
pub open spec fn be32_value(b: Seq<u8>) -> int {
    b[0] * 0x1000000 + b[1] * 0x10000 + b[2] * 0x100 + b[3]
}

/// A payload with its length prefix.
pub open spec fn framed(p: Seq<u8>) -> Seq<u8> {
    be32(p.len() as u32) + p
}

/// Decoding the prefix gives back the number that was encoded.
pub proof fn lemma_be32_round_trip(n: u32)
    ensures
        be32_value(be32(n)) == n,
{
    let a = n / 0x1000000;
    let b = (n / 0x10000) % 0x100;
    let c = (n / 0x100) % 0x100;
    let d = n % 0x100;
    assert(a < 0x100) by (bit_vector)
        requires
            a == n / 0x1000000,
    ;
    assert(n == a * 0x1000000 + b * 0x10000 + c * 0x100 + d) by (bit_vector)
        requires
            a == n / 0x1000000,
            b == (n / 0x10000) % 0x100,
            c == (n / 0x100) % 0x100,
            d == n % 0x100,
    ;
    assert(be32(n)[0] == a);
    assert(be32(n)[1] == b);
    assert(be32(n)[2] == c);
    assert(be32(n)[3] == d);
}

/// The four big-endian bytes of a frame length.
pub fn encode_len(n: u32) -> (r: Vec<u8>)
    ensures
        r@ == be32(n),
{
    let mut r: Vec<u8> = Vec::new();
    r.push((n / 0x1000000) as u8);
    r.push(((n / 0x10000) % 0x100) as u8);
    r.push(((n / 0x100) % 0x100) as u8);
    r.push((n % 0x100) as u8);
    assert(r@ =~= be32(n));
    r
}

/// The frame length that a four-byte prefix announces, refused above
/// `MAX_FRAME_LEN`.
pub fn decode_len(h: &[u8]) -> (r: Result<usize, OrbitError>)
    requires
        h@.len() == 4,
    ensures
        be32_value(h@) > MAX_FRAME_LEN ==> r == Err::<usize, OrbitError>(OrbitError::Protocol),
        be32_value(h@) <= MAX_FRAME_LEN ==> r == Ok::<usize, OrbitError>(be32_value(h@) as usize),
{
    let v: u64 = (h[0] as u64) * 0x1000000 + (h[1] as u64) * 0x10000 + (h[2] as u64) * 0x100
        + (h[3] as u64);
    if v > MAX_FRAME_LEN as u64 {
        Err(OrbitError::Protocol)
    } else {
        Ok(v as usize)
    }
}

/// Frames a message body: its length, big-endian, then the body. A body over
/// `MAX_FRAME_LEN` is refused.
pub fn encode_frame(payload: &[u8]) -> (r: Result<Vec<u8>, OrbitError>)
    ensures
        payload@.len() > MAX_FRAME_LEN ==> r == Err::<Vec<u8>, OrbitError>(OrbitError::Protocol),
        payload@.len() <= MAX_FRAME_LEN ==> (r matches Ok(f) && f@ == framed(payload@)),
{
    if payload.len() > MAX_FRAME_LEN as usize {
        return Err(OrbitError::Protocol);
    }
    let mut f = encode_len(payload.len() as u32);
    let mut i: usize = 0;
    while i < payload.len()
        invariant
            i <= payload@.len(),
            payload@.len() <= MAX_FRAME_LEN,
            f@ == be32(payload@.len() as u32) + payload@.subrange(0, i as int),
        decreases payload@.len() - i,
    {
        f.push(payload[i]);
        assert(payload@.subrange(0, i + 1) =~= payload@.subrange(0, i as int).push(payload@[i as int]));
        i = i + 1;
    }
    assert(payload@.subrange(0, i as int) =~= payload@);
    Ok(f)
}

/// What the frame at the front of a buffer holds: `None` while the buffer is
/// too short, else the body and the number of bytes the frame takes.
pub open spec fn frame_at_front(buf: Seq<u8>) -> Option<(Seq<u8>, int)> {
    if buf.len() < 4 {
        None
    } else if buf.len() < 4 + be32_value(buf.subrange(0, 4)) {
        None
    } else {
        Some((buf.subrange(4, 4 + be32_value(buf.subrange(0, 4))), 4 + be32_value(buf.subrange(0, 4))))
    }
}

/// Reads the frame at the front of `buf`: `Ok(None)` while it is incomplete,
/// `Err(Protocol)` when its length exceeds `MAX_FRAME_LEN`, else its body and
/// the number of bytes it takes.
pub fn decode_frame(buf: &[u8]) -> (r: Result<Option<(Vec<u8>, usize)>, OrbitError>)
    ensures
        buf@.len() < 4 ==> r matches Ok(None),
        buf@.len() >= 4 && be32_value(buf@.subrange(0, 4)) > MAX_FRAME_LEN ==> r == Err::<
            Option<(Vec<u8>, usize)>,
            OrbitError,
        >(OrbitError::Protocol),
        buf@.len() >= 4 && be32_value(buf@.subrange(0, 4)) <= MAX_FRAME_LEN ==> (match r {
            Ok(None) => frame_at_front(buf@) is None,
            Ok(Some((p, k))) => frame_at_front(buf@) == Some((p@, k as int)),
            Err(_) => false,
        }),
{
    if buf.len() < 4 {
        return Ok(None);
    }
    let h = &buf[0..4];
    let n = match decode_len(h) {
        Ok(n) => n,
        Err(e) => {
            return Err(e);
        },
    };
    if buf.len() - 4 < n {
        return Ok(None);
    }
    let body = &buf[4..4 + n];
    let mut p: Vec<u8> = Vec::new();
    let mut i: usize = 0;
    while i < n
        invariant
            i <= n,
            body@.len() == n,
            p@ == body@.subrange(0, i as int),
        decreases n - i,
    {
        p.push(body[i]);
        assert(body@.subrange(0, i + 1) =~= body@.subrange(0, i as int).push(body@[i as int]));
        i = i + 1;
    }
    assert(body@.subrange(0, i as int) =~= body@);
    Ok(Some((p, 4 + n)))
}

/// Framing loses nothing: the frame of a body that fits, followed by any
/// bytes, reads back as that body, and the bytes after it are the rest.
pub proof fn lemma_frame_round_trip(p: Seq<u8>, rest: Seq<u8>)
    requires
        p.len() <= MAX_FRAME_LEN,
    ensures
        frame_at_front(framed(p) + rest) == Some((p, 4 + p.len() as int)),
        (framed(p) + rest).subrange(4 + p.len() as int, (framed(p) + rest).len() as int) == rest,
{
    let buf = framed(p) + rest;
    lemma_be32_round_trip(p.len() as u32);
    assert(buf.subrange(0, 4) =~= be32(p.len() as u32));
    assert(buf.subrange(4, 4 + p.len() as int) =~= p);
    assert(buf.subrange(4 + p.len() as int, buf.len() as int) =~= rest);
}

/// The concatenation of a sequence of byte strings.
pub open spec fn joined(s: Seq<Seq<u8>>) -> Seq<u8>
    decreases s.len(),
{
    if s.len() == 0 {
        Seq::empty()
    } else {
        joined(s.drop_last()) + s.last()
    }
}

pub open spec fn pieces_view(v: Seq<Vec<u8>>) -> Seq<Seq<u8>> {
    v.map_values(|x: Vec<u8>| x@)
}

/// Cuts object bytes into `ObjectData` payloads of `OBJECT_DATA_CHUNK` bytes,
/// the last one shorter; empty bytes give no piece.
pub fn split_object_data(data: &[u8]) -> (r: Vec<Vec<u8>>)
    ensures
        joined(pieces_view(r@)) == data@,
        forall|i: int|
            0 <= i < r@.len() ==> 0 < #[trigger] r@[i]@.len() <= OBJECT_DATA_CHUNK,
        forall|i: int| 0 <= i < r@.len() - 1 ==> #[trigger] r@[i]@.len() == OBJECT_DATA_CHUNK,
{
    let mut r: Vec<Vec<u8>> = Vec::new();
    let mut pos: usize = 0;
    let n = data.len();
    while pos < n
        invariant
            n == data@.len(),
            pos <= n,
            joined(pieces_view(r@)) == data@.subrange(0, pos as int),
            forall|i: int| 0 <= i < r@.len() ==> 0 < #[trigger] r@[i]@.len() <= OBJECT_DATA_CHUNK,
            forall|i: int| 0 <= i < r@.len() - 1 ==> #[trigger] r@[i]@.len() == OBJECT_DATA_CHUNK,
            pos < n ==> forall|i: int| 0 <= i < r@.len() ==> #[trigger] r@[i]@.len() == OBJECT_DATA_CHUNK,
        decreases n - pos,
    {
        let end = if n - pos > OBJECT_DATA_CHUNK {
            pos + OBJECT_DATA_CHUNK
        } else {
            n
        };
        let mut piece: Vec<u8> = Vec::new();
        let mut i: usize = pos;
        while i < end
            invariant
                pos <= i <= end,
                end <= n,
                n == data@.len(),
                piece@ == data@.subrange(pos as int, i as int),
            decreases end - i,
        {
            piece.push(data[i]);
            assert(data@.subrange(pos as int, i + 1) =~= data@.subrange(pos as int, i as int).push(
                data@[i as int],
            ));
            i = i + 1;
        }
        let ghost old_r = r@;
        r.push(piece);
        assert(pieces_view(r@).drop_last() =~= pieces_view(old_r));
        assert(data@.subrange(0, end as int) =~= data@.subrange(0, pos as int) + data@.subrange(
            pos as int,
            end as int,
        ));
        pos = end;
    }
    r
}

/// Collects the bytes of one announced object from the `ObjectData` messages
/// that follow its header.
pub struct ObjectReceiver {
    expected: usize,
    data: Vec<u8>,
}

impl ObjectReceiver {
    pub closed spec fn expected(&self) -> nat {
        self.expected as nat
    }

    pub closed spec fn received(&self) -> Seq<u8> {
        self.data@
    }

    pub open spec fn wf(&self) -> bool {
        self.received().len() <= self.expected()
    }

    /// A receiver for an object of `expected` bytes, with nothing received.
    pub fn new(expected: usize) -> (r: ObjectReceiver)
        ensures
            r.expected() == expected,
            r.received() == Seq::<u8>::empty(),
            r.wf(),
    {
        ObjectReceiver { expected, data: Vec::new() }
    }

    /// Whether all announced bytes have arrived.
    pub fn is_complete(&self) -> (r: bool)
        ensures
            r == (self.received().len() == self.expected()),
    {
        self.data.len() == self.expected
    }

    /// Takes the next message. An `ObjectData` piece that still fits is
    /// appended. One that overshoots the announced size, or any other message
    /// (a server `Error` included) while bytes are missing, is a protocol
    /// violation.
    pub fn feed(&mut self, cmd: VnpCommand) -> (r: Result<(), OrbitError>)
        requires
            old(self).wf(),
        ensures
            final(self).wf(),
            final(self).expected() == old(self).expected(),
            match cmd {
                VnpCommand::ObjectData(d) => if old(self).received().len() + d@.len()
                    <= old(self).expected() {
                    r is Ok && final(self).received() == old(self).received() + d@
                } else {
                    r == Err::<(), OrbitError>(OrbitError::Protocol) && final(self).received()
                        == old(self).received()
                },
                _ => r == Err::<(), OrbitError>(OrbitError::Protocol) && final(self).received()
                    == old(self).received(),
            },
    {
        match cmd {
            VnpCommand::ObjectData(d) => {
                if d.len() > self.expected - self.data.len() {
                    return Err(OrbitError::Protocol);
                }
                let mut i: usize = 0;
                let ghost start = self.data@;
                while i < d.len()
                    invariant
                        i <= d@.len(),
                        self.expected == old(self).expected,
                        start.len() + d@.len() <= self.expected,
                        self.data@ == start + d@.subrange(0, i as int),
                    decreases d@.len() - i,
                {
                    self.data.push(d[i]);
                    assert(d@.subrange(0, i + 1) =~= d@.subrange(0, i as int).push(d@[i as int]));
                    i = i + 1;
                }
                assert(d@.subrange(0, i as int) =~= d@);
                Ok(())
            },
            _ => Err(OrbitError::Protocol),
        }
    }

    /// The received bytes, once complete.
    pub fn into_data(self) -> (r: Vec<u8>)
        requires
            self.received().len() == self.expected(),
        ensures
            r@ == self.received(),
            r@.len() == self.expected(),
    {
        self.data
    }
}

} // verus!
