//! IPC module for tv daemon/client/session communication.
//!
//! Provides:
//! - The path of the socket
//! - Length-prefixed message framing
//! - The state of a session's connection to the daemon
//!
//! What a message holds is JSON; here it is bytes.
use vstd::prelude::*;
use vstd::slice::slice_subrange;
use crate::strings::{concat, concat3, decimal, decimal_string};

pub mod session;

verus! {

/// Maximum IPC message size (16 MB). Prevents OOM from corrupted length prefixes.
pub const MAX_MESSAGE_SIZE: usize = 16_777_216;

/// The socket path for the tv daemon of a user: /tmp/tv-$UID/tv.sock
pub fn socket_path(uid: u32) -> (s: String)
    ensures
        s@ == "/tmp/tv-"@ + decimal(uid as nat) + "/tv.sock"@,
{
    concat3("/tmp/tv-", decimal_string(uid as u64).as_str(), "/tv.sock")
}

/// The directory of that socket: /tmp/tv-$UID
pub fn socket_dir(uid: u32) -> (s: String)
    ensures
        s@ == "/tmp/tv-"@ + decimal(uid as nat),
{
    concat("/tmp/tv-", decimal_string(uid as u64).as_str())
}

/// How long to wait before each attempt to connect to a daemon that was just started, in
/// milliseconds: up to 10 attempts with linear backoff (50ms, 100ms, 150ms...).
pub open spec fn backoff(attempt: int) -> Option<u64> {
    if 1 <= attempt <= 10 {
        Some((50 * attempt) as u64)
    } else {
        None
    }
}

pub fn connect_delay(attempt: u32) -> (r: Option<u64>)
    ensures
        r == backoff(attempt as int),
{
    if 1 <= attempt && attempt <= 10 {
        Some(50 * attempt as u64)
    } else {
        None
    }
}

// === Framing ===

/// The four bytes of a number, the most significant first.
pub open spec fn be_bytes(n: nat) -> Seq<u8> {
    seq![
        (n / 16_777_216 % 256) as u8,
        (n / 65_536 % 256) as u8,
        (n / 256 % 256) as u8,
        (n % 256) as u8,
    ]
}

/// The number that four bytes spell, the most significant first.
pub open spec fn be_value(b: Seq<u8>) -> nat {
    (b[0] * 16_777_216 + b[1] * 65_536 + b[2] * 256 + b[3]) as nat
}

/// A message in its frame: its length in four bytes, and then the message. Of a length that does
/// not fit, the lower bits are written.
pub open spec fn framed(message: Seq<u8>) -> Seq<u8> {
    be_bytes(message.len() % 0x1_0000_0000) + message
}

/// The error for a message that is too large.
pub open spec fn too_large_text(len: nat) -> Seq<char> {
    "message too large: "@ + decimal(len) + (" bytes (max "@ + decimal(MAX_MESSAGE_SIZE as nat)
        + ")"@)
}

/// The message at the start of a buffer and how many bytes it takes with its frame; nothing while
/// it is not complete.
pub open spec fn unframed(buf: Seq<u8>) -> Result<Option<(Seq<u8>, int)>, Seq<char>> {
    if buf.len() < 4 {
        Ok(None)
    } else {
        let len = be_value(buf);
        if len > MAX_MESSAGE_SIZE {
            Err(too_large_text(len))
        } else if buf.len() < 4 + len {
            Ok(None)
        } else {
            Ok(Some((buf.subrange(4, 4 + len as int), 4 + len as int)))
        }
    }
}

/// The error for a message that is too large.
pub fn too_large(len: u32) -> (s: String)
    ensures
        s@ == too_large_text(len as nat),
{
    let max = concat3(" bytes (max ", decimal_string(MAX_MESSAGE_SIZE as u64).as_str(), ")");
    concat3("message too large: ", decimal_string(len as u64).as_str(), max.as_str())
}

fn read_be(b: &[u8]) -> (n: u32)
    requires
        b@.len() >= 4,
    ensures
        n == be_value(b@),
{
    b[0] as u32 * 16_777_216 + b[1] as u32 * 65_536 + b[2] as u32 * 256 + b[3] as u32
}

/// The length of a message from its prefix; one that is too large is an error.
pub fn message_length(prefix: &[u8]) -> (r: Result<usize, u32>)
    requires
        prefix@.len() == 4,
    ensures
        match r {
            Ok(n) => n == be_value(prefix@) && n <= MAX_MESSAGE_SIZE,
            Err(n) => n == be_value(prefix@) && n > MAX_MESSAGE_SIZE,
        },
{
    let n = read_be(prefix);
    if n as u64 > MAX_MESSAGE_SIZE as u64 {
        Err(n)
    } else {
        Ok(n as usize)
    }
}

/// Frame a message.
/// Format: [4 bytes: length as u32 big-endian][JSON payload]
pub fn encode(json: &[u8]) -> (buf: Vec<u8>)
    ensures
        buf@ == framed(json@),
{
    let len: u32 = (json.len() as u64 % 0x1_0000_0000) as u32;
    let mut buf: Vec<u8> = vec![
        (len / 16_777_216 % 256) as u8,
        (len / 65_536 % 256) as u8,
        (len / 256 % 256) as u8,
        (len % 256) as u8,
    ];
    buf.extend_from_slice(json);
    proof {
        assert(buf@ =~= framed(json@));
    }
    buf
}

/// Take a message out of its frame.
/// Returns Ok(None) if the buffer doesn't contain a complete message.
pub fn decode<'a>(buf: &'a [u8]) -> (r: Result<Option<(&'a [u8], usize)>, String>)
    ensures
        match unframed(buf@) {
            Ok(Some((message, total))) => r matches Ok(Some(x)) && x.0@ == message && x.1 == total,
            Ok(None) => r == Ok::<Option<(&'a [u8], usize)>, String>(None),
            Err(e) => r matches Err(m) && m@ == e,
        },
{
    if buf.len() < 4 {
        return Ok(None);
    }
    let n = read_be(buf);
    if n as u64 > MAX_MESSAGE_SIZE as u64 {
        return Err(too_large(n));
    }
    let len = n as usize;
    let total = 4 + len;
    if buf.len() < total {
        return Ok(None);
    }
    Ok(Some((slice_subrange(buf, 4, total), total)))
}

// === Laws ===

proof fn lemma_be_round_trip(n: nat)
    requires
        n < 0x1_0000_0000,
    ensures
        be_value(be_bytes(n)) == n,
{
    let a = n / 16_777_216 % 256;
    let b = n / 65_536 % 256;
    let c = n / 256 % 256;
    let d = n % 256;
    assert(a * 16_777_216 + b * 65_536 + c * 256 + d == n);
}

/// What is read is what was written: a message that is not too large comes out of its frame as it
/// went in, whatever follows it.
pub proof fn law_a_framed_message_reads_back(message: Seq<u8>, rest: Seq<u8>)
    requires
        message.len() <= MAX_MESSAGE_SIZE,
    ensures
        unframed(framed(message) + rest) == Ok::<Option<(Seq<u8>, int)>, Seq<char>>(
            Some((message, framed(message).len() as int)),
        ),
{
    let buf = framed(message) + rest;
    lemma_be_round_trip(message.len());
    assert(buf.subrange(4, 4 + message.len() as int) =~= message);
}

/// A message of which the end is missing is not read yet.
pub proof fn law_a_partial_message_is_not_read(message: Seq<u8>, n: int)
    requires
        message.len() <= MAX_MESSAGE_SIZE,
        0 <= n < framed(message).len(),
    ensures
        unframed(framed(message).take(n)) == Ok::<Option<(Seq<u8>, int)>, Seq<char>>(None),
{
    lemma_be_round_trip(message.len());
}

/// Messages in their frames, one after the other.
pub open spec fn all_framed(messages: Seq<Seq<u8>>) -> Seq<u8>
    decreases messages.len(),
{
    if messages.len() == 0 {
        Seq::empty()
    } else {
        framed(messages[0]) + all_framed(messages.skip(1))
    }
}

/// The complete messages at the start of a buffer, and what is left behind them.
pub open spec fn all_unframed(buf: Seq<u8>) -> (Seq<Seq<u8>>, Seq<u8>)
    decreases buf.len(),
{
    match unframed(buf) {
        Ok(Some((message, total))) => {
            let (more, rest) = all_unframed(buf.skip(total));
            (seq![message] + more, rest)
        },
        _ => (Seq::empty(), buf),
    }
}

/// A stream of messages, cut off anywhere, gives back those that are complete, in order, and
/// keeps the part that is not.
pub proof fn law_a_stream_of_messages_reads_back(
    messages: Seq<Seq<u8>>,
    next: Seq<u8>,
    n: int,
)
    requires
        forall|i: int| 0 <= i < messages.len() ==> (#[trigger] messages[i]).len()
            <= MAX_MESSAGE_SIZE,
        next.len() <= MAX_MESSAGE_SIZE,
        0 <= n < framed(next).len(),
    ensures
        all_unframed(all_framed(messages) + framed(next).take(n)) == (messages, framed(next).take(n)),
    decreases messages.len(),
{
    let part = framed(next).take(n);
    let buf = all_framed(messages) + part;
    if messages.len() == 0 {
        law_a_partial_message_is_not_read(next, n);
        assert(buf =~= part);
        assert(messages =~= Seq::empty());
    } else {
        let first = messages[0];
        let tail = messages.skip(1);
        let rest = all_framed(tail) + part;
        assert(buf =~= framed(first) + rest);
        assert forall|i: int| 0 <= i < tail.len() implies (#[trigger] tail[i]).len()
            <= MAX_MESSAGE_SIZE by {
            assert(messages[i + 1].len() <= MAX_MESSAGE_SIZE);
        }
        law_a_framed_message_reads_back(first, rest);
        law_a_stream_of_messages_reads_back(tail, next, n);
        assert(buf.skip(framed(first).len() as int) =~= rest);
        assert(seq![first] + tail =~= messages);
    }
}

} // verus!
