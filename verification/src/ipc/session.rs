//! A session's connection to the daemon: what was read and is to be written, and when to try
//! again after it was lost.
//!
//! The socket is read and written elsewhere; what came of that is handed in. Times are nanoseconds
//! since the session started.
use std::collections::VecDeque;
use vstd::prelude::*;
use vstd::slice::slice_subrange;
use crate::ipc::{decode, encode, framed, unframed};

verus! {

/// The time between two attempts to connect.
pub const RETRY_INTERVAL: u64 = 100_000_000;

/// Connection state.
#[derive(Debug, Clone, Copy, PartialEq, Eq, Structural)]
pub enum State {
    Disconnected,
    Connected,
}

/// What came of an attempt to connect.
#[derive(Debug, Clone, Copy, PartialEq, Eq, Structural)]
pub enum ConnectResult {
    Connected,
    /// There is no socket, or nobody listens on it.
    NotListening,
    Failed,
}

/// What came of reading from the socket.
#[derive(Debug, Clone, Copy, PartialEq, Eq, Structural)]
pub enum ReadResult {
    /// So many bytes were read.
    Read(usize),
    WouldBlock,
    Interrupted,
    Failed,
}

/// What came of writing to the socket.
#[derive(Debug, Clone, Copy, PartialEq, Eq, Structural)]
pub enum WriteResult {
    /// So many bytes were written.
    Wrote(usize),
    WouldBlock,
    Interrupted,
    Failed,
}

/// What to do next with the socket.
#[derive(Debug, Clone, Copy, PartialEq, Eq, Structural)]
pub enum Step {
    /// Go on.
    Continue,
    /// Stop. The answer says whether all is well with a read, or all is written.
    Done(bool),
    /// Give up with the error of the socket.
    Fail,
}

/// Non-blocking connection with reconnect support.
pub struct Connection {
    state: State,
    read_buf: Vec<u8>,
    write_queue: VecDeque<Vec<u8>>,
    retry_at: Option<u64>,
}

/// A connection: what was read and not taken yet, what is still to be written, piece by piece,
/// and when to connect again.
#[verifier::ext_equal]
pub struct ConnectionView {
    pub connected: bool,
    pub input: Seq<u8>,
    pub output: Seq<Seq<u8>>,
    pub retry_at: Option<u64>,
}

/// The contents of the pieces.
pub open spec fn pieces(queue: Seq<Vec<u8>>) -> Seq<Seq<u8>> {
    queue.map_values(|v: Vec<u8>| v@)
}

impl View for Connection {
    type V = ConnectionView;

    closed spec fn view(&self) -> ConnectionView {
        ConnectionView {
            connected: self.state == State::Connected,
            input: self.read_buf@,
            output: pieces(self.write_queue@),
            retry_at: self.retry_at,
        }
    }
}

/// A later time, as far as it can be told.
pub open spec fn later(now: u64, interval: u64) -> u64 {
    if now + interval <= u64::MAX {
        (now + interval) as u64
    } else {
        u64::MAX
    }
}

impl ConnectionView {
    /// What every operation keeps: pieces of output are not empty.
    pub open spec fn wf(self) -> bool {
        forall|i: int| 0 <= i < self.output.len() ==> (#[trigger] self.output[i]).len() > 0
    }

    /// Whether it is time to connect again.
    pub open spec fn should_retry(self, now: u64) -> bool {
        !self.connected && (self.retry_at matches Some(t) ==> now >= t)
    }

    pub open spec fn schedule_retry(self, now: u64) -> ConnectionView {
        ConnectionView { retry_at: Some(later(now, RETRY_INTERVAL)), ..self }
    }

    /// The connection is lost, with all that was read or was to be written.
    pub open spec fn disconnect(self, now: u64) -> ConnectionView {
        ConnectionView {
            connected: false,
            input: Seq::empty(),
            output: Seq::empty(),
            ..self
        }.schedule_retry(now)
    }

    /// The first `n` bytes of the output are written.
    pub open spec fn written(self, n: int) -> ConnectionView {
        ConnectionView {
            output: if n >= self.output[0].len() {
                self.output.skip(1)
            } else {
                self.output.update(0, self.output[0].skip(n))
            },
            ..self
        }
    }
}

impl Connection {
    /// What every operation keeps.
    pub closed spec fn wf(&self) -> bool {
        self@.wf()
    }

    /// A connection that was just made.
    pub fn new() -> (c: Self)
        ensures
            c.wf(),
            c@ == (ConnectionView {
                connected: true,
                input: Seq::empty(),
                output: Seq::empty(),
                retry_at: None,
            }),
    {
        let c = Connection {
            state: State::Connected,
            read_buf: Vec::new(),
            write_queue: VecDeque::new(),
            retry_at: None,
        };
        proof {
            assert(c@.output =~= Seq::empty());
        }
        c
    }

    pub fn is_connected(&self) -> (r: bool)
        ensures
            r == self@.connected,
    {
        self.state == State::Connected
    }

    /// Check if it's time to retry connection.
    pub fn should_retry(&self, now: u64) -> (r: bool)
        ensures
            r == self@.should_retry(now),
    {
        if self.state != State::Disconnected {
            return false;
        }
        match self.retry_at {
            Some(t) => now >= t,
            None => true,
        }
    }

    /// Take in what came of an attempt to connect. Returns true if the connection was
    /// established. While nobody listens, it is tried again later.
    pub fn try_reconnect(&mut self, result: ConnectResult, now: u64) -> (r: bool)
        requires
            old(self).wf(),
            old(self)@.should_retry(now),
        ensures
            final(self).wf(),
            r == (result == ConnectResult::Connected),
            final(self)@ == match result {
                ConnectResult::Connected => (ConnectionView {
                    connected: true,
                    input: Seq::empty(),
                    retry_at: None,
                    ..old(self)@
                }),
                ConnectResult::NotListening => old(self)@.schedule_retry(now),
                ConnectResult::Failed => old(self)@,
            },
    {
        match result {
            ConnectResult::Connected => {
                self.state = State::Connected;
                self.read_buf.clear();
                self.retry_at = None;
                true
            },
            ConnectResult::NotListening => {
                self.schedule_retry(now);
                false
            },
            ConnectResult::Failed => false,
        }
    }

    /// Take in what came of reading from the socket: the data that was read goes to the buffer. A
    /// read of nothing means that the other side closed the connection.
    pub fn read_into_buffer(&mut self, data: &[u8], result: ReadResult, now: u64) -> (step: Step)
        requires
            old(self).wf(),
            old(self)@.connected,
            result matches ReadResult::Read(n) ==> n <= data@.len(),
        ensures
            final(self).wf(),
            match result {
                ReadResult::Read(n) => if n == 0 {
                    step == Step::Done(false) && final(self)@ == old(self)@.disconnect(now)
                } else {
                    &&& step == Step::Continue
                    &&& final(self)@ == (ConnectionView {
                        input: old(self)@.input + data@.take(n as int),
                        ..old(self)@
                    })
                },
                ReadResult::WouldBlock => step == Step::Done(true) && final(self)@ == old(self)@,
                ReadResult::Interrupted => step == Step::Continue && final(self)@ == old(self)@,
                ReadResult::Failed => step == Step::Fail && final(self)@ == old(self)@.disconnect(
                    now,
                ),
            },
    {
        match result {
            ReadResult::Read(n) => {
                if n == 0 {
                    self.handle_disconnect(now);
                    return Step::Done(false);
                }
                let ghost before = self.read_buf@;
                let part = slice_subrange(data, 0, n);
                self.read_buf.extend_from_slice(part);
                proof {
                    assert(self.read_buf@ =~= before + data@.take(n as int));
                }
                Step::Continue
            },
            ReadResult::WouldBlock => Step::Done(true),
            ReadResult::Interrupted => Step::Continue,
            ReadResult::Failed => {
                self.handle_disconnect(now);
                Step::Fail
            },
        }
    }

    /// Try to take a message from the buffer.
    /// Returns None if no complete message is available.
    pub fn try_recv(&mut self) -> (r: Result<Option<Vec<u8>>, String>)
        requires
            old(self).wf(),
        ensures
            final(self).wf(),
            match unframed(old(self)@.input) {
                Ok(Some((message, total))) => {
                    &&& r matches Ok(Some(m)) && m@ == message
                    &&& final(self)@ == (ConnectionView {
                        input: old(self)@.input.skip(total),
                        ..old(self)@
                    })
                },
                Ok(None) => r == Ok::<Option<Vec<u8>>, String>(None) && final(self)@ == old(self)@,
                Err(e) => r matches Err(m) && m@ == e && final(self)@ == old(self)@,
            },
    {
        let (message, total) = match decode(self.read_buf.as_slice()) {
            Ok(Some((payload, total))) => {
                let mut message: Vec<u8> = Vec::new();
                message.extend_from_slice(payload);
                proof {
                    assert(message@ =~= payload@);
                }
                (message, total)
            },
            Ok(None) => {
                return Ok(None);
            },
            Err(e) => {
                return Err(e);
            },
        };
        let ghost before = self.read_buf@;
        let rest = self.read_buf.split_off(total);
        self.read_buf = rest;
        proof {
            assert(self.read_buf@ =~= before.skip(total as int));
        }
        Ok(Some(message))
    }

    /// Queue a message for sending.
    pub fn queue_send(&mut self, json: &[u8])
        requires
            old(self).wf(),
        ensures
            final(self).wf(),
            final(self)@ == (ConnectionView {
                output: old(self)@.output.push(framed(json@)),
                ..old(self)@
            }),
    {
        let ghost before = pieces(self.write_queue@);
        self.write_queue.push_back(encode(json));
        proof {
            assert(pieces(self.write_queue@) =~= before.push(framed(json@)));
        }
    }

    /// Check if there are pending writes.
    pub fn has_pending_writes(&self) -> (r: bool)
        ensures
            r == (self@.output.len() > 0),
    {
        self.write_queue.len() > 0
    }

    /// What is to be written to the socket next.
    pub fn next_write(&self) -> (r: Option<&[u8]>)
        ensures
            match r {
                Some(data) => self@.output.len() > 0 && data@ == self@.output[0],
                None => self@.output.len() == 0,
            },
    {
        if self.write_queue.len() == 0 {
            None
        } else {
            Some(self.write_queue[0].as_slice())
        }
    }

    /// Take in what came of writing `next_write` to the socket. A write of nothing means that the
    /// other side closed the connection. Without a connection nothing is written: what is queued
    /// remains.
    pub fn flush(&mut self, result: WriteResult, now: u64) -> (step: Step)
        requires
            old(self).wf(),
        ensures
            final(self).wf(),
            if old(self)@.output.len() == 0 {
                step == Step::Done(true) && final(self)@ == old(self)@
            } else if !old(self)@.connected {
                step == Step::Done(false) && final(self)@ == old(self)@
            } else {
                match result {
                    WriteResult::Wrote(n) => if n == 0 {
                        step == Step::Done(true) && final(self)@ == old(self)@.disconnect(now)
                    } else {
                        step == Step::Continue && final(self)@ == old(self)@.written(n as int)
                    },
                    WriteResult::WouldBlock => step == Step::Done(false) && final(self)@ == old(
                        self,
                    )@,
                    WriteResult::Interrupted => step == Step::Continue && final(self)@ == old(
                        self,
                    )@,
                    WriteResult::Failed => step == Step::Fail && final(self)@ == old(
                        self,
                    )@.disconnect(now),
                }
            },
    {
        if !self.has_pending_writes() {
            return Step::Done(true);
        }
        if !self.is_connected() {
            return Step::Done(false);
        }
        match result {
            WriteResult::Wrote(n) => {
                if n == 0 {
                    self.handle_disconnect(now);
                    return Step::Done(true);
                }
                let ghost before = pieces(self.write_queue@);
                let ghost queue = self.write_queue@;
                if let Some(mut data) = self.write_queue.pop_front() {
                    let ghost rest = self.write_queue@;
                    proof {
                        assert(data == queue[0]);
                        assert(data@ == before[0]);
                    }
                    if n < data.len() {
                        let left = data.split_off(n);
                        proof {
                            assert(left@ =~= before[0].skip(n as int));
                        }
                        self.write_queue.push_front(left);
                        proof {
                            assert(self.write_queue@ =~= seq![left] + rest);
                            assert(pieces(self.write_queue@) =~= before.update(
                                0,
                                before[0].skip(n as int),
                            ));
                        }
                    } else {
                        proof {
                            assert(pieces(self.write_queue@) =~= before.skip(1));
                        }
                    }
                }
                Step::Continue
            },
            WriteResult::WouldBlock => Step::Done(false),
            WriteResult::Interrupted => Step::Continue,
            WriteResult::Failed => {
                self.handle_disconnect(now);
                Step::Fail
            },
        }
    }

    /// Handle disconnection (clears state, schedules retry).
    pub fn handle_disconnect(&mut self, now: u64)
        ensures
            final(self).wf(),
            final(self)@ == old(self)@.disconnect(now),
    {
        self.state = State::Disconnected;
        self.read_buf.clear();
        self.write_queue.clear();
        proof {
            assert(pieces(self.write_queue@) =~= Seq::empty());
        }
        self.retry_at = Some(now.saturating_add(RETRY_INTERVAL));
    }

    fn schedule_retry(&mut self, now: u64)
        requires
            old(self).wf(),
        ensures
            final(self).wf(),
            final(self)@ == old(self)@.schedule_retry(now),
    {
        self.retry_at = Some(now.saturating_add(RETRY_INTERVAL));
    }
}

// === Laws ===

/// After a connection was lost it is not tried again before the interval has passed, and then it
/// is.
pub proof fn law_retry_after_the_interval(c: ConnectionView, lost: u64, now: u64)
    requires
        lost + RETRY_INTERVAL <= u64::MAX,
    ensures
        c.disconnect(lost).should_retry(now) == (now >= lost + RETRY_INTERVAL),
{
}

/// All that is still to be written.
pub open spec fn output_bytes(output: Seq<Seq<u8>>) -> Seq<u8>
    decreases output.len(),
{
    if output.len() == 0 {
        Seq::empty()
    } else {
        output[0] + output_bytes(output.skip(1))
    }
}

/// Writing takes bytes off the front of the output and keeps all others, in order.
pub proof fn law_output_stays_in_order(c: ConnectionView, n: int)
    requires
        c.output.len() > 0,
        0 <= n <= c.output[0].len(),
    ensures
        output_bytes(c.written(n).output) == output_bytes(c.output).skip(n),
{
    let after = c.written(n).output;
    if n < c.output[0].len() {
        assert(after.skip(1) =~= c.output.skip(1));
        assert(output_bytes(after) =~= output_bytes(c.output).skip(n));
    } else {
        assert(output_bytes(after) =~= output_bytes(c.output).skip(n));
    }
}

} // verus!
