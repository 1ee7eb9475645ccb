//! Blocking-style socket over a cooperative network stack.
//!
//! The stack has no thread of its own: the caller must keep advancing it and
//! report what it observed (bytes delivered, handshake complete, peer close)
//! as events. This machine holds the socket's state and decisions: what each
//! operation returns, in which phase it is valid, and when a polling read
//! should stop — with data, at end of stream, or at the deadline. Received
//! bytes are delivered exactly in arrival order.

use vstd::prelude::*;

verus! {

/// Connection phase of the single socket.
#[derive(Clone, Copy, PartialEq, Eq, Structural, Debug)]
pub enum SocketPhase {
    Idle,
    Opening,
    Established,
    Closed,
}

/// Socket-layer errors; they fail the one fetch attempt and nothing else.
#[derive(Clone, Copy, PartialEq, Eq, Structural, Debug)]
pub enum SocketError {
    ConnectError,
    WriteError,
    FlushError,
}

/// What one polling `read` decided.
pub enum ReadOutcome {
    /// Bytes were available; they are handed over in arrival order.
    Data(Vec<u8>),
    /// Nothing available yet and the deadline has not passed: poll on.
    Empty,
    /// The peer closed the stream and nothing is left to deliver.
    EndOfStream,
    /// The deadline passed with nothing available: stop polling.
    DeadlinePassed,
}

/// The state of the one socket.
pub struct BlockingSocket {
    pub phase: SocketPhase,
    /// Received bytes not yet handed to the caller, in arrival order.
    pub rx: Vec<u8>,
    /// Bytes buffered for transmission, in write order.
    pub tx: Vec<u8>,
    /// Fixed capacity of the transmit buffer.
    pub tx_cap: usize,
    /// The peer has closed its side of the stream.
    pub peer_closed: bool,
    /// Absolute deadline for the current read loop.
    pub deadline: u64,
}

impl BlockingSocket {
    /// The transmit buffer never exceeds its fixed capacity.
    pub open spec fn wf(self) -> bool {
        self.tx.len() <= self.tx_cap
    }

    /// An `open` would be accepted: the socket is idle (or torn down) and
    /// the stack found a route to the remote endpoint.
    pub open spec fn open_ok(self, route_ok: bool) -> bool {
        (self.phase == SocketPhase::Idle || self.phase == SocketPhase::Closed) && route_ok
    }

    /// A fresh socket with a transmit buffer of `tx_cap` bytes.
    pub fn new(tx_cap: usize) -> (s: BlockingSocket)
        ensures
            s.wf(),
            s.phase == SocketPhase::Idle,
            s.rx@ == Seq::<u8>::empty(),
            s.tx@ == Seq::<u8>::empty(),
            s.tx_cap == tx_cap,
            !s.peer_closed,
            s.deadline == 0,
    {
        BlockingSocket {
            phase: SocketPhase::Idle,
            rx: Vec::new(),
            tx: Vec::new(),
            tx_cap,
            peer_closed: false,
            deadline: 0,
        }
    }

    /// Asks for a connection. `route_ok` is the stack's verdict on the
    /// remote address. Succeeds, and enters the handshake, if and only if
    /// the socket is idle and the verdict is positive; the caller must keep
    /// advancing the stack for the handshake to complete.
    pub fn open(&mut self, route_ok: bool) -> (r: Result<(), SocketError>)
        requires
            old(self).wf(),
        ensures
            final(self).wf(),
            r is Ok <==> old(self).open_ok(route_ok),
            old(self).open_ok(route_ok) ==> *final(self) == (BlockingSocket {
                phase: SocketPhase::Opening,
                rx: final(self).rx,
                tx: final(self).tx,
                peer_closed: false,
                ..*old(self)
            }) && final(self).rx@ == Seq::<u8>::empty() && final(self).tx@ == Seq::<u8>::empty(),
            !old(self).open_ok(route_ok) ==> *final(self) == *old(self) && r == Result::<
                (),
                SocketError,
            >::Err(SocketError::ConnectError),
    {
        let idle = match self.phase {
            SocketPhase::Idle => true,
            SocketPhase::Closed => true,
            _ => false,
        };
        if idle && route_ok {
            self.phase = SocketPhase::Opening;
            self.rx = Vec::new();
            self.tx = Vec::new();
            self.peer_closed = false;
            Ok(())
        } else {
            Err(SocketError::ConnectError)
        }
    }

    /// The stack reports the handshake complete.
    pub fn on_established(&mut self)
        requires
            old(self).wf(),
            old(self).phase == SocketPhase::Opening,
        ensures
            final(self).wf(),
            *final(self) == (BlockingSocket { phase: SocketPhase::Established, ..*old(self) }),
    {
        self.phase = SocketPhase::Established;
    }

    /// Buffers bytes for transmission, keeping their order. Succeeds if and
    /// only if the connection is established and the transmit buffer can
    /// accept all of them; on failure nothing changes.
    pub fn write(&mut self, data: &[u8]) -> (r: Result<usize, SocketError>)
        requires
            old(self).wf(),
        ensures
            final(self).wf(),
            r is Ok <==> (old(self).phase == SocketPhase::Established && old(self).tx@.len()
                + data@.len() <= old(self).tx_cap),
            r is Ok ==> final(self).tx@ == old(self).tx@ + data@ && r == Result::<
                usize,
                SocketError,
            >::Ok(data@.len() as usize) && *final(self) == (BlockingSocket {
                tx: final(self).tx,
                ..*old(self)
            }),
            r is Err ==> *final(self) == *old(self) && r == Result::<usize, SocketError>::Err(
                SocketError::WriteError,
            ),
    {
        let established = match self.phase {
            SocketPhase::Established => true,
            _ => false,
        };
        if !established {
            return Err(SocketError::WriteError);
        }
        if data.len() > self.tx_cap - self.tx.len() {
            return Err(SocketError::WriteError);
        }
        let mut i: usize = 0;
        while i < data.len()
            invariant
                i <= data@.len(),
                self.tx@ == old(self).tx@ + data@.take(i as int),
                self.tx@.len() <= self.tx_cap,
                old(self).tx@.len() + data@.len() <= self.tx_cap,
                self.tx_cap == old(self).tx_cap,
                self.phase == old(self).phase,
                self.rx == old(self).rx,
                self.peer_closed == old(self).peer_closed,
                self.deadline == old(self).deadline,
            decreases data@.len() - i,
        {
            self.tx.push(data[i]);
            proof {
                assert(self.tx@ =~= old(self).tx@ + data@.take(i + 1));
            }
            i += 1;
        }
        proof {
            assert(data@.take(data@.len() as int) =~= data@);
        }
        Ok(data.len())
    }

    /// Hands the buffered bytes to the stack for transmission, in order,
    /// emptying the buffer. Succeeds if and only if the connection is
    /// established; on a closed (or never opened) connection nothing
    /// changes.
    pub fn flush(&mut self) -> (r: Result<Vec<u8>, SocketError>)
        requires
            old(self).wf(),
        ensures
            final(self).wf(),
            r is Ok <==> old(self).phase == SocketPhase::Established,
            r is Ok ==> (r matches Result::Ok(out) && out@ == old(self).tx@) && final(self).tx@
                == Seq::<u8>::empty() && *final(self) == (BlockingSocket {
                tx: final(self).tx,
                ..*old(self)
            }),
            r is Err ==> *final(self) == *old(self) && r == Result::<Vec<u8>, SocketError>::Err(
                SocketError::FlushError,
            ),
    {
        let established = match self.phase {
            SocketPhase::Established => true,
            _ => false,
        };
        if !established {
            return Err(SocketError::FlushError);
        }
        let mut out: Vec<u8> = Vec::new();
        core::mem::swap(&mut out, &mut self.tx);
        Ok(out)
    }

    /// The stack delivered received bytes: they join the receive buffer
    /// behind everything already there — arrival order, nothing reordered,
    /// nothing dropped.
    pub fn on_data(&mut self, data: &[u8])
        requires
            old(self).wf(),
            old(self).phase == SocketPhase::Established,
        ensures
            final(self).wf(),
            final(self).rx@ == old(self).rx@ + data@,
            *final(self) == (BlockingSocket { rx: final(self).rx, ..*old(self) }),
    {
        let mut i: usize = 0;
        while i < data.len()
            invariant
                i <= data@.len(),
                self.rx@ == old(self).rx@ + data@.take(i as int),
                self.tx == old(self).tx,
                self.tx_cap == old(self).tx_cap,
                self.phase == old(self).phase,
                self.peer_closed == old(self).peer_closed,
                self.deadline == old(self).deadline,
            decreases data@.len() - i,
        {
            self.rx.push(data[i]);
            proof {
                assert(self.rx@ =~= old(self).rx@ + data@.take(i + 1));
            }
            i += 1;
        }
        proof {
            assert(data@.take(data@.len() as int) =~= data@);
        }
    }

    /// The stack observed the peer closing its side of the stream.
    pub fn on_peer_closed(&mut self)
        requires
            old(self).wf(),
            old(self).phase == SocketPhase::Established,
        ensures
            final(self).wf(),
            *final(self) == (BlockingSocket { peer_closed: true, ..*old(self) }),
    {
        self.peer_closed = true;
    }

    /// Arms the deadline for the read loop that follows.
    pub fn set_deadline(&mut self, t: u64)
        requires
            old(self).wf(),
        ensures
            final(self).wf(),
            *final(self) == (BlockingSocket { deadline: t, ..*old(self) }),
    {
        self.deadline = t;
    }

    /// One polling read at time `now`, delivering at most `max` bytes. It
    /// never blocks: with bytes buffered it hands over the oldest ones; with
    /// nothing buffered it reports end of stream if the peer closed, tells
    /// the caller to stop once `now` has passed the deadline, and otherwise
    /// returns zero bytes without error so the caller can advance the stack
    /// and poll again.
    pub fn read(&mut self, max: usize, now: u64) -> (out: ReadOutcome)
        requires
            old(self).wf(),
            old(self).phase == SocketPhase::Established,
            max >= 1,
        ensures
            final(self).wf(),
            *final(self) == (BlockingSocket { rx: final(self).rx, ..*old(self) }),
            old(self).rx@.len() > 0 ==> (out matches ReadOutcome::Data(d) && d@
                == old(self).rx@.take(if max <= old(self).rx@.len() {
                max as int
            } else {
                old(self).rx@.len() as int
            }) && final(self).rx@ == old(self).rx@.skip(if max <= old(self).rx@.len() {
                max as int
            } else {
                old(self).rx@.len() as int
            })),
            old(self).rx@.len() == 0 ==> final(self).rx@ == old(self).rx@,
            old(self).rx@.len() == 0 && old(self).peer_closed ==> out
                == ReadOutcome::EndOfStream,
            old(self).rx@.len() == 0 && !old(self).peer_closed && now > old(self).deadline
                ==> out == ReadOutcome::DeadlinePassed,
            old(self).rx@.len() == 0 && !old(self).peer_closed && now <= old(self).deadline
                ==> out == ReadOutcome::Empty,
    {
        if self.rx.len() > 0 {
            let n: usize = if max <= self.rx.len() {
                max
            } else {
                self.rx.len()
            };
            let mut d: Vec<u8> = Vec::new();
            let mut i: usize = 0;
            while i < n
                invariant
                    i <= n,
                    n <= self.rx@.len(),
                    d@ == self.rx@.take(i as int),
                    self == old(self),
                decreases n - i,
            {
                d.push(self.rx[i]);
                proof {
                    assert(d@ =~= self.rx@.take(i + 1));
                }
                i += 1;
            }
            let mut rest: Vec<u8> = Vec::new();
            let mut j: usize = n;
            while j < self.rx.len()
                invariant
                    n <= j <= self.rx@.len(),
                    rest@ == self.rx@.subrange(n as int, j as int),
                    self == old(self),
                decreases self.rx@.len() - j,
            {
                rest.push(self.rx[j]);
                proof {
                    assert(rest@ =~= self.rx@.subrange(n as int, j + 1));
                }
                j += 1;
            }
            proof {
                assert(rest@ =~= self.rx@.skip(n as int));
            }
            self.rx = rest;
            ReadOutcome::Data(d)
        } else if self.peer_closed {
            ReadOutcome::EndOfStream
        } else if now > self.deadline {
            ReadOutcome::DeadlinePassed
        } else {
            ReadOutcome::Empty
        }
    }

    /// Initiates teardown; every operation but a fresh `open` is invalid
    /// afterwards, and both buffers are dropped.
    pub fn disconnect(&mut self)
        requires
            old(self).wf(),
        ensures
            final(self).wf(),
            final(self).phase == SocketPhase::Closed,
            final(self).rx@ == Seq::<u8>::empty(),
            final(self).tx@ == Seq::<u8>::empty(),
            final(self).tx_cap == old(self).tx_cap,
    {
        self.phase = SocketPhase::Closed;
        self.rx = Vec::new();
        self.tx = Vec::new();
    }
}

} // verus!
