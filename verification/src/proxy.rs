//! The proxy event-loop state machine: four readiness flags, the pending
//! DATA payload counter and the termination flag, with the scheduling and
//! failure-handling decisions the loop takes on them.
use vstd::prelude::*;

verus! {

/// The loop state. Readiness flags are set by multiplexer events and
/// cleared only when the matching operation reports it would block.
pub struct ProxyState {
    /// The network stream has (or may have) bytes to read.
    pub tcp_readable: bool,
    /// The network stream can (or may) accept bytes.
    pub tcp_writable: bool,
    /// The terminal has (or may have) bytes to read.
    pub pty_readable: bool,
    /// The terminal can (or may) accept bytes.
    pub pty_writable: bool,
    /// Payload bytes of the DATA message currently mid-forward; zero when
    /// no DATA message is being forwarded.
    pub remaining: usize,
    /// Termination has been requested; the loop drains and stops.
    pub finished: bool,
}

impl ProxyState {
    /// Initial state: optimistically ready on all four sides so the loop
    /// attempts I/O at once, no payload mid-forward, not terminated.
    pub fn new() -> (s: ProxyState)
        ensures
            s.tcp_readable && s.tcp_writable && s.pty_readable && s.pty_writable,
            s.remaining == 0,
            !s.finished,
    {
        ProxyState {
            tcp_readable: true,
            tcp_writable: true,
            pty_readable: true,
            pty_writable: true,
            remaining: 0,
            finished: false,
        }
    }

    /// Whether the multiplexer should be polled without blocking: true
    /// exactly when some readable side still has room in its target buffer,
    /// so there is useful work to do before waiting.
    pub fn poll_immediately(&self, net_buf_full: bool, term_buf_full: bool) -> (r: bool)
        ensures
            r == ((self.tcp_readable && !net_buf_full) || (self.pty_readable && !term_buf_full)),
    {
        (self.tcp_readable && !net_buf_full) || (self.pty_readable && !term_buf_full)
    }

    /// Applies one multiplexer event: readiness bits only ever set flags,
    /// and a closed read side requests termination.
    pub fn apply_event(&mut self, is_tcp: bool, readable: bool, writable: bool, read_closed: bool)
        ensures
            final(self).finished == (old(self).finished || read_closed),
            final(self).remaining == old(self).remaining,
            final(self).tcp_readable == (old(self).tcp_readable || (is_tcp && readable)),
            final(self).tcp_writable == (old(self).tcp_writable || (is_tcp && writable)),
            final(self).pty_readable == (old(self).pty_readable || (!is_tcp && readable)),
            final(self).pty_writable == (old(self).pty_writable || (!is_tcp && writable)),
    {
        if read_closed {
            self.finished = true;
        }
        if is_tcp {
            if readable {
                self.tcp_readable = true;
            }
            if writable {
                self.tcp_writable = true;
            }
        } else {
            if readable {
                self.pty_readable = true;
            }
            if writable {
                self.pty_writable = true;
            }
        }
    }

    /// An operation reported it would block: clear exactly that flag and
    /// defer until the multiplexer signals readiness again.
    pub fn would_block(&mut self, is_tcp: bool, is_read: bool)
        ensures
            final(self).finished == old(self).finished,
            final(self).remaining == old(self).remaining,
            final(self).tcp_readable == (old(self).tcp_readable && !(is_tcp && is_read)),
            final(self).tcp_writable == (old(self).tcp_writable && !(is_tcp && !is_read)),
            final(self).pty_readable == (old(self).pty_readable && !(!is_tcp && is_read)),
            final(self).pty_writable == (old(self).pty_writable && !(!is_tcp && !is_read)),
    {
        if is_tcp {
            if is_read {
                self.tcp_readable = false;
            } else {
                self.tcp_writable = false;
            }
        } else {
            if is_read {
                self.pty_readable = false;
            } else {
                self.pty_writable = false;
            }
        }
    }

    /// A zero-byte read: the source closed, termination begins (buffered
    /// data already read is still drained).
    pub fn peer_closed(&mut self)
        ensures
            final(self).finished,
            final(self).remaining == old(self).remaining,
            final(self).tcp_readable == old(self).tcp_readable,
            final(self).tcp_writable == old(self).tcp_writable,
            final(self).pty_readable == old(self).pty_readable,
            final(self).pty_writable == old(self).pty_writable,
    {
        self.finished = true;
    }

    /// An I/O failure other than would-block is fatal exactly while
    /// termination has not been requested; afterwards it is tolerated as an
    /// artifact of shutdown.
    pub fn error_is_fatal(&self) -> (r: bool)
        ensures
            r == !self.finished,
    {
        !self.finished
    }

    /// Starts forwarding the payload of a DATA message of length `len`.
    pub fn begin_data(&mut self, len: usize)
        requires
            old(self).remaining == 0,
        ensures
            final(self).remaining == len,
            final(self).finished == old(self).finished,
            final(self).tcp_readable == old(self).tcp_readable,
            final(self).tcp_writable == old(self).tcp_writable,
            final(self).pty_readable == old(self).pty_readable,
            final(self).pty_writable == old(self).pty_writable,
    {
        self.remaining = len;
    }

    /// How many bytes to hand the terminal now: what is buffered, but never
    /// more than the current message's outstanding payload.
    pub fn chunk_len(&self, buffered: usize) -> (n: usize)
        ensures
            n == if self.remaining <= buffered { self.remaining } else { buffered },
            n <= self.remaining,
            n <= buffered,
    {
        if self.remaining <= buffered {
            self.remaining
        } else {
            buffered
        }
    }

    /// Accounts for a (possibly partial) payload write of `n` bytes.
    pub fn forwarded(&mut self, n: usize)
        requires
            n <= old(self).remaining,
        ensures
            final(self).remaining == old(self).remaining - n,
            final(self).finished == old(self).finished,
            final(self).tcp_readable == old(self).tcp_readable,
            final(self).tcp_writable == old(self).tcp_writable,
            final(self).pty_readable == old(self).pty_readable,
            final(self).pty_writable == old(self).pty_writable,
    {
        self.remaining = self.remaining - n;
    }
}

/// The wait passed to a timed poll: the time left until the deadline,
/// clamped at zero so a late pass never yields a negative wait.
pub fn remaining_wait(elapsed_ms: u64, timeout_ms: u64) -> (r: u64)
    ensures
        r == if elapsed_ms >= timeout_ms { 0u64 } else { (timeout_ms - elapsed_ms) as u64 },
{
    if elapsed_ms >= timeout_ms {
        0
    } else {
        timeout_ms - elapsed_ms
    }
}

/// Whether a deadline-bound phase has run out of time.
pub fn deadline_passed(elapsed_ms: u64, timeout_ms: u64) -> (r: bool)
    ensures
        r == (elapsed_ms > timeout_ms),
{
    elapsed_ms > timeout_ms
}

} // verus!
