use vstd::prelude::*;

use crate::protocol::IRCString;

verus! {

/// One framed line received from a connection, without its terminator.
/// `time` is the receipt time in milliseconds of the server's monotonic clock.
#[derive(Clone, Debug)]
pub struct MessageIn {
    pub time: u64,
    pub data: IRCString,
}

/// One framed line to send, terminator included, with the latest time
/// (milliseconds of the server's monotonic clock) by which it must be written.
#[derive(Clone, Debug)]
pub struct MessageOut {
    pub deadline: u64,
    pub data: IRCString,
}

/// Largest number of bytes a line may hold, its terminator included.
pub const MAX_LINE: usize = 512;

pub open spec fn ends_crlf(p: Seq<u8>) -> bool {
    p.len() >= 2 && p[p.len() - 2] == 13u8 && p[p.len() - 1] == 10u8
}

/// What reading `chunk` does to the partial line `pending`: the partial line
/// left over, the complete lines found (terminators removed), and whether a
/// line grew past `MAX_LINE` bytes, which ends reading there.
pub open spec fn feed_spec(pending: Seq<u8>, chunk: Seq<u8>) -> (Seq<u8>, Seq<Seq<u8>>, bool)
    decreases chunk.len(),
{
    if chunk.len() == 0 {
        (pending, seq![], false)
    } else {
        let p = pending.push(chunk[0]);
        if p.len() > MAX_LINE {
            (p, seq![], true)
        } else if ends_crlf(p) {
            let rest = feed_spec(seq![], chunk.drop_first());
            (rest.0, seq![p.subrange(0, p.len() - 2)] + rest.1, rest.2)
        } else {
            feed_spec(p, chunk.drop_first())
        }
    }
}

/// No line ends (with CR LF) after more than `p.len()` bytes and at most
/// `MAX_LINE + 1` bytes of `s`.
pub open spec fn no_end_before_limit(p: Seq<u8>, s: Seq<u8>) -> bool {
    forall|k: int| p.len() < k <= MAX_LINE + 1 ==> !ends_crlf(#[trigger] s.subrange(0, k))
}

/// A line whose bytes, before any terminator, run past `MAX_LINE` is never
/// handed out: reading ends with the error, and no line comes from it.
pub proof fn lemma_overlong_line(p: Seq<u8>, c: Seq<u8>)
    requires
        p.len() <= MAX_LINE,
        p.len() + c.len() > MAX_LINE,
        no_end_before_limit(p, p + c),
    ensures
        feed_spec(p, c).1 == Seq::<Seq<u8>>::empty(),
        feed_spec(p, c).2,
    decreases c.len(),
{
    let q = p.push(c[0]);
    assert(q =~= (p + c).subrange(0, p.len() as int + 1));
    if q.len() <= MAX_LINE {
        assert(!ends_crlf(q));
        let c2 = c.drop_first();
        assert(q + c2 =~= p + c);
        assert forall|k: int| q.len() < k <= MAX_LINE + 1 implies !ends_crlf(#[trigger] (q + c2).subrange(0, k)) by {
            assert((q + c2).subrange(0, k) == (p + c).subrange(0, k));
        }
        lemma_overlong_line(q, c2);
    }
}

/// Reading two chunks one after the other gives what reading them as one
/// chunk gives, as long as the first does not end reading: the lines of
/// the first, then those of the second, read on from the partial line the
/// first left.
pub proof fn lemma_feed_concat(p: Seq<u8>, a: Seq<u8>, b: Seq<u8>)
    requires
        !feed_spec(p, a).2,
    ensures
        feed_spec(p, a + b) == (
            feed_spec(feed_spec(p, a).0, b).0,
            feed_spec(p, a).1 + feed_spec(feed_spec(p, a).0, b).1,
            feed_spec(feed_spec(p, a).0, b).2,
        ),
    decreases a.len(),
{
    if a.len() == 0 {
        assert(a + b =~= b);
        assert(feed_spec(p, a).1 + feed_spec(p, b).1 =~= feed_spec(p, b).1);
    } else {
        let q = p.push(a[0]);
        assert((a + b).drop_first() =~= a.drop_first() + b);
        assert((a + b)[0] == a[0]);
        if ends_crlf(q) {
            lemma_feed_concat(seq![], a.drop_first(), b);
            let line = q.subrange(0, q.len() - 2);
            let r1 = feed_spec(seq![], a.drop_first());
            let r2 = feed_spec(r1.0, b);
            assert(seq![line] + r1.1 + r2.1 =~= seq![line] + (r1.1 + r2.1));
        } else {
            lemma_feed_concat(q, a.drop_first(), b);
        }
    }
}

/// Why a connection's reading stopped.
#[derive(Clone, Copy, Debug, PartialEq, Eq, Structural)]
pub enum FrameError {
    LineTooLong,
}

/// Cuts a byte stream into lines at each CR LF.
pub struct LineReader {
    pub pending: Vec<u8>,
}

pub open spec fn lines_view(ls: Seq<MessageIn>) -> Seq<Seq<u8>> {
    ls.map_values(|m: MessageIn| m.data@)
}

impl LineReader {
    pub open spec fn wf(&self) -> bool {
        self.pending@.len() <= MAX_LINE
    }

    pub fn new() -> (r: LineReader)
        ensures
            r.pending@ == Seq::<u8>::empty(),
            r.wf(),
    {
        LineReader { pending: Vec::new() }
    }

    /// Takes in the next bytes read. Returns the lines they complete, each
    /// stamped with `time`, and, when a line grew too long, the error that
    /// ends reading (the lines found before it are still returned).
    pub fn feed(&mut self, chunk: &[u8], time: u64) -> (r: (Vec<MessageIn>, Option<FrameError>))
        requires
            old(self).wf(),
        ensures
            ({
                let spec_r = feed_spec(old(self).pending@, chunk@);
                &&& lines_view(r.0@) == spec_r.1
                &&& r.1.is_some() == spec_r.2
                &&& !spec_r.2 ==> final(self).pending@ == spec_r.0
                &&& final(self).wf()
            }),
            forall|i: int| 0 <= i < r.0@.len() ==> (#[trigger] r.0@[i]).time == time,
    {
        let mut out: Vec<MessageIn> = Vec::new();
        let n = chunk.len();
        let mut i: usize = 0;
        let ghost total = feed_spec(self.pending@, chunk@);
        assert(chunk@.subrange(0, n as int) =~= chunk@);
        loop
            invariant_except_break
                ({
                    let here = feed_spec(self.pending@, chunk@.subrange(i as int, n as int));
                    &&& lines_view(out@) + here.1 == total.1
                    &&& here.0 == total.0
                    &&& here.2 == total.2
                }),
            invariant
                n == chunk@.len(),
                i <= n,
                self.wf(),
                forall|k: int| 0 <= k < out@.len() ==> (#[trigger] out@[k]).time == time,
            ensures
                lines_view(out@) == total.1,
                (i < n) == total.2,
                i == n ==> self.pending@ == total.0,
            decreases n - i,
        {
            let ghost rest = chunk@.subrange(i as int, n as int);
            let ghost before = lines_view(out@);
            if i >= n {
                assert(rest.len() == 0);
                assert(before + seq![] =~= before);
                break;
            }
            let ghost p = self.pending@.push(chunk@[i as int]);
            assert(rest.drop_first() =~= chunk@.subrange(i + 1, n as int));
            self.pending.push(chunk[i]);
            let len = self.pending.len();
            if len > MAX_LINE {
                assert(before + seq![] =~= before);
                self.pending.clear();
                break;
            }
            if len >= 2 && self.pending[len - 2] == 13 && self.pending[len - 1] == 10 {
                self.pending.pop();
                self.pending.pop();
                let line = self.pending.split_off(0);
                assert(line@ =~= p.subrange(0, p.len() - 2));
                out.push(MessageIn { time, data: IRCString::new(line) });
                assert(lines_view(out@) =~= before.push(line@));
                assert(before + seq![line@] + feed_spec(seq![], rest.drop_first()).1 =~= before + (seq![line@] + feed_spec(seq![], rest.drop_first()).1));
                assert(self.pending@ =~= Seq::<u8>::empty());
            }
            i = i + 1;
        }
        (out, if i < n { Some(FrameError::LineTooLong) } else { None })
    }
}

/// What the writing side of a connection does next.
#[derive(Clone, Copy, Debug, PartialEq, Eq, Structural)]
pub enum WriteStep {
    /// The outbound queue is closed and nothing is buffered: stop.
    Stop,
    /// Write the whole buffer now.
    Flush,
    /// Nothing is buffered: wait for the next message or the queue's closing.
    WaitForMessage,
    /// Wait for the next message, the queue's closing, or this deadline.
    WaitUntil(u64),
}

/// The outbound buffer of a connection: bytes queued for one write, and the
/// earliest deadline among the messages they came from.
pub struct WriteBuffer {
    pub pending: Vec<u8>,
    pub send_at: Option<u64>,
    pub closed: bool,
}

pub open spec fn min_deadline(a: Option<u64>, d: u64) -> u64 {
    match a {
        Some(x) => if x <= d { x } else { d },
        None => d,
    }
}

impl WriteBuffer {
    /// Bytes are buffered only under a deadline.
    pub open spec fn wf(&self) -> bool {
        self.send_at.is_none() ==> self.pending@.len() == 0
    }

    pub fn new() -> (r: WriteBuffer)
        ensures
            r.wf(),
            r.pending@.len() == 0,
            r.send_at.is_none(),
            !r.closed,
    {
        WriteBuffer { pending: Vec::new(), send_at: None, closed: false }
    }

    /// The next thing to do at time `now`: idle when no deadline is set,
    /// flush once the deadline has passed or the queue has closed, else wait.
    pub fn step(&self, now: u64) -> (r: WriteStep)
        ensures
            r == match self.send_at {
                None => if self.closed { WriteStep::Stop } else { WriteStep::WaitForMessage },
                Some(sa) => if self.closed || sa <= now { WriteStep::Flush } else { WriteStep::WaitUntil(sa) },
            },
    {
        match self.send_at {
            None => if self.closed { WriteStep::Stop } else { WriteStep::WaitForMessage },
            Some(sa) => if self.closed || sa <= now { WriteStep::Flush } else { WriteStep::WaitUntil(sa) },
        }
    }

    /// Queues a message: its bytes join the buffer and the deadline becomes
    /// the earlier of the current one and the message's.
    pub fn push(&mut self, msg: MessageOut)
        requires
            old(self).wf(),
        ensures
            final(self).wf(),
            final(self).pending@ == old(self).pending@ + msg.data@,
            final(self).send_at == Some(min_deadline(old(self).send_at, msg.deadline)),
            final(self).closed == old(self).closed,
    {
        let d = match self.send_at {
            Some(x) => if x <= msg.deadline { x } else { msg.deadline },
            None => msg.deadline,
        };
        let mut data = msg.data.bytes;
        self.pending.append(&mut data);
        self.send_at = Some(d);
    }

    /// Notes that no more messages will come.
    pub fn close(&mut self)
        requires
            old(self).wf(),
        ensures
            final(self).wf(),
            final(self).pending@ == old(self).pending@,
            final(self).send_at == old(self).send_at,
            final(self).closed,
    {
        self.closed = true;
    }

    /// Hands out the buffered bytes for one write and returns to idle.
    pub fn take(&mut self) -> (r: Vec<u8>)
        ensures
            r@ == old(self).pending@,
            final(self).wf(),
            final(self).pending@.len() == 0,
            final(self).send_at.is_none(),
            final(self).closed == old(self).closed,
    {
        self.send_at = None;
        self.pending.split_off(0)
    }
}

} // verus!
