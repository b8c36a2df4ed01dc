//! Reliable write: the whole buffer reaches the transport, in order, however
//! the transport cuts it up.

use vstd::prelude::*;
use vstd::slice::slice_subrange;
use crate::outcome::Outcome;

verus! {

/// A write in progress: the buffer and how much of it the transport has
/// accepted so far. While a `Sender` exists, something is still pending.
pub struct Sender<'a> {
    bytes: &'a [u8],
    written: usize,
}

/// What the driver of a write has to do next.
pub enum SendStep<'a, E> {
    /// Wait until the transport is writable, offer it `pending()`, and hand
    /// the outcome to `record`.
    Attempt(Sender<'a>),
    /// Every byte was accepted: the write succeeded.
    Done,
    /// The transport failed; the write ends with this error. The transport may
    /// have received a prefix of the buffer.
    Failed(E),
}

/// The position of a write, without the buffer.
pub enum SendPhase<E> {
    /// Another attempt is due; this many bytes were accepted so far.
    Attempt(nat),
    Done,
    Failed(E),
}

/// Where a write of `len` bytes starts: nothing is attempted for an empty buffer.
pub open spec fn send_begin<E>(len: nat) -> SendPhase<E> {
    if len == 0 {
        SendPhase::Done
    } else {
        SendPhase::Attempt(0)
    }
}

/// Where a write of `len` bytes stands after an attempt at `cursor` ended in
/// `outcome`. Progress moves the cursor, a false wake leaves it, and any other
/// failure ends the write.
pub open spec fn send_next<E>(len: nat, cursor: nat, outcome: Outcome<E>) -> SendPhase<E> {
    match outcome {
        Outcome::Transferred(n) => if cursor + n >= len {
            SendPhase::Done
        } else {
            SendPhase::Attempt((cursor + n) as nat)
        },
        Outcome::WouldBlock => SendPhase::Attempt(cursor),
        Outcome::Failed(e) => SendPhase::Failed(e),
    }
}

impl<'a> Sender<'a> {
    #[verifier::type_invariant]
    spec fn pending_is_nonempty(self) -> bool {
        self.written < self.bytes@.len()
    }

    /// The whole buffer being written.
    pub closed spec fn buffer(self) -> Seq<u8> {
        self.bytes@
    }

    /// How many bytes of the buffer the transport has accepted.
    pub closed spec fn cursor(self) -> nat {
        self.written as nat
    }

    /// The number of bytes accepted so far.
    pub fn written(&self) -> (n: usize)
        ensures
            n == self.cursor(),
            n < self.buffer().len(),
    {
        proof {
            use_type_invariant(self);
        }
        self.written
    }

    /// The part of the buffer that the next attempt has to offer: everything
    /// behind the cursor, never empty.
    pub fn pending(&self) -> (rest: &'a [u8])
        ensures
            self.cursor() < self.buffer().len(),
            rest@ == self.buffer().skip(self.cursor() as int),
    {
        proof {
            use_type_invariant(self);
        }
        slice_subrange(self.bytes, self.written, self.bytes.len())
    }

    /// Takes the outcome of the attempt on `pending()` and decides how the
    /// write goes on.
    pub fn record<E>(self, outcome: Outcome<E>) -> (step: SendStep<'a, E>)
        ensures
            step.phase() == send_next(self.buffer().len(), self.cursor(), outcome),
            step matches SendStep::Attempt(tx) ==> tx.buffer() == self.buffer(),
    {
        proof {
            use_type_invariant(&self);
        }
        match outcome {
            Outcome::Transferred(n) => {
                if n >= self.bytes.len() - self.written {
                    SendStep::Done
                } else {
                    SendStep::Attempt(Sender { bytes: self.bytes, written: self.written + n })
                }
            },
            Outcome::WouldBlock => SendStep::Attempt(self),
            Outcome::Failed(e) => SendStep::Failed(e),
        }
    }
}

impl<'a, E> SendStep<'a, E> {
    /// The position that this step stands for.
    pub open spec fn phase(self) -> SendPhase<E> {
        match self {
            SendStep::Attempt(tx) => SendPhase::Attempt(tx.cursor()),
            SendStep::Done => SendPhase::Done,
            SendStep::Failed(e) => SendPhase::Failed(e),
        }
    }
}

/// Starts writing `bytes`. An empty buffer is done before any attempt.
pub fn begin<'a, E>(bytes: &'a [u8]) -> (step: SendStep<'a, E>)
    ensures
        step.phase() == send_begin::<E>(bytes@.len()),
        step matches SendStep::Attempt(tx) ==> tx.buffer() == bytes@,
{
    if bytes.len() == 0 {
        SendStep::Done
    } else {
        SendStep::Attempt(Sender { bytes, written: 0 })
    }
}

/// The bytes that the transport took in an attempt at `cursor` that ended in
/// `outcome`: the first bytes of what it was offered, as many as it reported.
/// It is offered no more than the rest of the buffer, so a larger count
/// stands for all of the rest.
pub open spec fn taken<E>(buf: Seq<u8>, cursor: nat, outcome: Outcome<E>) -> Seq<u8> {
    match outcome {
        Outcome::Transferred(n) => if cursor + n >= buf.len() {
            buf.skip(cursor as int)
        } else {
            buf.subrange(cursor as int, cursor + n)
        },
        _ => Seq::empty(),
    }
}

/// A write as seen from outside, after some attempts.
pub struct SendRun<E> {
    /// Where the write stands.
    pub phase: SendPhase<E>,
    /// How many attempts were made on the transport.
    pub attempts: nat,
    /// Everything the transport took, in the order in which it took it.
    pub delivered: Seq<u8>,
}

/// Drives a write of `buf` from `phase` against a transport whose successive
/// attempts end as `script` says. The run stops when the write is done or has
/// failed, or when the script is used up.
pub open spec fn send_run<E>(buf: Seq<u8>, phase: SendPhase<E>, script: Seq<Outcome<E>>) -> SendRun<E>
    decreases script.len(),
{
    match phase {
        SendPhase::Attempt(cursor) if script.len() > 0 => {
            let rest = send_run(buf, send_next(buf.len(), cursor, script[0]), script.drop_first());
            SendRun {
                phase: rest.phase,
                attempts: rest.attempts + 1,
                delivered: taken(buf, cursor, script[0]) + rest.delivered,
            }
        },
        _ => SendRun { phase, attempts: 0, delivered: Seq::empty() },
    }
}

/// What the transport received in all when each buffer of `bufs` was written
/// in turn, the attempts for the buffer at index `i` ending as `scripts[i]` says.
pub open spec fn send_all<E>(bufs: Seq<Seq<u8>>, scripts: Seq<Seq<Outcome<E>>>) -> Seq<u8>
    decreases bufs.len(),
{
    if bufs.len() == 0 || scripts.len() == 0 {
        Seq::empty()
    } else {
        send_run(bufs[0], send_begin(bufs[0].len()), scripts[0]).delivered + send_all(
            bufs.drop_first(),
            scripts.drop_first(),
        )
    }
}

proof fn lemma_run_from_cursor<E>(buf: Seq<u8>, cursor: nat, script: Seq<Outcome<E>>)
    requires
        cursor < buf.len(),
    ensures
        ({
            let run = send_run(buf, SendPhase::Attempt(cursor), script);
            &&& cursor + run.delivered.len() <= buf.len()
            &&& run.delivered == buf.subrange(cursor as int, (cursor + run.delivered.len()) as int)
            &&& run.phase is Done ==> cursor + run.delivered.len() == buf.len()
            &&& run.phase matches SendPhase::Attempt(c) ==> c == cursor + run.delivered.len() && c
                < buf.len()
            &&& run.attempts <= script.len()
        }),
    decreases script.len(),
{
    let run = send_run(buf, SendPhase::Attempt(cursor), script);
    if script.len() > 0 {
        let next = send_next(buf.len(), cursor, script[0]);
        let rest = send_run(buf, next, script.drop_first());
        let head = taken(buf, cursor, script[0]);
        match next {
            SendPhase::Attempt(c) => {
                lemma_run_from_cursor(buf, c, script.drop_first());
                assert(head == buf.subrange(cursor as int, c as int));
                assert(run.delivered =~= buf.subrange(
                    cursor as int,
                    (cursor + run.delivered.len()) as int,
                ));
            },
            SendPhase::Done => {
                assert(rest.delivered.len() == 0);
                assert(run.delivered =~= buf.subrange(cursor as int, buf.len() as int));
            },
            SendPhase::Failed(_) => {
                assert(run.delivered =~= buf.subrange(cursor as int, cursor as int));
            },
        }
    } else {
        assert(run.delivered =~= buf.subrange(cursor as int, cursor as int));
    }
}

/// Whatever sizes the transport accepts, false wakes and empty accepts
/// included, it receives a prefix of the buffer, byte for byte and in order;
/// a write still under way has delivered exactly what lies before its cursor,
/// and a write that is done has delivered exactly the buffer.
pub proof fn send_delivers_in_order<E>(buf: Seq<u8>, script: Seq<Outcome<E>>)
    ensures
        ({
            let run = send_run(buf, send_begin(buf.len()), script);
            &&& run.delivered.len() <= buf.len()
            &&& run.delivered == buf.take(run.delivered.len() as int)
            &&& run.phase matches SendPhase::Attempt(c) ==> c == run.delivered.len()
            &&& run.phase is Done ==> run.delivered == buf
            &&& run.attempts <= script.len()
        }),
{
    let run = send_run(buf, send_begin(buf.len()), script);
    if buf.len() > 0 {
        lemma_run_from_cursor(buf, 0, script);
        assert(run.delivered =~= buf.take(run.delivered.len() as int));
        if run.phase is Done {
            assert(run.delivered =~= buf);
        }
    } else {
        assert(run.delivered =~= buf);
        assert(run.delivered =~= buf.take(0));
    }
}

/// When every buffer of a sequence is written to the end, one after the
/// other, the transport has received their concatenation: no byte is lost,
/// repeated or out of place.
pub proof fn send_all_delivers_concatenation<E>(
    bufs: Seq<Seq<u8>>,
    scripts: Seq<Seq<Outcome<E>>>,
)
    requires
        bufs.len() == scripts.len(),
        forall|i: int|
            0 <= i < bufs.len() ==> (#[trigger] send_run(
                bufs[i],
                send_begin(bufs[i].len()),
                scripts[i],
            )).phase is Done,
    ensures
        send_all(bufs, scripts) == bufs.flatten(),
    decreases bufs.len(),
{
    if bufs.len() > 0 {
        let tail_bufs = bufs.drop_first();
        let tail_scripts = scripts.drop_first();
        assert forall|i: int| 0 <= i < tail_bufs.len() implies (#[trigger] send_run(
            tail_bufs[i],
            send_begin(tail_bufs[i].len()),
            tail_scripts[i],
        )).phase is Done by {
            assert(tail_bufs[i] == bufs[i + 1]);
            assert(tail_scripts[i] == scripts[i + 1]);
            assert(send_run(bufs[i + 1], send_begin(bufs[i + 1].len()), scripts[i + 1]).phase is Done);
        }
        send_all_delivers_concatenation(tail_bufs, tail_scripts);
        assert(send_run(bufs[0], send_begin(bufs[0].len()), scripts[0]).phase is Done);
        send_delivers_in_order(bufs[0], scripts[0]);
    }
}

/// A transport that takes the whole of a buffer at the first attempt ends the
/// write with that one attempt. (An empty buffer needs no attempt at all.)
pub proof fn send_accepted_at_once<E>(buf: Seq<u8>, script: Seq<Outcome<E>>)
    requires
        buf.len() > 0,
        script.len() > 0,
        script[0] matches Outcome::Transferred(n) && n >= buf.len(),
    ensures
        ({
            let run = send_run(buf, send_begin(buf.len()), script);
            &&& run.phase is Done
            &&& run.attempts == 1
            &&& run.delivered == buf
        }),
{
    let run = send_run(buf, send_begin(buf.len()), script);
    let rest = send_run(buf, send_next(buf.len(), 0, script[0]), script.drop_first());
    assert(rest.attempts == 0);
    assert(run.delivered =~= buf);
}

/// False wakes cost attempts and nothing else: after `wakes` attempts that
/// would have blocked, one attempt that takes the whole buffer ends the write
/// in success, with every byte delivered once.
pub proof fn send_survives_false_wakes<E>(buf: Seq<u8>, wakes: nat, script: Seq<Outcome<E>>)
    requires
        buf.len() > 0,
        script.len() > wakes,
        forall|i: int| 0 <= i < wakes ==> script[i] is WouldBlock,
        script[wakes as int] matches Outcome::Transferred(n) && n >= buf.len(),
    ensures
        ({
            let run = send_run(buf, send_begin(buf.len()), script);
            &&& run.phase is Done
            &&& run.attempts == wakes + 1
            &&& run.delivered == buf
        }),
    decreases wakes,
{
    if wakes == 0 {
        send_accepted_at_once(buf, script);
    } else {
        let tail = script.drop_first();
        assert(script[0] is WouldBlock);
        assert forall|i: int| 0 <= i < wakes - 1 implies tail[i] is WouldBlock by {
            assert(tail[i] == script[i + 1]);
        }
        assert(tail[wakes - 1] == script[wakes as int]);
        send_survives_false_wakes(buf, (wakes - 1) as nat, tail);
        let run = send_run(buf, send_begin(buf.len()), script);
        assert(run.delivered =~= buf);
    }
}

proof fn lemma_failure_from_cursor<E>(
    buf: Seq<u8>,
    cursor: nat,
    script: Seq<Outcome<E>>,
    k: int,
    error: E,
)
    requires
        cursor < buf.len(),
        0 <= k < script.len(),
        script[k] == Outcome::Failed(error),
        send_run(buf, SendPhase::Attempt(cursor), script.take(k)).phase is Attempt,
    ensures
        ({
            let run = send_run(buf, SendPhase::Attempt(cursor), script);
            &&& run.phase == SendPhase::Failed(error)
            &&& run.attempts == k + 1
            &&& cursor + run.delivered.len() < buf.len()
        }),
    decreases k,
{
    let run = send_run(buf, SendPhase::Attempt(cursor), script);
    let tail = script.drop_first();
    let next = send_next(buf.len(), cursor, script[0]);
    let rest = send_run(buf, next, tail);
    if k == 0 {
        assert(next == SendPhase::Failed(error));
        assert(rest.attempts == 0 && rest.delivered.len() == 0);
        assert(taken(buf, cursor, script[0]).len() == 0);
    } else {
        let before = script.take(k);
        assert(before[0] == script[0]);
        assert(before.drop_first() =~= tail.take(k - 1));
        assert(send_run(buf, next, tail.take(k - 1)).phase is Attempt);
        match next {
            SendPhase::Attempt(c) => {
                assert(tail[k - 1] == script[k]);
                lemma_failure_from_cursor(buf, c, tail, k - 1, error);
                assert(taken(buf, cursor, script[0]).len() == c - cursor);
            },
            _ => {
                assert(false);
            },
        }
    }
}

/// A write ends at the first failure that is not a false wake, with that
/// error and without another attempt; the transport has then received less
/// than the whole buffer.
pub proof fn send_fails_at_first_failure<E>(
    buf: Seq<u8>,
    script: Seq<Outcome<E>>,
    k: int,
    error: E,
)
    requires
        0 <= k < script.len(),
        script[k] == Outcome::Failed(error),
        send_run(buf, send_begin(buf.len()), script.take(k)).phase is Attempt,
    ensures
        send_run(buf, send_begin(buf.len()), script).phase == SendPhase::Failed(error),
        send_run(buf, send_begin(buf.len()), script).attempts == k + 1,
        send_run(buf, send_begin(buf.len()), script).delivered.len() < buf.len(),
{
    if buf.len() > 0 {
        lemma_failure_from_cursor(buf, 0, script, k, error);
    }
}

} // verus!
