//! Response accumulation: reads are gathered into one text until a read
//! comes back short, which is taken as the end of the message.

use vstd::prelude::*;
use vstd::array::array_as_slice;
use vstd::slice::slice_subrange;
use crate::outcome::Outcome;

verus! {

/// The capacity of the buffer that every read is made into. A read that
/// fills it is taken to mean that more of the message is on its way.
pub const CHUNK_SIZE: usize = 512;

/// The text that lossy UTF-8 decoding makes of `bytes`: well-formed sequences
/// decode to their characters, and each malformed stretch becomes U+FFFD.
pub uninterp spec fn utf8_lossy(bytes: Seq<u8>) -> Seq<char>;

/// Calls `String::from_utf8_lossy` of the standard library and takes
/// ownership of the text. Trusted: the text is the lossy decoding of `bytes`,
/// which this crate only names and never computes.
#[verifier::external_body]
fn decode_lossy(bytes: &[u8]) -> (text: String)
    ensures
        text@ == utf8_lossy(bytes@),
{
    String::from_utf8_lossy(bytes).into_owned()
}

/// `String::push_str` of the standard library. Trusted: it appends `tail` to
/// the end of the string and changes nothing before it.
pub assume_specification[ String::push_str ](s: &mut String, tail: &str)
    ensures
        final(s)@ == old(s)@ + tail@,
;

/// A response being gathered: the text of all reads so far.
pub struct Receiver {
    response: String,
}

/// What the driver of a receive has to do next.
pub enum ReceiveStep<E> {
    /// Wait until the transport is readable, read into a chunk buffer, and
    /// hand buffer and outcome to `record`.
    Attempt(Receiver),
    /// A read came back short: this is the response.
    Done(String),
    /// The transport failed; the receive ends with this error and the text
    /// gathered so far is gone.
    Failed(E),
}

/// The position of a receive, with its text as a sequence of characters.
pub enum ReceivePhase<E> {
    Attempt(Seq<char>),
    Done(Seq<char>),
    Failed(E),
}

/// Where a receive stands once a read has been decoded to `decoded`: the
/// text grows by it, and a short read ends the message.
pub open spec fn receive_append<E>(text: Seq<char>, decoded: Seq<char>, short: bool) -> ReceivePhase<E> {
    if short {
        ReceivePhase::Done(text + decoded)
    } else {
        ReceivePhase::Attempt(text + decoded)
    }
}

/// Where a receive that has gathered `text` stands after a read into `chunk`
/// ended in `outcome`. Only the filled part of the chunk is decoded, each
/// chunk by itself; a false wake changes nothing; any other failure ends the
/// receive.
pub open spec fn receive_next<E>(text: Seq<char>, chunk: Seq<u8>, outcome: Outcome<E>) -> ReceivePhase<E> {
    match outcome {
        Outcome::Transferred(n) => receive_append(
            text,
            utf8_lossy(chunk.take(n as int)),
            n < CHUNK_SIZE,
        ),
        Outcome::WouldBlock => ReceivePhase::Attempt(text),
        Outcome::Failed(e) => ReceivePhase::Failed(e),
    }
}

impl Receiver {
    /// The text gathered so far.
    pub closed spec fn text(self) -> Seq<char> {
        self.response@
    }

    /// Starts a receive with an empty text. At least one read is always made.
    pub fn new() -> (rx: Receiver)
        ensures
            rx.text() == Seq::<char>::empty(),
    {
        Receiver { response: String::new() }
    }

    /// Adds the decoded text of one read. `short` says whether that read
    /// left room in its chunk buffer, which ends the message.
    pub fn append<E>(self, decoded: &str, short: bool) -> (step: ReceiveStep<E>)
        ensures
            step.phase() == receive_append::<E>(self.text(), decoded@, short),
    {
        let mut response = self.response;
        response.push_str(decoded);
        if short {
            ReceiveStep::Done(response)
        } else {
            ReceiveStep::Attempt(Receiver { response })
        }
    }

    /// Takes the chunk buffer and the outcome of the read into it, and
    /// decides how the receive goes on. A transport cannot report more bytes
    /// than the buffer holds.
    pub fn record<E>(self, chunk: &[u8; CHUNK_SIZE], outcome: Outcome<E>) -> (step: ReceiveStep<E>)
        requires
            outcome matches Outcome::Transferred(n) ==> n <= CHUNK_SIZE,
        ensures
            step.phase() == receive_next(self.text(), chunk@, outcome),
    {
        match outcome {
            Outcome::Transferred(n) => {
                let filled = slice_subrange(array_as_slice(chunk), 0, n);
                let decoded = decode_lossy(filled);
                self.append(decoded.as_str(), n < CHUNK_SIZE)
            },
            Outcome::WouldBlock => ReceiveStep::Attempt(self),
            Outcome::Failed(e) => ReceiveStep::Failed(e),
        }
    }
}

impl<E> ReceiveStep<E> {
    /// The position that this step stands for.
    pub open spec fn phase(self) -> ReceivePhase<E> {
        match self {
            ReceiveStep::Attempt(rx) => ReceivePhase::Attempt(rx.text()),
            ReceiveStep::Done(text) => ReceivePhase::Done(text@),
            ReceiveStep::Failed(e) => ReceivePhase::Failed(e),
        }
    }
}

/// One read as the transport answered it: what the chunk buffer held
/// afterwards and how the attempt ended.
pub struct ReadRound<E> {
    pub chunk: Seq<u8>,
    pub outcome: Outcome<E>,
}

/// Drives a receive from `phase` against a transport whose successive reads
/// end as `script` says. The run stops when the receive is done or has
/// failed, or when the script is used up.
pub open spec fn receive_run<E>(phase: ReceivePhase<E>, script: Seq<ReadRound<E>>) -> ReceivePhase<E>
    decreases script.len(),
{
    match phase {
        ReceivePhase::Attempt(text) if script.len() > 0 => receive_run(
            receive_next(text, script[0].chunk, script[0].outcome),
            script.drop_first(),
        ),
        _ => phase,
    }
}

/// A message that arrives as one full chunk and one short one is returned
/// at the second read, not before, as the decoding of the first chunk
/// followed by the decoding of the filled part of the second.
pub proof fn receive_ends_at_short_read<E>(first: Seq<u8>, second: Seq<u8>, n: usize)
    requires
        first.len() == CHUNK_SIZE,
        second.len() == CHUNK_SIZE,
        n < CHUNK_SIZE,
    ensures
        ({
            let full = ReadRound::<E> { chunk: first, outcome: Outcome::Transferred(CHUNK_SIZE) };
            let short = ReadRound::<E> { chunk: second, outcome: Outcome::Transferred(n) };
            let start = ReceivePhase::<E>::Attempt(Seq::empty());
            &&& receive_run(start, seq![full]) == ReceivePhase::<E>::Attempt(utf8_lossy(first))
            &&& receive_run(start, seq![full, short]) == ReceivePhase::<E>::Done(
                utf8_lossy(first) + utf8_lossy(second.take(n as int)),
            )
        }),
{
    let full = ReadRound::<E> { chunk: first, outcome: Outcome::Transferred(CHUNK_SIZE) };
    let short = ReadRound::<E> { chunk: second, outcome: Outcome::Transferred(n) };
    let start = ReceivePhase::<E>::Attempt(Seq::empty());
    let after_full = ReceivePhase::<E>::Attempt(utf8_lossy(first));
    assert(first.take(CHUNK_SIZE as int) =~= first);
    assert(Seq::<char>::empty() + utf8_lossy(first) =~= utf8_lossy(first));
    assert(receive_next(Seq::empty(), first, full.outcome) == after_full);
    reveal_with_fuel(receive_run, 3);
    assert(seq![full].drop_first() =~= Seq::<ReadRound<E>>::empty());
    assert(seq![full, short].drop_first() =~= seq![short]);
    assert(seq![short].drop_first() =~= Seq::<ReadRound<E>>::empty());
}

/// Whether a receive goes on after a read that ended in `outcome`: after a
/// false wake, and after a read that filled its chunk.
pub open spec fn goes_on<E>(outcome: Outcome<E>) -> bool {
    match outcome {
        Outcome::Transferred(n) => n >= CHUNK_SIZE,
        Outcome::WouldBlock => true,
        Outcome::Failed(_) => false,
    }
}

/// The text of one read: the decoding of the filled part of its chunk.
pub open spec fn decoded<E>(round: ReadRound<E>) -> Seq<char> {
    match round.outcome {
        Outcome::Transferred(n) => utf8_lossy(round.chunk.take(n as int)),
        _ => Seq::empty(),
    }
}

/// The text that the reads of `script` add up to, in the order of the reads.
pub open spec fn gathered<E>(script: Seq<ReadRound<E>>) -> Seq<char>
    decreases script.len(),
{
    if script.len() == 0 {
        Seq::empty()
    } else {
        decoded(script[0]) + gathered(script.drop_first())
    }
}

/// As long as every read fills its chunk or was a false wake, the receive
/// is not done, whatever the length of the script: a message that ends on a
/// chunk boundary is only returned after one more, short read. The text so
/// far is that of all the reads, in order.
pub proof fn receive_waits_after_full_chunks<E>(text: Seq<char>, script: Seq<ReadRound<E>>)
    requires
        forall|i: int| 0 <= i < script.len() ==> goes_on((#[trigger] script[i]).outcome),
    ensures
        receive_run(ReceivePhase::Attempt(text), script) == ReceivePhase::<E>::Attempt(
            text + gathered(script),
        ),
    decreases script.len(),
{
    if script.len() > 0 {
        let tail = script.drop_first();
        assert forall|i: int| 0 <= i < tail.len() implies goes_on((#[trigger] tail[i]).outcome) by {
            assert(tail[i] == script[i + 1]);
        }
        assert(goes_on(script[0].outcome));
        let grown = text + decoded(script[0]);
        assert(receive_next(text, script[0].chunk, script[0].outcome) == ReceivePhase::<E>::Attempt(
            grown,
        )) by {
            assert(text + Seq::<char>::empty() =~= text);
        }
        receive_waits_after_full_chunks(grown, tail);
        assert(grown + gathered(tail) =~= text + gathered(script));
    } else {
        assert(text + gathered(script) =~= text);
    }
}

/// A receive returns at the first short read and not before: its response
/// is the text of all the reads up to and including that one, in order, and
/// nothing that the transport would have delivered later.
pub proof fn receive_returns_at_first_short_read<E>(
    text: Seq<char>,
    script: Seq<ReadRound<E>>,
    k: int,
)
    requires
        0 <= k < script.len(),
        forall|i: int| 0 <= i < k ==> goes_on((#[trigger] script[i]).outcome),
        script[k].outcome matches Outcome::Transferred(n) && n < CHUNK_SIZE,
    ensures
        receive_run(ReceivePhase::Attempt(text), script.take(k)) is Attempt,
        receive_run(ReceivePhase::Attempt(text), script) == ReceivePhase::<E>::Done(
            text + gathered(script.take(k + 1)),
        ),
    decreases k,
{
    let tail = script.drop_first();
    let grown = text + decoded(script[0]);
    assert(script.take(k + 1)[0] == script[0]);
    if k == 0 {
        assert(script.take(1).drop_first() =~= Seq::<ReadRound<E>>::empty());
        assert(gathered(script.take(1)) =~= decoded(script[0])) by {
            reveal_with_fuel(gathered, 2);
        }
        assert(receive_run(ReceivePhase::<E>::Done(grown), tail) == ReceivePhase::<E>::Done(grown));
    } else {
        assert forall|i: int| 0 <= i < k - 1 implies goes_on((#[trigger] tail[i]).outcome) by {
            assert(tail[i] == script[i + 1]);
        }
        assert(tail[k - 1] == script[k]);
        assert(goes_on(script[0].outcome));
        assert(receive_next(text, script[0].chunk, script[0].outcome) == ReceivePhase::<E>::Attempt(
            grown,
        )) by {
            assert(text + Seq::<char>::empty() =~= text);
        }
        receive_returns_at_first_short_read(grown, tail, k - 1);
        assert(script.take(k + 1).drop_first() =~= tail.take(k));
        assert(grown + gathered(tail.take(k)) =~= text + gathered(script.take(k + 1)));
    }
    let before = script.take(k);
    assert forall|i: int| 0 <= i < before.len() implies goes_on((#[trigger] before[i]).outcome) by {
        assert(before[i] == script[i]);
    }
    receive_waits_after_full_chunks(text, before);
}

/// A receive ends with the first failure that is not a false wake, and with
/// that error; the text gathered before it is not returned.
pub proof fn receive_fails_at_first_failure<E>(
    text: Seq<char>,
    script: Seq<ReadRound<E>>,
    k: int,
    error: E,
)
    requires
        0 <= k < script.len(),
        forall|i: int| 0 <= i < k ==> goes_on((#[trigger] script[i]).outcome),
        script[k].outcome == Outcome::Failed(error),
    ensures
        receive_run(ReceivePhase::Attempt(text), script) == ReceivePhase::<E>::Failed(error),
    decreases k,
{
    let tail = script.drop_first();
    if k == 0 {
        assert(receive_run(ReceivePhase::<E>::Failed(error), tail) == ReceivePhase::<E>::Failed(
            error,
        ));
    } else {
        assert forall|i: int| 0 <= i < k - 1 implies goes_on((#[trigger] tail[i]).outcome) by {
            assert(tail[i] == script[i + 1]);
        }
        assert(tail[k - 1] == script[k]);
        assert(goes_on(script[0].outcome));
        let grown = text + decoded(script[0]);
        assert(receive_next(text, script[0].chunk, script[0].outcome) == ReceivePhase::<E>::Attempt(
            grown,
        )) by {
            assert(text + Seq::<char>::empty() =~= text);
        }
        receive_fails_at_first_failure(grown, tail, k - 1, error);
    }
}

} // verus!
