//! What one round against the transport produced.

use vstd::prelude::*;

verus! {

/// The result of one round against the transport: waiting until it reports
/// ready, then one non-blocking attempt to transfer.
#[derive(Debug, Clone, PartialEq, Eq)]
pub enum Outcome<E> {
    /// The attempt moved this many bytes; fewer than were offered is normal.
    Transferred(usize),
    /// The readiness signal was a false positive: the attempt moved nothing
    /// and said that it would have had to block.
    WouldBlock,
    /// The wait or the attempt failed for any other reason.
    Failed(E),
}

/// The error of the standard library's I/O operations, carried through
/// unopened.
#[verifier::external_type_specification]
#[verifier::external_body]
pub struct ExIoError(std::io::Error);

/// Whether `std::io::Error::kind` gives `ErrorKind::WouldBlock` for `error`:
/// the kind of an error is fixed when the error is made and is read off the
/// error alone.
pub uninterp spec fn io_would_block(error: std::io::Error) -> bool;

/// Asks `std::io::Error::kind` whether the error is of the kind
/// `WouldBlock`. Trusted: the answer is what `io_would_block` names, which
/// this crate never computes.
#[verifier::external_body]
fn says_would_block(error: &std::io::Error) -> (yes: bool)
    ensures
        yes == io_would_block(*error),
{
    match error.kind() {
        std::io::ErrorKind::WouldBlock => true,
        _ => false,
    }
}

/// The outcome that the result of an attempt stands for, `would_block`
/// telling whether its error, if it has one, only says that the transport
/// was not ready after all.
pub open spec fn outcome_of<E>(attempt: Result<usize, E>, would_block: bool) -> Outcome<E> {
    match attempt {
        Ok(amount) => Outcome::Transferred(amount),
        Err(error) => if would_block {
            Outcome::WouldBlock
        } else {
            Outcome::Failed(error)
        },
    }
}

impl<E> Outcome<E> {
    /// Sorts the result of an attempt into progress, false wake and failure.
    pub fn of_attempt(attempt: Result<usize, E>, would_block: bool) -> (outcome: Outcome<E>)
        ensures
            outcome == outcome_of(attempt, would_block),
    {
        match attempt {
            Ok(amount) => Outcome::Transferred(amount),
            Err(error) => if would_block {
                Outcome::WouldBlock
            } else {
                Outcome::Failed(error)
            },
        }
    }
}

/// Sorts the result of a non-blocking read or write: a count is progress, an
/// error of the kind `WouldBlock` is a false wake and nothing else is, and
/// every other error is a failure that keeps the error.
pub fn classify(attempt: Result<usize, std::io::Error>) -> (outcome: Outcome<std::io::Error>)
    ensures
        attempt matches Ok(amount) ==> outcome == Outcome::<std::io::Error>::Transferred(amount),
        attempt matches Err(error) ==> outcome == outcome_of(attempt, io_would_block(error)),
{
    match attempt {
        Ok(amount) => Outcome::of_attempt(Ok(amount), false),
        Err(error) => {
            let would_block = says_would_block(&error);
            Outcome::of_attempt(Err(error), would_block)
        },
    }
}

} // verus!
