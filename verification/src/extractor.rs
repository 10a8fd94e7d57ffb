//! Extractor composition: sequential, alternative and synchronous
//! combination of argument-extraction steps.
//!
//! The crate does not run extractors itself: the driver attempts each
//! step and reports its outcome — ready, pending with a continuation, or
//! failed — and the functions here decide what happens next.  A
//! continuation value is owned by the driver and handed back to it
//! unchanged.

use vstd::prelude::*;

verus! {

/// What one extraction step reported: a finished value, or a
/// continuation to poll later.
#[derive(Debug)]
pub enum ExtractStatus<V, P> {
    Ready(V),
    Pending(P),
}

/// The failure of one extraction step.
#[derive(Debug, Clone, PartialEq, Eq)]
pub struct ExtractError {
    pub message: String,
}

/// An extractor that tries `left` first and falls back to `right`.
#[derive(Debug)]
pub struct Or<L, R> {
    pub left: L,
    pub right: R,
}

impl<L, R> Or<L, R> {
    pub fn new(left: L, right: R) -> (r: Self)
        ensures
            r.left == left,
            r.right == right,
    {
        Or { left, right }
    }
}

/// An extractor that runs `left`, then `right`, and pairs their values.
#[derive(Debug)]
pub struct Chain<L, R> {
    pub left: L,
    pub right: R,
}

impl<L, R> Chain<L, R> {
    pub fn new(left: L, right: R) -> (r: Self)
        ensures
            r.left == left,
            r.right == right,
    {
        Chain { left, right }
    }
}

/// The continuation of an `Or` whose answer is still open: the left
/// side alone, the right side alone, or both racing.
#[derive(Debug)]
pub enum OrFuture<PL, PR> {
    Left(PL),
    Right(PR),
    Both(PL, PR),
}

/// What an `Or` does once its left side has reported.
#[derive(Debug)]
pub enum OrFirst<V, PL> {
    /// The left side finished: the right side is never attempted.
    Done(V),
    /// The left side failed synchronously: the right side's outcome,
    /// including its error, becomes the whole outcome.
    TryRightFresh,
    /// The left side suspended: the right side is attempted and may
    /// race it.
    TryRightRacing(PL),
}

/// The decision after the left side of an `Or` reported.
pub open spec fn spec_or_after_left<V, PL>(
    left: Result<ExtractStatus<V, PL>, ExtractError>,
) -> OrFirst<V, PL> {
    match left {
        Ok(ExtractStatus::Ready(v)) => OrFirst::Done(v),
        Ok(ExtractStatus::Pending(p)) => OrFirst::TryRightRacing(p),
        Err(_) => OrFirst::TryRightFresh,
    }
}

/// Applies the left side's outcome: a ready value ends the extraction
/// at once, a failure hands over to the right side entirely, and a
/// suspension keeps the continuation for the race.
pub fn or_after_left<V, PL>(left: Result<ExtractStatus<V, PL>, ExtractError>) -> (r:
    OrFirst<V, PL>)
    ensures
        r == spec_or_after_left(left),
{
    match left {
        Ok(ExtractStatus::Ready(v)) => OrFirst::Done(v),
        Ok(ExtractStatus::Pending(p)) => OrFirst::TryRightRacing(p),
        Err(_) => OrFirst::TryRightFresh,
    }
}

/// The whole outcome when the left side failed synchronously.
pub open spec fn spec_or_after_right_fresh<V, PL, PR>(
    right: Result<ExtractStatus<V, PR>, ExtractError>,
) -> Result<ExtractStatus<V, OrFuture<PL, PR>>, ExtractError> {
    match right {
        Ok(ExtractStatus::Ready(v)) => Ok(ExtractStatus::Ready(v)),
        Ok(ExtractStatus::Pending(p)) => Ok(ExtractStatus::Pending(OrFuture::Right(p))),
        Err(e) => Err(e),
    }
}

/// After the left side failed synchronously, the right side's outcome —
/// value, suspension or error — is the outcome of the whole `Or`.
pub fn or_after_right_fresh<V, PL, PR>(
    right: Result<ExtractStatus<V, PR>, ExtractError>,
) -> (r: Result<ExtractStatus<V, OrFuture<PL, PR>>, ExtractError>)
    ensures
        r == spec_or_after_right_fresh::<V, PL, PR>(right),
{
    match right {
        Ok(ExtractStatus::Ready(v)) => Ok(ExtractStatus::Ready(v)),
        Ok(ExtractStatus::Pending(p)) => Ok(ExtractStatus::Pending(OrFuture::Right(p))),
        Err(e) => Err(e),
    }
}

/// The whole outcome when the left side suspended.
pub open spec fn spec_or_after_right_racing<V, PL, PR>(
    left: PL,
    right: Result<ExtractStatus<V, PR>, ExtractError>,
) -> ExtractStatus<V, OrFuture<PL, PR>> {
    match right {
        Ok(ExtractStatus::Ready(v)) => ExtractStatus::Ready(v),
        Ok(ExtractStatus::Pending(p)) => ExtractStatus::Pending(OrFuture::Both(left, p)),
        Err(_) => ExtractStatus::Pending(OrFuture::Left(left)),
    }
}

/// After the left side suspended: a right side that finishes at once
/// wins and the left continuation is dropped; one that suspends too
/// races the left side; one that fails leaves the left side alone in
/// charge.  This never fails: the left side may still deliver.
pub fn or_after_right_racing<V, PL, PR>(
    left: PL,
    right: Result<ExtractStatus<V, PR>, ExtractError>,
) -> (r: ExtractStatus<V, OrFuture<PL, PR>>)
    ensures
        r == spec_or_after_right_racing(left, right),
{
    match right {
        Ok(ExtractStatus::Ready(v)) => ExtractStatus::Ready(v),
        Ok(ExtractStatus::Pending(p)) => ExtractStatus::Pending(OrFuture::Both(left, p)),
        Err(_) => ExtractStatus::Pending(OrFuture::Left(left)),
    }
}

/// What a `Chain` does once its left side has reported.
#[derive(Debug)]
pub enum ChainFirst<A, PL> {
    /// The left value is in hand; only now is the right side started.
    NeedRight(A),
    /// The left side suspended; the right side is not started at all.
    Suspended(PL),
    /// The left side failed; its error is the chain's error.
    Failed(ExtractError),
}

/// The continuation of a `Chain` whose left value is in hand but whose
/// right side suspended.
#[derive(Debug)]
pub struct ChainPending<A, PR> {
    pub first: A,
    pub rest: PR,
}

/// The decision after the left side of a `Chain` reported.
pub open spec fn spec_chain_after_left<A, PL>(
    left: Result<ExtractStatus<A, PL>, ExtractError>,
) -> ChainFirst<A, PL> {
    match left {
        Ok(ExtractStatus::Ready(a)) => ChainFirst::NeedRight(a),
        Ok(ExtractStatus::Pending(p)) => ChainFirst::Suspended(p),
        Err(e) => ChainFirst::Failed(e),
    }
}

/// Applies the left side's outcome: the right side starts only once the
/// left value is ready, and the first failure, in step order, is the
/// chain's failure.
pub fn chain_after_left<A, PL>(left: Result<ExtractStatus<A, PL>, ExtractError>) -> (r:
    ChainFirst<A, PL>)
    ensures
        r == spec_chain_after_left(left),
{
    match left {
        Ok(ExtractStatus::Ready(a)) => ChainFirst::NeedRight(a),
        Ok(ExtractStatus::Pending(p)) => ChainFirst::Suspended(p),
        Err(e) => ChainFirst::Failed(e),
    }
}

/// The outcome of the whole chain once both sides have reported.
pub open spec fn spec_chain_after_right<A, B, PR>(
    first: A,
    right: Result<ExtractStatus<B, PR>, ExtractError>,
) -> Result<ExtractStatus<(A, B), ChainPending<A, PR>>, ExtractError> {
    match right {
        Ok(ExtractStatus::Ready(b)) => Ok(ExtractStatus::Ready((first, b))),
        Ok(ExtractStatus::Pending(p)) => Ok(
            ExtractStatus::Pending(ChainPending { first, rest: p }),
        ),
        Err(e) => Err(e),
    }
}

/// Pairs the left value with the right side's outcome, in declaration
/// order.
pub fn chain_after_right<A, B, PR>(
    first: A,
    right: Result<ExtractStatus<B, PR>, ExtractError>,
) -> (r: Result<ExtractStatus<(A, B), ChainPending<A, PR>>, ExtractError>)
    ensures
        r == spec_chain_after_right(first, right),
{
    match right {
        Ok(ExtractStatus::Ready(b)) => Ok(ExtractStatus::Ready((first, b))),
        Ok(ExtractStatus::Pending(p)) => Ok(
            ExtractStatus::Pending(ChainPending { first, rest: p }),
        ),
        Err(e) => Err(e),
    }
}

/// Wraps the result of a synchronous extraction step: it never
/// suspends.
pub fn ready<V>(value: Result<V, ExtractError>) -> (r: Result<
    ExtractStatus<V, ()>,
    ExtractError,
>)
    ensures
        match value {
            Ok(v) => r == Ok::<ExtractStatus<V, ()>, ExtractError>(ExtractStatus::Ready(v)),
            Err(e) => r == Err::<ExtractStatus<V, ()>, ExtractError>(e),
        },
{
    match value {
        Ok(v) => Ok(ExtractStatus::Ready(v)),
        Err(e) => Err(e),
    }
}

/// Law: the fallback of an `Or`.  When the first extractor fails
/// synchronously the second is attempted and its outcome — including
/// its own error, when both fail — becomes the outcome of the whole
/// extraction; and a first extractor that succeeds ends the extraction
/// with its value, the second never attempted.
pub proof fn lemma_or_fallback<V, PL, PR>(
    e1: ExtractError,
    e2: ExtractError,
    v: V,
    w: V,
)
    ensures
        spec_or_after_left::<V, PL>(Err(e1)) == OrFirst::<V, PL>::TryRightFresh,
        spec_or_after_right_fresh::<V, PL, PR>(Err(e2)) == Err::<
            ExtractStatus<V, OrFuture<PL, PR>>,
            ExtractError,
        >(e2),
        spec_or_after_right_fresh::<V, PL, PR>(Ok(ExtractStatus::Ready(w))) == Ok::<
            ExtractStatus<V, OrFuture<PL, PR>>,
            ExtractError,
        >(ExtractStatus::Ready(w)),
        spec_or_after_left::<V, PL>(Ok(ExtractStatus::Ready(v))) == OrFirst::<
            V,
            PL,
        >::Done(v),
{
}

} // verus!
