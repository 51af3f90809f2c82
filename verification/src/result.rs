//! Results of programs and syscalls.
use vstd::prelude::*;

use crate::error::EbpfError;

verus! {

/// Same as `Result`, with numbered variants.
#[derive(Debug, PartialEq, Eq)]
pub enum StableResult<T, E> {
    /// The program or syscall returned a value
    Success(T),
    /// The program or syscall failed
    Failure(E),
}

impl<T, E> StableResult<T, E> {
    /// `true` for a success
    pub fn is_ok(&self) -> (result: bool)
        ensures
            result == (*self is Success),
    {
        match self {
            StableResult::Success(_) => true,
            StableResult::Failure(_) => false,
        }
    }

    /// `true` for a failure
    pub fn is_err(&self) -> (result: bool)
        ensures
            result == (*self is Failure),
    {
        match self {
            StableResult::Success(_) => false,
            StableResult::Failure(_) => true,
        }
    }

    /// Number of the variant: 0 for a success, 1 for a failure.
    pub fn tag(&self) -> (result: u64)
        ensures
            result == (if *self is Success {
                0u64
            } else {
                1u64
            }),
    {
        match self {
            StableResult::Success(_) => 0,
            StableResult::Failure(_) => 1,
        }
    }

    /// Returns the inner value of a success.
    pub fn unwrap(self) -> (value: T)
        requires
            self is Success,
        ensures
            self == StableResult::<T, E>::Success(value),
    {
        match self {
            StableResult::Success(value) => value,
            StableResult::Failure(_) => vstd::pervasive::unreached(),
        }
    }

    /// Returns the inner error of a failure.
    pub fn unwrap_err(self) -> (error: E)
        requires
            self is Failure,
        ensures
            self == StableResult::<T, E>::Failure(error),
    {
        match self {
            StableResult::Success(_) => vstd::pervasive::unreached(),
            StableResult::Failure(error) => error,
        }
    }
}

/// The `Result` with the same variant and the same content.
pub open spec fn to_result<T, E>(result: StableResult<T, E>) -> Result<T, E> {
    match result {
        StableResult::Success(value) => Ok(value),
        StableResult::Failure(error) => Err(error),
    }
}

/// The `StableResult` with the same variant and the same content.
pub open spec fn to_stable<T, E>(result: Result<T, E>) -> StableResult<T, E> {
    match result {
        Ok(value) => StableResult::Success(value),
        Err(error) => StableResult::Failure(error),
    }
}

impl<T, E> From<StableResult<T, E>> for Result<T, E> {
    fn from(result: StableResult<T, E>) -> (converted: Self) {
        match result {
            StableResult::Success(value) => Ok(value),
            StableResult::Failure(error) => Err(error),
        }
    }
}

impl<T, E> vstd::std_specs::convert::FromSpecImpl<StableResult<T, E>> for Result<T, E> {
    open spec fn obeys_from_spec() -> bool {
        true
    }

    open spec fn from_spec(result: StableResult<T, E>) -> Self {
        to_result(result)
    }
}

impl<T, E> From<Result<T, E>> for StableResult<T, E> {
    fn from(result: Result<T, E>) -> (converted: Self) {
        match result {
            Ok(value) => StableResult::Success(value),
            Err(error) => StableResult::Failure(error),
        }
    }
}

impl<T, E> vstd::std_specs::convert::FromSpecImpl<Result<T, E>> for StableResult<T, E> {
    open spec fn obeys_from_spec() -> bool {
        true
    }

    open spec fn from_spec(result: Result<T, E>) -> Self {
        to_stable(result)
    }
}

/// Return value of programs and syscalls
pub type ProgramResult = StableResult<u64, EbpfError>;

/// Converting a result to its stable form and back, or the other way round, changes nothing.
pub proof fn law_stable_result_round_trip<T, E>(result: Result<T, E>, stable: StableResult<T, E>)
    ensures
        to_result(to_stable(result)) == result,
        to_stable(to_result(stable)) == stable,
{
}

/// A success stays a success with the same value, and a failure a failure with the same error.
pub proof fn law_conversion_keeps_the_outcome<T, E>(value: T, error: E)
    ensures
        to_result(StableResult::<T, E>::Success(value)) == Ok::<T, E>(value),
        to_result(StableResult::<T, E>::Failure(error)) == Err::<T, E>(error),
        to_stable(Ok::<T, E>(value)) == StableResult::<T, E>::Success(value),
        to_stable(Err::<T, E>(error)) == StableResult::<T, E>::Failure(error),
{
}

/// A result is either a success, which has the number zero, or a failure, which has the number one.
pub proof fn law_variants_of_results<T, E>(
    result: &StableResult<T, E>,
    ok: bool,
    err: bool,
    tag: u64,
)
    requires
        call_ensures(StableResult::<T, E>::is_ok, (result,), ok),
        call_ensures(StableResult::<T, E>::is_err, (result,), err),
        call_ensures(StableResult::<T, E>::tag, (result,), tag),
    ensures
        ok <==> *result is Success,
        err <==> *result is Failure,
        ok <==> !err,
        ok <==> tag == 0,
        err <==> tag == 1,
{
}

} // verus!
