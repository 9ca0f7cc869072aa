//! What can go wrong in a run, and what a worker does about it.

use vstd::prelude::*;

verus! {

/// The kinds of failure a run distinguishes.
#[derive(Clone, Copy, Debug, PartialEq, Eq, Structural)]
pub enum ErrorKind {
    /// A listing or an archive could not be fetched.
    Network,
    /// The remote data no longer has the shape this library assumes: a
    /// listing body that does not parse, a prefix or an archive key that does
    /// not follow its grammar.
    ContractViolation,
    /// A temporary file, a directory or an archive could not be handled
    /// locally.
    LocalIo,
    /// A parameter of the run cannot be used.
    InvalidParameter,
}

impl ErrorKind {
    /// Whether the same request may succeed when it is made again. Only a
    /// network failure is of that kind; nothing in this library tries again
    /// by itself.
    pub open spec fn spec_retryable(&self) -> bool {
        *self == ErrorKind::Network
    }

    /// Whether the same request may succeed when it is made again.
    #[verifier::when_used_as_spec(spec_retryable)]
    pub fn retryable(&self) -> (retryable: bool)
        ensures
            retryable == self.spec_retryable(),
    {
        match self {
            ErrorKind::Network => true,
            _ => false,
        }
    }
}

/// The errors this library reports itself.
#[derive(Clone, Copy, Debug, PartialEq, Eq, Structural)]
pub enum PipelineError {
    /// A listed prefix has no `/`, so it names no symbol.
    MalformedPrefix,
    /// A key with the archive suffix does not follow the file name grammar.
    MalformedKey,
    /// The symbol filter is not a regular expression.
    InvalidPattern,
}

impl PipelineError {
    /// The kind of failure the error belongs to.
    pub open spec fn spec_kind(&self) -> ErrorKind {
        match *self {
            PipelineError::MalformedPrefix => ErrorKind::ContractViolation,
            PipelineError::MalformedKey => ErrorKind::ContractViolation,
            PipelineError::InvalidPattern => ErrorKind::InvalidParameter,
        }
    }

    /// The kind of failure the error belongs to.
    #[verifier::when_used_as_spec(spec_kind)]
    pub fn kind(&self) -> (kind: ErrorKind)
        ensures
            kind == self.spec_kind(),
    {
        match self {
            PipelineError::MalformedPrefix => ErrorKind::ContractViolation,
            PipelineError::MalformedKey => ErrorKind::ContractViolation,
            PipelineError::InvalidPattern => ErrorKind::InvalidParameter,
        }
    }

    /// A sentence for the log.
    pub fn message(&self) -> (text: String)
        ensures
            text@ == (match *self {
                PipelineError::MalformedPrefix => "listed prefix names no symbol"@,
                PipelineError::MalformedKey => "archive key does not follow the file name grammar"@,
                PipelineError::InvalidPattern => "symbol filter is not a regular expression"@,
            }),
    {
        match self {
            PipelineError::MalformedPrefix => "listed prefix names no symbol".to_owned(),
            PipelineError::MalformedKey => "archive key does not follow the file name grammar".to_owned(),
            PipelineError::InvalidPattern => "symbol filter is not a regular expression".to_owned(),
        }
    }
}

/// What a worker does after a failure.
#[derive(Clone, Copy, Debug, PartialEq, Eq, Structural)]
pub enum Reaction {
    /// Log the failure and go on with the next item.
    Skip,
    /// Stop the whole run.
    Abort,
}

/// Whether a failure of this kind stops the run whatever the policy says.
pub open spec fn is_fatal(kind: ErrorKind) -> bool {
    kind == ErrorKind::ContractViolation || kind == ErrorKind::InvalidParameter
}

/// The reaction to a failure of `kind` under the policy: a fatal failure
/// always aborts, any other is skipped exactly when the run continues past
/// errors.
pub open spec fn reaction_to(kind: ErrorKind, continue_past_errors: bool) -> Reaction {
    if is_fatal(kind) || !continue_past_errors {
        Reaction::Abort
    } else {
        Reaction::Skip
    }
}

/// Decides what a worker does after a failure of `kind`.
pub fn react(kind: ErrorKind, continue_past_errors: bool) -> (reaction: Reaction)
    ensures
        reaction == reaction_to(kind, continue_past_errors),
{
    match kind {
        ErrorKind::ContractViolation => Reaction::Abort,
        ErrorKind::InvalidParameter => Reaction::Abort,
        _ => if continue_past_errors {
            Reaction::Skip
        } else {
            Reaction::Abort
        },
    }
}

/// Whether a run in which the failures `kinds` occurred ends in failure:
/// some failure was fatal, or the policy does not continue past errors and
/// there was any failure at all.
pub open spec fn run_fails(kinds: Seq<ErrorKind>, continue_past_errors: bool) -> bool {
    (exists|i: int| 0 <= i < kinds.len() && is_fatal(#[trigger] kinds[i])) || (
    !continue_past_errors && kinds.len() > 0)
}

/// Decides the exit status of a run from the failures that occurred in it.
pub fn exit_is_failure(kinds: &Vec<ErrorKind>, continue_past_errors: bool) -> (failed: bool)
    ensures
        failed == run_fails(kinds@, continue_past_errors),
        failed == (exists|i: int|
            0 <= i < kinds.len() && reaction_to(#[trigger] kinds[i], continue_past_errors)
                == Reaction::Abort),
{
    let mut i: usize = 0;
    while i < kinds.len()
        invariant
            i <= kinds.len(),
            forall|k: int|
                0 <= k < i ==> reaction_to(#[trigger] kinds[k], continue_past_errors)
                    == Reaction::Skip,
        decreases kinds.len() - i,
    {
        match react(kinds[i], continue_past_errors) {
            Reaction::Abort => {
                return true;
            },
            Reaction::Skip => {},
        }
        i += 1;
    }
    proof {
        if kinds.len() > 0 {
            assert(reaction_to(kinds[0], continue_past_errors) == Reaction::Skip);
        }
    }
    false
}

} // verus!
