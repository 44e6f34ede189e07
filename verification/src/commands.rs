//! Per-command decisions that need no traversal: where a payload comes
//! from, what the write path does when the node is missing, and how a read
//! payload is shown.

use crate::client::{DeleteOutcome, UpdateOutcome};
use crate::modes::UsageError;
use vstd::prelude::*;
use vstd::utf8::{decode_utf8, valid_utf8};

verus! {

/// What the write path does after its first update attempt.
#[derive(Debug, Clone, Copy, PartialEq, Eq, Structural)]
pub enum WritePlan {
    /// The update succeeded; nothing more to do.
    Done,
    /// The node is missing and force was given: create it as a persistent
    /// node with the fully open access policy and the same content.
    CreateAsPersistent,
    /// The node is missing and force was not given: report that it does
    /// not exist; do not create it implicitly.
    FailAbsent,
    /// The update failed for another reason: propagate it unchanged.
    FailOther,
}

/// The write path attempts an update first; this is the full decision
/// table for what follows.
pub open spec fn write_follow_up_spec(outcome: UpdateOutcome, force: bool) -> WritePlan {
    match outcome {
        UpdateOutcome::Updated => WritePlan::Done,
        UpdateOutcome::Absent => if force {
            WritePlan::CreateAsPersistent
        } else {
            WritePlan::FailAbsent
        },
        UpdateOutcome::Failed => WritePlan::FailOther,
    }
}

/// Decide what the write path does after the update attempt, following
/// `write_follow_up_spec` exactly.
pub fn write_follow_up(outcome: UpdateOutcome, force: bool) -> (r: WritePlan)
    ensures
        r == write_follow_up_spec(outcome, force),
{
    match outcome {
        UpdateOutcome::Updated => WritePlan::Done,
        UpdateOutcome::Absent => if force {
            WritePlan::CreateAsPersistent
        } else {
            WritePlan::FailAbsent
        },
        UpdateOutcome::Failed => WritePlan::FailOther,
    }
}

/// The payload a command works with: an explicit content argument wins,
/// else piped input, else — only where an empty payload was asked for
/// knowingly — the empty payload; otherwise the ambiguity is an error.
pub open spec fn resolve_content_spec(
    explicit: Option<Vec<u8>>,
    piped: Option<Vec<u8>>,
    allow_empty: bool,
) -> Result<Seq<u8>, UsageError> {
    match explicit {
        Some(c) => Ok(c@),
        None => match piped {
            Some(p) => Ok(p@),
            None => if allow_empty {
                Ok(Seq::empty())
            } else {
                Err(UsageError::MissingContent)
            },
        },
    }
}

/// Resolve a command's payload: an explicit content argument wins, else
/// piped input, else — only where an empty payload was asked for knowingly
/// (`create`, or `write --force`) — the empty payload; otherwise the
/// ambiguity is a usage error, not a silent empty write.
pub fn resolve_content(explicit: Option<Vec<u8>>, piped: Option<Vec<u8>>, allow_empty: bool) -> (r:
    Result<Vec<u8>, UsageError>)
    ensures
        match r {
            Ok(b) => resolve_content_spec(explicit, piped, allow_empty) == Ok::<
                Seq<u8>,
                UsageError,
            >(b@),
            Err(e) => resolve_content_spec(explicit, piped, allow_empty) == Err::<
                Seq<u8>,
                UsageError,
            >(e),
        },
{
    match explicit {
        Some(c) => Ok(c),
        None => match piped {
            Some(p) => Ok(p),
            None => {
                if allow_empty {
                    let empty: Vec<u8> = Vec::new();
                    proof {
                        assert(empty@ =~= Seq::<u8>::empty());
                    }
                    Ok(empty)
                } else {
                    Err(UsageError::MissingContent)
                }
            },
        },
    }
}

/// Whether a plain (non-recursive) delete is satisfied: deletion is
/// idempotent, so a node that was already gone counts as deleted; only
/// other failures count against the command.
pub fn plain_delete_satisfied(outcome: DeleteOutcome) -> (r: bool)
    ensures
        r == !(outcome is Failed),
{
    match outcome {
        DeleteOutcome::Deleted => true,
        DeleteOutcome::Absent => true,
        DeleteOutcome::Failed => false,
    }
}

/// How a read payload is shown.
#[derive(Debug)]
pub enum CatOutput {
    /// Binary mode: the raw bytes, written to the output unchanged.
    Raw(Vec<u8>),
    /// Text mode: the payload decoded as UTF-8.
    Text(String),
    /// Text mode, but the payload is not UTF-8: tell the caller to use
    /// binary mode instead.
    NotUtf8,
}

/// Relies on `String::from_utf8`: it returns the decoded string exactly
/// when the bytes are valid UTF-8, and rejects them otherwise.
#[verifier::external_body]
fn bytes_to_utf8(data: Vec<u8>) -> (r: Option<String>)
    ensures
        match r {
            Some(s) => valid_utf8(data@) && s@ == decode_utf8(data@),
            None => !valid_utf8(data@),
        },
{
    String::from_utf8(data).ok()
}

/// Decide how a node's payload is shown: the raw bytes in binary mode, the
/// decoded text otherwise — where a payload that is not UTF-8 becomes an
/// explicit ask-for-binary-mode answer, never a crash.
pub fn cat_render(data: Vec<u8>, binary: bool) -> (r: CatOutput)
    ensures
        binary ==> (r matches CatOutput::Raw(b) && b@ == data@),
        !binary && valid_utf8(data@) ==> (r matches CatOutput::Text(s) && s@ == decode_utf8(
            data@,
        )),
        !binary && !valid_utf8(data@) ==> r is NotUtf8,
{
    if binary {
        CatOutput::Raw(data)
    } else {
        match bytes_to_utf8(data) {
            Some(s) => CatOutput::Text(s),
            None => CatOutput::NotUtf8,
        }
    }
}

} // verus!
