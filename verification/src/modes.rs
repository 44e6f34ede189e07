//! Creation-mode resolution: a set of requested qualifiers
//! (persistent / ephemeral / sequential) is resolved to exactly one
//! concrete creation mode, or rejected as contradictory.

use vstd::prelude::*;

verus! {

/// A creation-mode qualifier as requested on the command line.
/// Several may be given together; `resolve_mode` reduces them to one
/// concrete `CreationMode`.
#[derive(Debug, Clone, Copy, PartialEq, Eq, Structural)]
pub enum CreateMode {
    Persistent,
    Ephemeral,
    Sequential,
}

/// The concrete persistence/uniqueness mode a node is created with.
#[derive(Debug, Clone, Copy, PartialEq, Eq, Structural)]
pub enum CreationMode {
    Persistent,
    Ephemeral,
    PersistentSequential,
    EphemeralSequential,
}

/// A command was malformed before any remote call was attempted.
#[derive(Debug, Clone, Copy, PartialEq, Eq, Structural)]
pub enum UsageError {
    /// Persistent and Ephemeral were both requested.
    ConflictingModes,
    /// No content was given and none was piped in; refusing to guess.
    MissingContent,
}

impl CreateMode {
    /// The qualifier's lower-case name, as written on the command line.
    pub fn name(&self) -> (r: &'static str)
        ensures
            *self is Persistent ==> r@ == "persistent"@,
            *self is Ephemeral ==> r@ == "ephemeral"@,
            *self is Sequential ==> r@ == "sequential"@,
    {
        match self {
            CreateMode::Persistent => "persistent",
            CreateMode::Ephemeral => "ephemeral",
            CreateMode::Sequential => "sequential",
        }
    }
}

/// The full decision table, over the three membership facts alone:
/// requesting both lifetimes is an error; otherwise Ephemeral selects the
/// ephemeral variants, Sequential the sequential ones, and Persistent is
/// the default when neither lifetime is requested.
pub open spec fn resolve_mode_spec(p: bool, e: bool, s: bool) -> Result<CreationMode, UsageError> {
    if p && e {
        Err(UsageError::ConflictingModes)
    } else if e && s {
        Ok(CreationMode::EphemeralSequential)
    } else if e {
        Ok(CreationMode::Ephemeral)
    } else if s {
        Ok(CreationMode::PersistentSequential)
    } else {
        Ok(CreationMode::Persistent)
    }
}

/// Whether `flags` contains the qualifier `m`.
pub fn has_mode(flags: &Vec<CreateMode>, m: CreateMode) -> (r: bool)
    ensures
        r == flags@.contains(m),
{
    let mut i: usize = 0;
    while i < flags.len()
        invariant
            i <= flags.len(),
            forall|j: int| 0 <= j < i ==> flags@[j] != m,
        decreases flags.len() - i,
    {
        if flags[i] == m {
            return true;
        }
        i += 1;
    }
    false
}

/// Resolve the requested qualifiers to one concrete creation mode,
/// following `resolve_mode_spec` exactly.
pub fn resolve_mode(flags: &Vec<CreateMode>) -> (r: Result<CreationMode, UsageError>)
    ensures
        r == resolve_mode_spec(
            flags@.contains(CreateMode::Persistent),
            flags@.contains(CreateMode::Ephemeral),
            flags@.contains(CreateMode::Sequential),
        ),
{
    let p = has_mode(flags, CreateMode::Persistent);
    let e = has_mode(flags, CreateMode::Ephemeral);
    let s = has_mode(flags, CreateMode::Sequential);
    if p && e {
        Err(UsageError::ConflictingModes)
    } else if e && s {
        Ok(CreationMode::EphemeralSequential)
    } else if e {
        Ok(CreationMode::Ephemeral)
    } else if s {
        Ok(CreationMode::PersistentSequential)
    } else {
        Ok(CreationMode::Persistent)
    }
}

} // verus!
