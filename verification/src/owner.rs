//! When reactive state is cleaned up, and which owner is current afterwards.

use vstd::prelude::*;

verus! {

/// What the end of a response does with its reactive owner.
#[derive(Clone, Copy, Debug, PartialEq, Eq, Structural)]
pub enum Cleanup {
    /// The owner was handed over already.
    Nothing,
    /// Clean up, whatever handles remain.
    Force,
    /// Leave the owner alone: its state belongs to another thread.
    Leak,
}

/// What to do with the owner of a response that ends on a thread.
pub fn end_of_response(armed: bool, origin: u64, thread: u64) -> (cleanup: Cleanup)
    ensures
        cleanup == (if !armed {
            Cleanup::Nothing
        } else if origin == thread {
            Cleanup::Force
        } else {
            Cleanup::Leak
        }),
{
    if !armed {
        Cleanup::Nothing
    } else if origin == thread {
        Cleanup::Force
    } else {
        Cleanup::Leak
    }
}

/// Whether work for a response runs with its owner as the current one. On a foreign
/// thread it runs without.
pub fn activates_owner(origin: u64, thread: u64) -> (activates: bool)
    ensures
        activates == (origin == thread),
{
    origin == thread
}

/// How the current owner is put back after work that may have changed it.
#[derive(Clone, Copy, Debug, PartialEq, Eq, Structural)]
pub enum Restore {
    /// Make the previous owner current again.
    SetPrevious,
    /// There was none: unset the one that was left behind.
    UnsetCurrent,
    /// There was none, and there is none.
    Nothing,
}

impl Restore {
    /// The owner that is current once this is done. Without a previous owner there is
    /// nothing to make current again.
    pub open spec fn result<O>(self, previous: Option<O>, current: Option<O>) -> Option<O> {
        match self {
            Restore::SetPrevious => if previous is Some {
                previous
            } else {
                current
            },
            Restore::UnsetCurrent => None,
            Restore::Nothing => current,
        }
    }
}

/// How the owner that was current before some work is put back after it.
pub fn restore_owner<O>(previous: &Option<O>, current: &Option<O>) -> (restore: Restore)
    ensures
        restore.result(*previous, *current) == *previous,
        restore == (if previous is Some {
            Restore::SetPrevious
        } else if current is Some {
            Restore::UnsetCurrent
        } else {
            Restore::Nothing
        }),
{
    if previous.is_some() {
        Restore::SetPrevious
    } else if current.is_some() {
        Restore::UnsetCurrent
    } else {
        Restore::Nothing
    }
}

// ---------------------------------------------------------------------------
// Laws
// ---------------------------------------------------------------------------
/// What a response owned is cleaned up once at its end, on its own thread; elsewhere it is
/// left alone, and so is what was handed on before. The owner is active only on its own
/// thread.
pub proof fn owners_are_cleaned_up_on_their_thread(
    armed: bool,
    origin: u64,
    thread: u64,
    cleanup: Cleanup,
    activates: bool,
)
    requires
        call_ensures(end_of_response, (armed, origin, thread), cleanup),
        call_ensures(activates_owner, (origin, thread), activates),
    ensures
        cleanup == Cleanup::Force <==> armed && activates,
        cleanup == Cleanup::Leak <==> armed && !activates,
        cleanup == Cleanup::Nothing <==> !armed,
        activates <==> origin == thread,
{
}

/// Whatever some work left current, what was current before it is current again.
pub proof fn owners_are_put_back<O>(previous: &Option<O>, current: &Option<O>, restore: Restore)
    requires
        call_ensures(restore_owner::<O>, (previous, current), restore),
    ensures
        *previous is Some <==> restore == Restore::SetPrevious,
        *previous is None && *current is Some <==> restore == Restore::UnsetCurrent,
        *previous is None && *current is None <==> restore == Restore::Nothing,
        restore.result(*previous, *current) == *previous,
{
}

} // verus!
