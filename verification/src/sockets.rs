//! When the socket library and the relocatable-object library are really initialized.
//!
//! The game and ozone's logger thread both initialize the socket library; only the first
//! call since boot, or since the last finalization, is let through to the SDK, and the
//! others report success without doing anything. The same holds for `nn::ro`.

use vstd::prelude::*;

verus! {

/// Whether the socket library counts as initialized by a call that was let through.
pub struct SocketState {
    initialized: bool,
}

/// What follows a real socket library initialization.
#[derive(Clone, Copy, PartialEq, Eq, Structural, Debug)]
pub enum AfterInitialize {
    /// It succeeded: the TCP logger may use sockets again.
    ResumeLogger,
    /// It failed: the next initialization is let through again.
    Retry,
}

impl View for SocketState {
    type V = bool;

    closed spec fn view(&self) -> bool {
        self.initialized
    }
}

impl SocketState {
    /// The state at boot: not initialized.
    pub fn new() -> (state: Self)
        ensures
            state@ == false,
    {
        SocketState { initialized: false }
    }
}

/// True for the call that must really initialize the socket library: the first one since
/// boot or since the last finalization (or failed initialization).
pub fn socket_first_init(state: &mut SocketState) -> (first: bool)
    ensures
        (first, final(state)@) == first_init_step(old(state)@),
{
    if state.initialized {
        false
    } else {
        state.initialized = true;
        true
    }
}

/// Records the return code of a real initialization.
pub fn socket_initialized(state: &mut SocketState, rc: i32) -> (next: AfterInitialize)
    ensures
        next == (if rc == 0 { AfterInitialize::ResumeLogger } else { AfterInitialize::Retry }),
        final(state)@ == initialized_step(old(state)@, rc),
{
    if rc == 0 {
        AfterInitialize::ResumeLogger
    } else {
        state.initialized = false;
        AfterInitialize::Retry
    }
}

/// Records that the socket library was finalized: the next initialization is real.
pub fn socket_finalized(state: &mut SocketState)
    ensures
        final(state)@ == false,
{
    state.initialized = false;
}

/// Whether `nn::ro` was already initialized by a call that was let through.
pub struct RoState {
    initialized: bool,
}

impl View for RoState {
    type V = bool;

    closed spec fn view(&self) -> bool {
        self.initialized
    }
}

impl RoState {
    /// The state at boot: not initialized.
    pub fn new() -> (state: Self)
        ensures
            state@ == false,
    {
        RoState { initialized: false }
    }
}

/// True for the first `nn::ro::Initialize` call, which is let through; the others are
/// answered with success.
pub fn ro_first_init(state: &mut RoState) -> (first: bool)
    ensures
        (first, final(state)@) == first_init_step(old(state)@),
{
    if state.initialized {
        false
    } else {
        state.initialized = true;
        true
    }
}

/// Result of a first-initialization check on a state: whether the call is let through, and
/// the state after it.
pub open spec fn first_init_step(initialized: bool) -> (bool, bool) {
    (!initialized, true)
}

/// Result of recording a return code: the state after it.
pub open spec fn initialized_step(initialized: bool, rc: i32) -> bool {
    if rc == 0 { initialized } else { false }
}

/// Of two initializations in a row, the second is never let through once the first was,
/// and succeeded: the library is initialized at most once until it is finalized.
pub proof fn law_initialize_once(initialized: bool)
    ensures
        ({
            let (first, s1) = first_init_step(initialized);
            let s2 = initialized_step(s1, 0);
            let (second, _) = first_init_step(s2);
            !second
        }),
{
}

/// A failed initialization, or a finalization, lets the next initialization through.
pub proof fn law_retry_after_failure_or_finalize(initialized: bool, rc: i32)
    requires
        rc != 0,
    ensures
        first_init_step(initialized_step(first_init_step(initialized).1, rc)).0,
        first_init_step(false).0,
{
}

/// How many of `events` let the initialization through, from the state `initialized`:
/// each event is a call of the hook (`true`), or the report of a successful
/// initialization (`false`).
pub open spec fn calls_let_through(initialized: bool, events: Seq<bool>) -> nat
    decreases events.len(),
{
    if events.len() == 0 {
        0
    } else if events[0] {
        let (first, next) = first_init_step(initialized);
        (if first { 1nat } else { 0nat }) + calls_let_through(next, events.drop_first())
    } else {
        calls_let_through(initialized_step(initialized, 0), events.drop_first())
    }
}

/// However many calls of the hook come in, with successful initializations between them
/// and no failure or finalization, exactly one is let through when the library was not
/// initialized and there was a call, and none otherwise. (Callers on several threads are
/// put in one order by the lock around the state.)
pub proof fn law_let_through_once(initialized: bool, events: Seq<bool>)
    ensures
        calls_let_through(initialized, events) == (if !initialized && events.contains(true) { 1nat } else { 0nat }),
    decreases events.len(),
{
    if events.len() > 0 {
        let rest = events.drop_first();
        let next = if events[0] { true } else { initialized };
        law_let_through_once(next, rest);
        if events.contains(true) && !events[0] {
            let i = choose|i: int| 0 <= i < events.len() && events[i] == true;
            assert(rest[i - 1] == true);
        }
        if rest.contains(true) {
            let i = choose|i: int| 0 <= i < rest.len() && rest[i] == true;
            assert(events[i + 1] == true);
        }
        if events[0] {
            assert(events.contains(true)) by {
                assert(events[0] == true);
            }
        }
    }
}

} // verus!
