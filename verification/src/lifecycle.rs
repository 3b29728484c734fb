//! The plugin's process-wide lifecycle.
//!
//! A plugin is initialized at most once behind a latch, started only after
//! initialization, stopped by raising a cancellation flag, and shut down by
//! raising the flag and discarding the shared runtime. The flag and runtime
//! themselves live outside this crate; the host drives this model alongside
//! them and the model pins down what each entry point may change.

use vstd::prelude::*;

verus! {

/// The process-wide state the four entry points act on.
#[derive(Debug, Clone, Copy, PartialEq, Eq, Structural)]
pub struct PluginState {
    /// Whether the one-shot initialization latch has fired.
    pub initialized: bool,
    /// Whether the agent managers have been started.
    pub started: bool,
    /// Whether the cancellation flag is raised.
    pub cancelled: bool,
    /// Whether the shared worker runtime is still alive.
    pub runtime_alive: bool,
}

/// What initialization does: fire the latch if it has not fired, change
/// nothing otherwise.
pub open spec fn spec_init(s: PluginState) -> PluginState {
    if s.initialized {
        s
    } else {
        PluginState { initialized: true, ..s }
    }
}

/// Initializing twice has the effect of initializing once: the latch makes
/// every later call a no-op.
pub proof fn lemma_init_idempotent(s: PluginState)
    ensures
        spec_init(spec_init(s)) == spec_init(s),
{
}

/// A plugin that has not been initialized and not been started.
pub fn fresh_state() -> (r: PluginState)
    ensures
        r == (PluginState { initialized: false, started: false, cancelled: false, runtime_alive: true }),
{
    PluginState { initialized: false, started: false, cancelled: false, runtime_alive: true }
}

/// The `init` entry point: fires the one-shot latch; every later call leaves
/// the state untouched.
pub fn init(state: &mut PluginState)
    ensures
        *final(state) == spec_init(*old(state)),
{
    if !state.initialized {
        state.initialized = true;
    }
}

/// The `start` entry point: starts the agent managers and clears the
/// cancellation flag, but only once the latch has fired; before that it does
/// nothing. Returns whether the managers were started.
pub fn start(state: &mut PluginState) -> (r: bool)
    ensures
        r == old(state).initialized,
        old(state).initialized ==> *final(state) == (PluginState {
            started: true,
            cancelled: false,
            ..*old(state)
        }),
        !old(state).initialized ==> *final(state) == *old(state),
{
    if state.initialized {
        state.started = true;
        state.cancelled = false;
        true
    } else {
        false
    }
}

/// The `stop` entry point: raises the cancellation flag and touches nothing
/// else; the runtime stays alive.
pub fn stop(state: &mut PluginState)
    ensures
        *final(state) == (PluginState { cancelled: true, ..*old(state) }),
{
    state.cancelled = true;
}

/// The `shutdown` entry point: raises the cancellation flag and discards the
/// shared runtime.
pub fn shutdown(state: &mut PluginState)
    ensures
        *final(state) == (PluginState { cancelled: true, runtime_alive: false, ..*old(state) }),
{
    state.cancelled = true;
    state.runtime_alive = false;
}

} // verus!
