//! The bridge's per-context state: whether the platform's component
//! subsystem has been initialised on the context that owns the opener.
use vstd::prelude::*;

verus! {

/// Opener bound to one execution context (one thread). Initialisation of
/// the platform subsystem is done lazily, on the first operation, and never
/// undone.
pub struct WindowsFileOpener {
    initialized: bool,
}

/// Whether a call of `enter` on a context whose flag reads `initialized`
/// asks for the initialisation to be performed.
pub open spec fn needs_init(initialized: bool) -> bool {
    !initialized
}

/// Number of initialisations asked for by `n` successive operations on a
/// context whose flag reads `initialized` before the first of them.
pub open spec fn inits_over(initialized: bool, n: nat) -> nat
    decreases n,
{
    if n == 0 {
        0
    } else {
        (if needs_init(initialized) { 1nat } else { 0nat }) + inits_over(true, (n - 1) as nat)
    }
}

impl WindowsFileOpener {
    pub closed spec fn initialized(&self) -> bool {
        self.initialized
    }

    /// An opener for a context on which nothing has been initialised yet.
    pub fn new() -> (r: Self)
        ensures
            !r.initialized(),
    {
        WindowsFileOpener { initialized: false }
    }

    pub fn is_initialized(&self) -> (r: bool)
        ensures
            r == self.initialized(),
    {
        self.initialized
    }

    /// Starts an operation. Returns whether the caller must initialise the
    /// platform subsystem now; afterwards the context counts as initialised.
    pub fn enter(&mut self) -> (init_now: bool)
        ensures
            init_now == needs_init(old(self).initialized()),
            final(self).initialized(),
    {
        let init_now = !self.initialized;
        self.initialized = true;
        init_now
    }
}

/// However many operations run on one context, initialisation is asked for
/// at most once, and exactly once when the context starts uninitialised and
/// runs at least one operation.
pub proof fn lemma_init_at_most_once(initialized: bool, n: nat)
    ensures
        inits_over(initialized, n) <= 1,
        inits_over(initialized, n) == (if !initialized && n > 0 { 1nat } else { 0nat }),
    decreases n,
{
    if n > 0 {
        lemma_init_at_most_once(true, (n - 1) as nat);
    }
}

} // verus!
