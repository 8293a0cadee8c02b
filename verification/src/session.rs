//! Session-level data: the engine's configuration, its error taxonomy,
//! and the choice of shell to spawn.
//!
//! Allocating the pseudo-terminal, spawning the child and every read or
//! write on the master side are operating-system work done at the caller's
//! edge; this module holds the plain values those edges and the verified
//! engine exchange.

use vstd::prelude::*;

verus! {

/// Configuration constructed once at startup and passed by reference into
/// the components that need it, never held as ambient mutable state.
#[derive(Clone, Copy, PartialEq, Eq, Debug)]
pub struct EngineConfig {
    /// Largest number of bytes one read from the terminal may return.
    pub chunk_size: usize,
    /// Milliseconds the render consumer waits after emitting a character.
    pub pacing_delay_ms: u64,
}

impl EngineConfig {
    /// The default configuration: kilobyte reads and a short pacing delay.
    pub fn new() -> (c: EngineConfig)
        ensures
            c.chunk_size == 1024,
            c.pacing_delay_ms == 4,
    {
        EngineConfig { chunk_size: 1024, pacing_delay_ms: 4 }
    }
}

/// The errors the session engine surfaces.  A failed read is not here: end
/// of stream and read errors alike simply stop the output pump.
#[derive(Clone, Copy, PartialEq, Eq, Debug)]
pub enum SessionError {
    /// The host could not provide a pseudo-terminal.
    PtyAllocation,
    /// The shell executable was not found or could not be started.
    Spawn,
    /// A write to a closed or broken terminal, surfaced to the input
    /// relay's caller.
    WriteFailure,
}

/// Chooses the shell command to spawn: prefer `zsh` when the host has it,
/// fall back to `bash`.  Whether `zsh` exists is probed at the caller's
/// edge.
pub fn choose_shell(zsh_available: bool) -> (path: &'static str)
    ensures
        zsh_available ==> path@ == "/bin/zsh"@,
        !zsh_available ==> path@ == "/bin/bash"@,
{
    if zsh_available {
        "/bin/zsh"
    } else {
        "/bin/bash"
    }
}

} // verus!
