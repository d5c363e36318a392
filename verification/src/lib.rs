//! A verified engine for resolving operating-system processes to their
//! top-level windows and arranging those windows into a grid.
//!
//! The library holds the decision logic: matching process names against a
//! target, closing over descendant processes in one snapshot, filtering an
//! enumeration of windows down to the "real" application windows of a set of
//! processes, the bounded retry policy for windows that have not appeared
//! yet, grid position planning, and the best-effort pairing of handles with
//! positions.  Everything that talks to the operating system (taking the
//! snapshot, enumerating or moving windows, sleeping) lives outside and
//! hands this library plain values.

pub mod arrange;
pub mod cli;
pub mod descendants;
pub mod layout;
pub mod matcher;
pub mod process;
pub mod retry;
pub mod windowing;
