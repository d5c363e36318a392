//! Filtering an enumeration of top-level windows down to the "real"
//! application windows owned by a set of target processes.
//!
//! The enumeration itself is the operating system's; one pass hands this
//! module a list of `WindowInfo` values, each carrying a window's handle,
//! its owning process and the three observations the main-window predicate
//! reads.  Handles are transient references, valid only at the instant of
//! enumeration: every later operation on one must treat failure as a
//! recoverable per-item condition.

use vstd::prelude::*;

use crate::process::ProcessRecord;
use crate::process::contains_pid;
use crate::matcher::matching_pids;
use crate::matcher::pids_by_exe_name;

verus! {

/// What one enumeration pass observed of a top-level window: its handle,
/// its owning process, and the three facts the main-window predicate
/// reads: whether it is visible, whether it is its own root ancestor (not
/// a child or owned window), and whether it carries the tool-window style.
#[derive(Clone, Copy, Debug, PartialEq, Eq, Structural)]
pub struct WindowInfo {
    pub handle: u64,
    pub owner_pid: u32,
    pub visible: bool,
    pub is_root: bool,
    pub tool_window: bool,
}

/// Errors of window discovery.
#[derive(Clone, Copy, Debug, PartialEq, Eq, Structural)]
pub enum DiscoveryError {
    /// The target process is this process itself, whose windows must not
    /// be manipulated.
    CurrentProcess,
    /// No enumerated window is owned by the target process — an expected,
    /// recoverable state for a freshly spawned process.
    WindowNotFound,
    /// The bounded retry was exhausted without a window appearing.
    WindowDiscoveryTimeout,
}

/// The main-window predicate: a window counts as a real application
/// window when it is visible, is its own root ancestor, and does not
/// carry the tool-window style.
pub open spec fn is_main_window(w: WindowInfo) -> bool {
    w.visible && w.is_root && !w.tool_window
}

/// Classifies a window as a top-level main window, exactly as
/// `is_main_window` states.
pub fn is_top_level_main(w: &WindowInfo) -> (r: bool)
    ensures
        r == is_main_window(*w),
{
    w.visible && w.is_root && !w.tool_window
}

/// The handles of the main windows owned by one of the given processes,
/// in enumeration order.
pub open spec fn kept_handles(ws: Seq<WindowInfo>, pids: Set<u32>) -> Seq<u64>
    decreases ws.len(),
{
    if ws.len() == 0 {
        Seq::empty()
    } else {
        let rest = kept_handles(ws.drop_last(), pids);
        if is_main_window(ws.last()) && pids.contains(ws.last().owner_pid) {
            rest.push(ws.last().handle)
        } else {
            rest
        }
    }
}

/// Law: an empty pid set keeps no window, whatever was enumerated.  The
/// caller may therefore skip enumeration entirely for an empty set.
pub proof fn lemma_empty_pid_set_keeps_nothing(ws: Seq<WindowInfo>, pids: Set<u32>)
    requires
        forall|p: u32| !pids.contains(p),
    ensures
        kept_handles(ws, pids) == Seq::<u64>::empty(),
    decreases ws.len(),
{
    if ws.len() > 0 {
        lemma_empty_pid_set_keeps_nothing(ws.drop_last(), pids);
    }
    assert(kept_handles(ws, pids) =~= Seq::<u64>::empty());
}

/// Filters one enumeration pass to the main windows owned by the given
/// processes.  An empty pid set short-circuits: nothing needs to be
/// looked at.  No surviving window is not an error — "no windows yet" is
/// an expected state for freshly spawned processes.
pub fn hwnds_for_pids(windows: &Vec<WindowInfo>, pids: &Vec<u32>) -> (handles: Vec<u64>)
    ensures
        handles@ == kept_handles(windows@, pids@.to_set()),
{
    if pids.len() == 0 {
        proof {
            lemma_empty_pid_set_keeps_nothing(windows@, pids@.to_set());
        }
        return Vec::new();
    }
    let mut handles: Vec<u64> = Vec::new();
    let mut i: usize = 0;
    while i < windows.len()
        invariant
            i <= windows@.len(),
            handles@ == kept_handles(windows@.take(i as int), pids@.to_set()),
        decreases windows@.len() - i,
    {
        let w = windows[i];
        if is_top_level_main(&w) && contains_pid(pids, w.owner_pid) {
            handles.push(w.handle);
        }
        proof {
            assert(windows@.take(i + 1).drop_last() =~= windows@.take(i as int));
            assert(windows@.take(i + 1).last() == windows@[i as int]);
        }
        i = i + 1;
    }
    proof {
        assert(windows@.take(windows@.len() as int) =~= windows@);
    }
    handles
}

/// Resolves a target executable name to the main windows its processes
/// own: the matcher picks the processes out of the snapshot, the filter
/// picks their windows out of the enumeration.
pub fn hwnds_for_exe(
    records: &Vec<ProcessRecord>,
    windows: &Vec<WindowInfo>,
    exe_name: &str,
) -> (handles: Vec<u64>)
    ensures
        handles@ == kept_handles(windows@, matching_pids(records@, exe_name@)),
{
    let pids = pids_by_exe_name(records, exe_name);
    if pids.len() == 0 {
        proof {
            assert forall|p: u32| !matching_pids(records@, exe_name@).contains(p) by {
                assert(!pids@.contains(p));
            }
            lemma_empty_pid_set_keeps_nothing(windows@, matching_pids(records@, exe_name@));
        }
        return Vec::new();
    }
    let handles = hwnds_for_pids(windows, &pids);
    proof {
        assert(pids@.to_set() =~= matching_pids(records@, exe_name@));
    }
    handles
}

/// The handle of the first enumerated main window owned by the process.
/// The main-window predicate applies on every enumeration path, discovery
/// included: a freshly spawned application is up once a real application
/// window of it exists, not a hidden or tool window.
pub open spec fn first_main_window_of(ws: Seq<WindowInfo>, pid: u32) -> Option<u64>
    decreases ws.len(),
{
    if ws.len() == 0 {
        None
    } else if ws[0].owner_pid == pid && is_main_window(ws[0]) {
        Some(ws[0].handle)
    } else {
        first_main_window_of(ws.drop_first(), pid)
    }
}

proof fn lemma_first_main_window_of_step(ws: Seq<WindowInfo>, pid: u32, i: int)
    requires
        0 <= i < ws.len(),
        !(ws[i].owner_pid == pid && is_main_window(ws[i])),
    ensures
        first_main_window_of(ws.skip(i), pid) == first_main_window_of(ws.skip(i + 1), pid),
{
    assert(ws.skip(i).drop_first() =~= ws.skip(i + 1));
    assert(ws.skip(i)[0] == ws[i]);
}

/// Looks one enumeration pass up for a main window of the target process
/// and returns the first one found, in enumeration order.  The windows of
/// the current process itself are off limits; a process without a main
/// window yet is reported as `WindowNotFound`, the recoverable condition
/// the retry policy acts on.
pub fn find_window_by_process(
    windows: &Vec<WindowInfo>,
    target_pid: u32,
    current_pid: u32,
) -> (r: Result<u64, DiscoveryError>)
    ensures
        target_pid == current_pid ==> r == Err::<u64, DiscoveryError>(
            DiscoveryError::CurrentProcess,
        ),
        target_pid != current_pid ==> match r {
            Ok(h) => first_main_window_of(windows@, target_pid) == Some(h),
            Err(e) => {
                &&& e == DiscoveryError::WindowNotFound
                &&& first_main_window_of(windows@, target_pid) is None
            },
        },
{
    if target_pid == current_pid {
        return Err(DiscoveryError::CurrentProcess);
    }
    proof {
        assert(windows@.skip(0) =~= windows@);
    }
    let mut i: usize = 0;
    while i < windows.len()
        invariant
            i <= windows@.len(),
            target_pid != current_pid,
            first_main_window_of(windows@, target_pid) == first_main_window_of(
                windows@.skip(i as int),
                target_pid,
            ),
        decreases windows@.len() - i,
    {
        let w = windows[i];
        if w.owner_pid == target_pid && is_top_level_main(&w) {
            proof {
                assert(windows@.skip(i as int)[0] == windows@[i as int]);
            }
            return Ok(w.handle);
        }
        proof {
            lemma_first_main_window_of_step(windows@, target_pid, i as int);
        }
        i = i + 1;
    }
    proof {
        assert(windows@.skip(windows@.len() as int) =~= Seq::<WindowInfo>::empty());
    }
    Err(DiscoveryError::WindowNotFound)
}

} // verus!
