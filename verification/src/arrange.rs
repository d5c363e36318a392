//! Best-effort arrangement: pairing resolved window handles with planned
//! positions, and the per-window outcomes of applying them.
//!
//! The window manager calls themselves (restore, then move and resize)
//! happen outside; this module decides the pairing — strictly by index,
//! the shorter sequence winning — and shapes each report so that every
//! failure is individually attributable.  Pairings are independent: one
//! window's failure never touches its neighbours.

use vstd::prelude::*;

use crate::layout::Position;

verus! {

/// A planned placement: which window goes where.
#[derive(Clone, Copy, Debug, PartialEq, Eq, Structural)]
pub struct Placement {
    pub handle: u64,
    pub position: Position,
}

/// Why one window could not be shown or moved: the code the window
/// manager reported (a stale handle, a rejected call).  Recoverable and
/// per-window; it never aborts the batch.
#[derive(Clone, Copy, Debug, PartialEq, Eq, Structural)]
pub struct PlacementError {
    pub os_error_code: i32,
}

/// The outcome of one placement, attributable to the window it concerns:
/// its index in the batch, the handle and position that were applied, and
/// what the window manager reported.
#[derive(Clone, Copy, Debug, PartialEq, Eq)]
pub struct ArrangeOutcome {
    pub index: usize,
    pub handle: u64,
    pub position: Position,
    pub result: Result<(), PlacementError>,
}

/// The shorter of two lengths: the number of pairs a zip produces.
pub open spec fn paired_len(a: int, b: int) -> int {
    if a <= b {
        a
    } else {
        b
    }
}

/// Pairs window handles with planned positions strictly by index; the
/// shorter sequence wins and the excess of the longer one is dropped.
/// The planner never consults the handles, so this pairing is the only
/// place where a window meets its position.
pub fn pair_placements(handles: &Vec<u64>, positions: &Vec<Position>) -> (r: Vec<Placement>)
    ensures
        r@.len() == paired_len(handles@.len() as int, positions@.len() as int),
        forall|i: int|
            0 <= i < r@.len() ==> (#[trigger] r@[i]).handle == handles@[i] && r@[i].position
                == positions@[i],
{
    let n = if handles.len() <= positions.len() {
        handles.len()
    } else {
        positions.len()
    };
    let mut r: Vec<Placement> = Vec::new();
    let mut i: usize = 0;
    while i < n
        invariant
            i <= n,
            n == paired_len(handles@.len() as int, positions@.len() as int),
            r@.len() == i,
            forall|j: int|
                0 <= j < i ==> (#[trigger] r@[j]).handle == handles@[j] && r@[j].position
                    == positions@[j],
        decreases n - i,
    {
        r.push(Placement { handle: handles[i], position: positions[i] });
        i = i + 1;
    }
    r
}

/// The outcomes are the pointwise report of the batch: one per pair, in
/// pairing order, each carrying its own index, handle, position and the
/// window manager's report for that pair alone.
pub open spec fn arrange_outcomes_correct(
    handles: Seq<u64>,
    positions: Seq<Position>,
    results: Seq<Result<(), PlacementError>>,
    outcomes: Seq<ArrangeOutcome>,
) -> bool {
    &&& outcomes.len() == paired_len(handles.len() as int, positions.len() as int)
    &&& forall|i: int|
        0 <= i < outcomes.len() ==> {
            &&& (#[trigger] outcomes[i]).index == i
            &&& outcomes[i].handle == handles[i]
            &&& outcomes[i].position == positions[i]
            &&& outcomes[i].result == results[i]
        }
}

/// Assembles the per-window outcomes of one arrangement batch.
/// `move_results` holds, pair by pair, what the window manager reported
/// when the caller restored and moved that window.  Every pair gets its
/// own outcome; a failure is collected, never propagated, so the batch is
/// best-effort rather than transactional.
pub fn arrange(
    handles: &Vec<u64>,
    positions: &Vec<Position>,
    move_results: &Vec<Result<(), PlacementError>>,
) -> (outcomes: Vec<ArrangeOutcome>)
    requires
        move_results@.len() == paired_len(handles@.len() as int, positions@.len() as int),
    ensures
        arrange_outcomes_correct(handles@, positions@, move_results@, outcomes@),
{
    let mut outcomes: Vec<ArrangeOutcome> = Vec::new();
    let mut i: usize = 0;
    while i < move_results.len()
        invariant
            i <= move_results@.len(),
            move_results@.len() == paired_len(handles@.len() as int, positions@.len() as int),
            outcomes@.len() == i,
            forall|j: int|
                0 <= j < i ==> {
                    &&& (#[trigger] outcomes@[j]).index == j
                    &&& outcomes@[j].handle == handles@[j]
                    &&& outcomes@[j].position == positions@[j]
                    &&& outcomes@[j].result == move_results@[j]
                },
        decreases move_results@.len() - i,
    {
        outcomes.push(
            ArrangeOutcome {
                index: i,
                handle: handles[i],
                position: positions[i],
                result: move_results[i],
            },
        );
        i = i + 1;
    }
    outcomes
}

/// Law: placements are independent.  Whatever the window manager reported
/// for the other pairs, two batches over the same handles and positions
/// whose reports agree on one pair agree on that pair's outcome: a
/// neighbouring failure leaves a successful placement untouched.
pub proof fn lemma_outcomes_independent(
    handles: Seq<u64>,
    positions: Seq<Position>,
    results1: Seq<Result<(), PlacementError>>,
    results2: Seq<Result<(), PlacementError>>,
    outcomes1: Seq<ArrangeOutcome>,
    outcomes2: Seq<ArrangeOutcome>,
    i: int,
)
    requires
        arrange_outcomes_correct(handles, positions, results1, outcomes1),
        arrange_outcomes_correct(handles, positions, results2, outcomes2),
        0 <= i < outcomes1.len(),
        results1[i] == results2[i],
    ensures
        outcomes1[i] == outcomes2[i],
{
}

} // verus!
