//! Grid layout planning: pure computation of screen positions for a number
//! of windows, and validation of a starting position against a work area.

use vstd::prelude::*;

verus! {

/// A screen coordinate pair.  The planner assigns positions row-major:
/// the slot with index `i` sits in row `i / max_horizontal_stack` and
/// column `i % max_horizontal_stack`.
#[derive(Clone, Copy, Debug, PartialEq, Eq, Structural)]
pub struct Position {
    pub x: i32,
    pub y: i32,
}

/// The usable region of a monitor, excluding reserved chrome such as
/// taskbars.  All four bounds are inclusive.
#[derive(Clone, Copy, Debug, PartialEq, Eq, Structural)]
pub struct WorkArea {
    pub left: i32,
    pub top: i32,
    pub right: i32,
    pub bottom: i32,
}

/// Stacking limits and geometry for one arrangement run.
#[derive(Clone, Copy, Debug, PartialEq, Eq, Structural)]
pub struct ArrangeConfig {
    pub max_horizontal_stack: usize,
    pub max_vertical_stack: usize,
    pub horizontal_spacing: i32,
    pub vertical_spacing: i32,
    pub window_width: i32,
    pub window_height: i32,
}

/// Configuration and placement errors.  They are fatal at configuration
/// time: neither ever reaches the placement stage.
#[derive(Clone, Copy, Debug, PartialEq, Eq, Structural)]
pub enum LayoutError {
    /// A stack limit of zero or a non-positive window dimension makes
    /// layout impossible.
    InvalidConfig,
    /// The starting position lies outside the monitor work area.
    InvalidPosition,
}

/// A configuration can be laid out: both stack limits are at least one and
/// the window dimensions are positive.  Spacing may be negative (overlap).
pub open spec fn config_valid(c: ArrangeConfig) -> bool {
    &&& c.max_horizontal_stack >= 1
    &&& c.max_vertical_stack >= 1
    &&& c.window_width >= 1
    &&& c.window_height >= 1
}

/// How many positions a plan for `count` windows holds: the grid capacity
/// caps the request, excess requests are silently dropped.
pub open spec fn grid_slot_count(count: int, c: ArrangeConfig) -> int {
    let cap = c.max_horizontal_stack as int * c.max_vertical_stack as int;
    if count <= cap {
        count
    } else {
        cap
    }
}

/// The x coordinate of the slot in column `h`.
pub open spec fn column_x(c: ArrangeConfig, origin: Position, h: int) -> int {
    origin.x + h * (c.window_width + c.horizontal_spacing)
}

/// The y coordinate of the slot in row `v`.
pub open spec fn row_y(c: ArrangeConfig, origin: Position, v: int) -> int {
    origin.y + v * (c.window_height + c.vertical_spacing)
}

/// The x coordinate of the slot with row-major index `i`.
pub open spec fn grid_x(c: ArrangeConfig, origin: Position, i: int) -> int {
    column_x(c, origin, i % (c.max_horizontal_stack as int))
}

/// The y coordinate of the slot with row-major index `i`.
pub open spec fn grid_y(c: ArrangeConfig, origin: Position, i: int) -> int {
    row_y(c, origin, i / (c.max_horizontal_stack as int))
}

/// Every position the plan would produce fits in a machine coordinate.
pub open spec fn grid_fits_i32(count: int, c: ArrangeConfig, origin: Position) -> bool {
    forall|i: int|
        #![trigger grid_x(c, origin, i)]
        #![trigger grid_y(c, origin, i)]
        0 <= i < grid_slot_count(count, c) ==> {
            &&& i32::MIN <= grid_x(c, origin, i) <= i32::MAX
            &&& i32::MIN <= grid_y(c, origin, i) <= i32::MAX
        }
}

/// Row-major index arithmetic: the slot in row `v`, column `h` has index
/// `v * max_h + h`, and that index decomposes back into `v` and `h`.
proof fn lemma_slot_index(max_h: int, v: int, h: int)
    requires
        max_h >= 1,
        0 <= v,
        0 <= h < max_h,
    ensures
        (v * max_h + h) % max_h == h,
        (v * max_h + h) / max_h == v,
{
    vstd::arithmetic::div_mod::lemma_fundamental_div_mod_converse(v * max_h + h, max_h, v, h);
}

/// Computes the ordered list of grid positions for `count` windows: pure
/// and deterministic, no operating-system interaction.  Positions are
/// generated row-major from `origin`; generation stops as soon as `count`
/// positions exist or both stack limits are exhausted, whichever comes
/// first.  Negative spacing is permitted and produces overlap.  A stack
/// limit of zero or a non-positive window dimension is rejected as
/// `InvalidConfig`; the truncation of excess requests is observable as the
/// length of the returned plan.
pub fn plan_grid(count: usize, config: &ArrangeConfig, origin: Position) -> (r: Result<
    Vec<Position>,
    LayoutError,
>)
    requires
        grid_fits_i32(count as int, *config, origin),
    ensures
        match r {
            Ok(ps) => {
                &&& config_valid(*config)
                &&& ps@.len() == grid_slot_count(count as int, *config)
                &&& forall|i: int|
                    0 <= i < ps@.len() ==> {
                        &&& (#[trigger] ps@[i]).x == grid_x(*config, origin, i)
                        &&& ps@[i].y == grid_y(*config, origin, i)
                    }
            },
            Err(e) => {
                &&& e == LayoutError::InvalidConfig
                &&& !config_valid(*config)
            },
        },
{
    let max_h = config.max_horizontal_stack;
    let max_v = config.max_vertical_stack;
    if max_h == 0 || max_v == 0 || config.window_width <= 0 || config.window_height <= 0 {
        return Err(LayoutError::InvalidConfig);
    }
    let step_x: i64 = config.window_width as i64 + config.horizontal_spacing as i64;
    let step_y: i64 = config.window_height as i64 + config.vertical_spacing as i64;
    let mut positions: Vec<Position> = Vec::new();
    let mut v: usize = 0;
    let mut cur_y: i32 = origin.y;
    while v < max_v && positions.len() < count
        invariant
            grid_fits_i32(count as int, *config, origin),
            config.max_horizontal_stack == max_h,
            config.max_vertical_stack == max_v,
            config_valid(*config),
            step_x == config.window_width + config.horizontal_spacing,
            step_y == config.window_height + config.vertical_spacing,
            v <= max_v,
            positions@.len() <= count,
            positions@.len() <= max_h as int * max_v as int,
            positions@.len() == count || positions@.len() == v as int * max_h as int,
            v < max_v && positions@.len() < count ==> {
                &&& positions@.len() == v as int * max_h as int
                &&& cur_y as int == row_y(*config, origin, v as int)
            },
            forall|i: int|
                0 <= i < positions@.len() ==> {
                    &&& (#[trigger] positions@[i]).x == grid_x(*config, origin, i)
                    &&& positions@[i].y == grid_y(*config, origin, i)
                },
        decreases max_v - v,
    {
        let mut h: usize = 0;
        let mut cur_x: i32 = origin.x;
        while h < max_h && positions.len() < count
            invariant
                grid_fits_i32(count as int, *config, origin),
                config.max_horizontal_stack == max_h,
                config.max_vertical_stack == max_v,
                config_valid(*config),
                step_x == config.window_width + config.horizontal_spacing,
                step_y == config.window_height + config.vertical_spacing,
                v < max_v,
                h <= max_h,
                positions@.len() == v as int * max_h as int + h as int,
                positions@.len() <= count,
                cur_y as int == row_y(*config, origin, v as int),
                h < max_h && positions@.len() < count ==> cur_x as int == column_x(
                    *config,
                    origin,
                    h as int,
                ),
                forall|i: int|
                    0 <= i < positions@.len() ==> {
                        &&& (#[trigger] positions@[i]).x == grid_x(*config, origin, i)
                        &&& positions@[i].y == grid_y(*config, origin, i)
                    },
            decreases max_h - h,
        {
            positions.push(Position { x: cur_x, y: cur_y });
            proof {
                let mh = max_h as int;
                let mv = max_v as int;
                let vi = v as int;
                let hi = h as int;
                let pushed = positions@.len() - 1;
                assert(pushed == vi * mh + hi);
                assert(vi * mh + hi < mv * mh) by (nonlinear_arith)
                    requires
                        0 <= vi,
                        0 <= hi,
                        vi + 1 <= mv,
                        hi < mh,
                ;
                assert(mv * mh == mh * mv) by (nonlinear_arith);
                lemma_slot_index(mh, vi, hi);
                assert(grid_x(*config, origin, pushed) == column_x(*config, origin, hi));
                assert(grid_y(*config, origin, pushed) == row_y(*config, origin, vi));
            }
            h = h + 1;
            if h < max_h && positions.len() < count {
                proof {
                    let mh = max_h as int;
                    let mv = max_v as int;
                    let vi = v as int;
                    let hi = h as int;
                    let next = positions@.len() as int;
                    assert(next == vi * mh + hi);
                    assert(vi * mh + hi < mv * mh) by (nonlinear_arith)
                        requires
                            0 <= vi,
                            0 <= hi,
                            vi + 1 <= mv,
                            hi < mh,
                    ;
                    assert(mv * mh == mh * mv) by (nonlinear_arith);
                    assert(next < grid_slot_count(count as int, *config));
                    lemma_slot_index(mh, vi, hi);
                    assert(grid_x(*config, origin, next) == column_x(*config, origin, hi));
                    assert(hi * (config.window_width + config.horizontal_spacing) == (hi - 1) * (
                    config.window_width + config.horizontal_spacing) + (config.window_width
                        + config.horizontal_spacing)) by (nonlinear_arith);
                }
                let next_x: i64 = cur_x as i64 + step_x;
                cur_x = next_x as i32;
            }
        }
        proof {
            let mh = max_h as int;
            let mv = max_v as int;
            let vi = v as int;
            let hi = h as int;
            assert(positions@.len() == vi * mh + hi);
            assert(vi * mh + hi <= (vi + 1) * mh) by (nonlinear_arith)
                requires
                    hi <= mh,
            ;
            assert((vi + 1) * mh <= mv * mh) by (nonlinear_arith)
                requires
                    0 <= mh,
                    vi + 1 <= mv,
            ;
            assert(mv * mh == mh * mv) by (nonlinear_arith);
            if positions@.len() != count {
                assert(h == max_h);
                assert(vi * mh + mh == (vi + 1) * mh) by (nonlinear_arith);
            }
        }
        v = v + 1;
        if v < max_v && positions.len() < count {
            proof {
                let mh = max_h as int;
                let mv = max_v as int;
                let vi = v as int;
                let next = positions@.len() as int;
                assert(next == vi * mh);
                assert(vi * mh + mh <= mv * mh) by (nonlinear_arith)
                    requires
                        0 <= vi,
                        vi + 1 <= mv,
                        0 <= mh,
                ;
                assert(mv * mh == mh * mv) by (nonlinear_arith);
                assert(next < grid_slot_count(count as int, *config));
                lemma_slot_index(mh, vi, 0);
                assert(grid_y(*config, origin, next) == row_y(*config, origin, vi));
                assert(vi * (config.window_height + config.vertical_spacing) == (vi - 1) * (
                config.window_height + config.vertical_spacing) + (config.window_height
                    + config.vertical_spacing)) by (nonlinear_arith);
            }
            let next_y: i64 = cur_y as i64 + step_y;
            cur_y = next_y as i32;
        }
    }
    proof {
        let mh = max_h as int;
        let mv = max_v as int;
        let vi = v as int;
        assert(vi * mh == mh * vi) by (nonlinear_arith);
        assert(mv * mh == mh * mv) by (nonlinear_arith);
    }
    Ok(positions)
}

/// Accepts a starting position if and only if it lies inside the work
/// area; all four bounds are inclusive, so a position exactly on an edge
/// is accepted.
pub open spec fn pos_in_work_area(p: Position, wa: WorkArea) -> bool {
    &&& wa.left <= p.x <= wa.right
    &&& wa.top <= p.y <= wa.bottom
}

/// Rejects a starting position outside the monitor work area before any
/// window is touched, since it would place every window off-screen.
pub fn validate_pos(start_pos: &Position, work_area: &WorkArea) -> (r: Result<(), LayoutError>)
    ensures
        r is Ok <==> pos_in_work_area(*start_pos, *work_area),
        r is Err ==> r->Err_0 == LayoutError::InvalidPosition,
{
    if start_pos.x < work_area.left || start_pos.x > work_area.right || start_pos.y
        < work_area.top || start_pos.y > work_area.bottom {
        Err(LayoutError::InvalidPosition)
    } else {
        Ok(())
    }
}

} // verus!
