use spawners::layout::plan_grid;
use spawners::layout::validate_pos;
use spawners::layout::ArrangeConfig;
use spawners::layout::LayoutError;
use spawners::layout::Position;
use spawners::layout::WorkArea;

fn config(max_h: usize, max_v: usize, h_sp: i32, v_sp: i32, w: i32, h: i32) -> ArrangeConfig {
    ArrangeConfig {
        max_horizontal_stack: max_h,
        max_vertical_stack: max_v,
        horizontal_spacing: h_sp,
        vertical_spacing: v_sp,
        window_width: w,
        window_height: h,
    }
}

fn xy(ps: &[Position]) -> Vec<(i32, i32)> {
    ps.iter().map(|p| (p.x, p.y)).collect()
}

#[test]
fn plan_produces_row_major_positions() {
    let ps = plan_grid(5, &config(2, 3, 10, 10, 100, 100), Position { x: 0, y: 0 }).unwrap();
    assert_eq!(xy(&ps), vec![(0, 0), (110, 0), (0, 110), (110, 110), (0, 220)]);
}

#[test]
fn plan_length_is_min_of_count_and_capacity() {
    let c = config(2, 2, 0, 0, 50, 50);
    assert_eq!(plan_grid(10, &c, Position { x: 0, y: 0 }).unwrap().len(), 4);
    assert_eq!(plan_grid(3, &c, Position { x: 0, y: 0 }).unwrap().len(), 3);
    assert_eq!(plan_grid(0, &c, Position { x: 0, y: 0 }).unwrap().len(), 0);
}

#[test]
fn plan_rejects_zero_horizontal_stack() {
    match plan_grid(5, &config(0, 3, 10, 10, 100, 100), Position { x: 0, y: 0 }) {
        Err(LayoutError::InvalidConfig) => {}
        other => panic!("expected InvalidConfig, got {:?}", other),
    }
}

#[test]
fn plan_rejects_zero_vertical_stack() {
    match plan_grid(5, &config(2, 0, 10, 10, 100, 100), Position { x: 0, y: 0 }) {
        Err(LayoutError::InvalidConfig) => {}
        other => panic!("expected InvalidConfig, got {:?}", other),
    }
}

#[test]
fn plan_rejects_non_positive_window_dimensions() {
    match plan_grid(5, &config(2, 3, 10, 10, 0, 100), Position { x: 0, y: 0 }) {
        Err(LayoutError::InvalidConfig) => {}
        other => panic!("expected InvalidConfig, got {:?}", other),
    }
}

#[test]
fn negative_spacing_overlaps_windows() {
    let ps = plan_grid(3, &config(3, 1, -20, 0, 100, 100), Position { x: 5, y: 7 }).unwrap();
    assert_eq!(xy(&ps), vec![(5, 7), (85, 7), (165, 7)]);
}

#[test]
fn plan_starts_from_the_origin() {
    let ps = plan_grid(2, &config(1, 2, 0, 4, 300, 200), Position { x: -30, y: 40 }).unwrap();
    assert_eq!(xy(&ps), vec![(-30, 40), (-30, 244)]);
}

#[test]
fn work_area_bounds_are_inclusive() {
    let wa = WorkArea { left: 0, top: 0, right: 1920, bottom: 1080 };
    assert!(validate_pos(&Position { x: 1920, y: 1080 }, &wa).is_ok());
    assert!(validate_pos(&Position { x: 0, y: 0 }, &wa).is_ok());
}

#[test]
fn one_unit_beyond_the_work_area_is_rejected() {
    let wa = WorkArea { left: 0, top: 0, right: 1920, bottom: 1080 };
    match validate_pos(&Position { x: 1921, y: 1080 }, &wa) {
        Err(LayoutError::InvalidPosition) => {}
        other => panic!("expected InvalidPosition, got {:?}", other),
    }
    match validate_pos(&Position { x: -1, y: 0 }, &wa) {
        Err(LayoutError::InvalidPosition) => {}
        other => panic!("expected InvalidPosition, got {:?}", other),
    }
    match validate_pos(&Position { x: 10, y: 1081 }, &wa) {
        Err(LayoutError::InvalidPosition) => {}
        other => panic!("expected InvalidPosition, got {:?}", other),
    }
}
