use spawners::arrange::arrange;
use spawners::arrange::pair_placements;
use spawners::arrange::PlacementError;
use spawners::layout::Position;

fn pos(x: i32, y: i32) -> Position {
    Position { x, y }
}

#[test]
fn pairs_by_index_with_the_shorter_length_winning() {
    let handles: Vec<u64> = vec![100, 200, 300];
    let positions = vec![pos(0, 0), pos(10, 0)];
    let pairs = pair_placements(&handles, &positions);
    assert_eq!(pairs.len(), 2);
    assert_eq!(pairs[0].handle, 100);
    assert_eq!(pairs[0].position, pos(0, 0));
    assert_eq!(pairs[1].handle, 200);
    assert_eq!(pairs[1].position, pos(10, 0));

    let pairs2 = pair_placements(&vec![100], &positions);
    assert_eq!(pairs2.len(), 1);
}

#[test]
fn pairing_with_nothing_is_empty() {
    assert!(pair_placements(&Vec::new(), &vec![pos(0, 0)]).is_empty());
    assert!(pair_placements(&vec![1u64], &Vec::new()).is_empty());
}

#[test]
fn one_failure_leaves_the_neighbouring_success_untouched() {
    let handles: Vec<u64> = vec![100, 200];
    let positions = vec![pos(0, 0), pos(10, 0)];
    let reports: Vec<Result<(), PlacementError>> =
        vec![Err(PlacementError { os_error_code: 5 }), Ok(())];
    let outcomes = arrange(&handles, &positions, &reports);
    assert_eq!(outcomes.len(), 2);
    assert_eq!(outcomes[0].index, 0);
    assert_eq!(outcomes[0].handle, 100);
    assert_eq!(outcomes[0].result, Err(PlacementError { os_error_code: 5 }));
    assert_eq!(outcomes[1].index, 1);
    assert_eq!(outcomes[1].handle, 200);
    assert_eq!(outcomes[1].position, pos(10, 0));
    assert_eq!(outcomes[1].result, Ok(()));
}

#[test]
fn every_outcome_is_attributable() {
    let handles: Vec<u64> = vec![7, 8, 9];
    let positions = vec![pos(1, 1), pos(2, 2), pos(3, 3)];
    let reports: Vec<Result<(), PlacementError>> = vec![Ok(()), Ok(()), Ok(())];
    let outcomes = arrange(&handles, &positions, &reports);
    for (i, o) in outcomes.iter().enumerate() {
        assert_eq!(o.index, i);
        assert_eq!(o.handle, handles[i]);
        assert_eq!(o.position, positions[i]);
        assert_eq!(o.result, Ok(()));
    }
}

#[test]
fn an_empty_batch_has_no_outcomes() {
    let outcomes = arrange(&Vec::new(), &Vec::new(), &Vec::new());
    assert!(outcomes.is_empty());
}
