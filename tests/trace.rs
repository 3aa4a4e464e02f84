use square_tracer::{trace, Direction, OutlineError, Vec2};

fn squares(cells: &[(i32, i32)]) -> Vec<Vec2> {
    cells.iter().map(|&(x, y)| Vec2::new(x, y)).collect()
}

fn pairs(vs: &[Vec2]) -> Vec<(i32, i32)> {
    vs.iter().map(|v| (v.x, v.y)).collect()
}

#[test]
fn unit_square_at_origin() {
    let r = trace(&squares(&[(0, 0)]), Some(1)).unwrap();
    assert_eq!(pairs(&r), vec![(0, 0), (0, 1), (1, 1), (1, 0)]);
}

#[test]
fn single_square_corners_are_scaled() {
    let r = trace(&squares(&[(2, -3)]), Some(3)).unwrap();
    assert_eq!(pairs(&r), vec![(6, -9), (6, -6), (9, -6), (9, -9)]);
}

#[test]
fn two_squares_side_by_side() {
    let r = trace(&squares(&[(0, 0), (1, 0)]), Some(1)).unwrap();
    assert_eq!(pairs(&r), vec![(0, 0), (0, 1), (2, 1), (2, 0)]);
}

#[test]
fn right_square_listed_first_traces_union() {
    let r = trace(&squares(&[(1, 0), (0, 0)]), Some(1)).unwrap();
    assert_eq!(pairs(&r), vec![(0, 0), (0, 1), (2, 1), (2, 0)]);
}

#[test]
fn walk_starts_at_left_end_of_run() {
    let r = trace(&squares(&[(2, 0), (0, 0), (1, 0)]), None).unwrap();
    assert_eq!(pairs(&r), vec![(0, 0), (0, 1), (3, 1), (3, 0)]);
}

#[test]
fn first_square_in_lower_row() {
    let a = pairs(&trace(&squares(&[(0, 0), (0, 1), (1, 1)]), None).unwrap());
    let b = pairs(&trace(&squares(&[(1, 1), (0, 0), (0, 1)]), None).unwrap());
    assert_eq!(a, vec![(0, 0), (0, 2), (2, 2), (2, 1), (1, 1), (1, 0)]);
    assert_eq!(b, vec![(0, 1), (0, 2), (2, 2), (2, 1), (1, 1), (1, 0), (0, 0)]);
}

#[test]
fn closed_loop_never_repeats_start() {
    let r = trace(&squares(&[(0, -2)]), Some(2)).unwrap();
    assert_eq!(pairs(&r), vec![(0, -4), (0, -2), (2, -2), (2, -4)]);
    assert_ne!(r[0], r[r.len() - 1]);
}

#[test]
fn coordinate_arithmetic() {
    assert_eq!(Vec2::new(2, -3).plus(Vec2::new(-5, 7)), Vec2::new(-3, 4));
    assert_eq!(Vec2::new(2, -3).times(4), Vec2::new(8, -12));
    assert_eq!(Vec2::new(2, -3).moved(Direction::Up), Vec2::new(2, -4));
    assert_eq!(Vec2::new(2, -3).moved(Direction::Down), Vec2::new(2, -2));
    assert_eq!(Vec2::new(2, -3).moved(Direction::Left), Vec2::new(1, -3));
    assert_eq!(Vec2::new(2, -3).moved(Direction::Right), Vec2::new(3, -3));
}

#[test]
fn repeated_squares_do_not_change_trace() {
    let a = trace(&squares(&[(0, 0), (0, 1), (1, 1)]), Some(2)).unwrap();
    let b = trace(&squares(&[(0, 0), (1, 1), (0, 1), (1, 1), (0, 0)]), Some(2)).unwrap();
    assert_eq!(a, b);
}

#[test]
fn diagonal_squares_do_not_crash() {
    let r = trace(&squares(&[(0, 0), (1, 1)]), Some(1)).unwrap();
    assert_eq!(
        pairs(&r),
        vec![(0, 0), (0, 1), (1, 1), (1, 2), (2, 2), (2, 1), (1, 1), (1, 0)]
    );
}

#[test]
fn l_shape_outline() {
    let r = trace(&squares(&[(0, 0), (0, 1), (1, 1)]), None).unwrap();
    assert_eq!(pairs(&r), vec![(0, 0), (0, 2), (2, 2), (2, 1), (1, 1), (1, 0)]);
}

#[test]
fn full_block_skips_inner_cell() {
    let cells = [(0, 0), (1, 0), (2, 0), (0, 1), (2, 1), (0, 2), (1, 2), (2, 2), (1, 1)];
    let r = trace(&squares(&cells), None).unwrap();
    assert_eq!(pairs(&r), vec![(0, 0), (0, 3), (3, 3), (3, 0)]);
}

#[test]
fn absent_scale_is_one() {
    let sq = squares(&[(0, 0), (0, 1), (1, 1)]);
    assert_eq!(trace(&sq, None), trace(&sq, Some(1)));
}

#[test]
fn scale_multiplies_every_vertex() {
    let sq = squares(&[(0, 0), (0, 1), (1, 1)]);
    let unit = trace(&sq, Some(1)).unwrap();
    let tripled = trace(&sq, Some(3)).unwrap();
    let expected: Vec<(i32, i32)> = unit.iter().map(|v| (3 * v.x, 3 * v.y)).collect();
    assert_eq!(pairs(&tripled), expected);
    assert_eq!(pairs(&tripled), vec![(0, 0), (0, 6), (6, 6), (6, 3), (3, 3), (3, 0)]);
}

#[test]
fn reordering_after_first_square_keeps_trace() {
    let a = trace(&squares(&[(0, 0), (0, 1), (1, 1)]), Some(2)).unwrap();
    let b = trace(&squares(&[(0, 0), (1, 1), (0, 1)]), Some(2)).unwrap();
    assert_eq!(a, b);
}

#[test]
fn no_consecutive_repeated_vertices() {
    let cells = [(0, 0), (1, 0), (2, 0), (0, 1), (0, 2), (1, 2), (2, 2), (2, 1)];
    let r = trace(&squares(&cells), Some(5)).unwrap();
    assert!(r.len() > 1);
    for w in r.windows(2) {
        assert_ne!(w[0], w[1]);
    }
}

#[test]
fn empty_input_gives_no_vertices() {
    assert_eq!(trace(&Vec::new(), None), Ok(Vec::new()));
    assert_eq!(trace(&Vec::new(), Some(7)), Ok(Vec::new()));
    assert_eq!(trace(&Vec::new(), Some(0)), Ok(Vec::new()));
}

#[test]
fn scale_below_one_is_rejected() {
    let sq = squares(&[(0, 0)]);
    assert_eq!(trace(&sq, Some(0)), Err(OutlineError::InvalidScale));
    assert_eq!(trace(&sq, Some(-2)), Err(OutlineError::InvalidScale));
}

#[test]
fn corner_past_i32_is_out_of_range() {
    let sq = squares(&[(i32::MAX, 0)]);
    assert_eq!(trace(&sq, None), Err(OutlineError::OutOfRange));
}

#[test]
fn large_scale_is_out_of_range() {
    let sq = squares(&[(1, 1)]);
    assert_eq!(trace(&sq, Some(i32::MAX)), Err(OutlineError::OutOfRange));
    let small = trace(&squares(&[(0, 0)]), Some(i32::MAX)).unwrap();
    assert_eq!(small[2], Vec2::new(i32::MAX, i32::MAX));
}

#[test]
fn vertex_to_vec() {
    assert_eq!(Vec2::new(4, -5).to_vec(), vec![4, -5]);
}
