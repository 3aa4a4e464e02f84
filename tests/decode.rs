use square_tracer::{parse_squares, OutlineError, Polygon, Vec2};

fn pairs(vs: &[Vec2]) -> Vec<(i32, i32)> {
    vs.iter().map(|v| (v.x, v.y)).collect()
}

#[test]
fn reads_pairs_across_both_separators() {
    let r = parse_squares("0,0|1,0|-3,+7".as_bytes()).unwrap();
    assert_eq!(pairs(&r), vec![(0, 0), (1, 0), (-3, 7)]);
}

#[test]
fn skips_empty_tokens() {
    let r = parse_squares("|,0,,5||".as_bytes()).unwrap();
    assert_eq!(pairs(&r), vec![(0, 5)]);
    assert_eq!(parse_squares("".as_bytes()), Ok(Vec::new()));
}

#[test]
fn reads_i32_extremes() {
    let r = parse_squares("-2147483648,2147483647".as_bytes()).unwrap();
    assert_eq!(pairs(&r), vec![(i32::MIN, i32::MAX)]);
}

#[test]
fn rejects_bad_numbers() {
    assert_eq!(parse_squares("a,1".as_bytes()), Err(OutlineError::InvalidNumber));
    assert_eq!(parse_squares("1,-".as_bytes()), Err(OutlineError::InvalidNumber));
    assert_eq!(parse_squares("1, 2".as_bytes()), Err(OutlineError::InvalidNumber));
    assert_eq!(parse_squares("2147483648,0".as_bytes()), Err(OutlineError::InvalidNumber));
    assert_eq!(parse_squares("-2147483649,0".as_bytes()), Err(OutlineError::InvalidNumber));
    assert_eq!(parse_squares("1,2,x".as_bytes()), Err(OutlineError::InvalidNumber));
}

#[test]
fn rejects_unpaired_number() {
    assert_eq!(parse_squares("1,2|3".as_bytes()), Err(OutlineError::UnpairedNumber));
}

#[test]
fn polygon_from_string() {
    let p = Polygon::from_enclosed_squares_string("0,0|1,0".to_string(), None).unwrap();
    assert_eq!(pairs(p.vertices()), vec![(0, 0), (0, 1), (2, 1), (2, 0)]);
    let q = Polygon::from_enclosed_squares_string("0,0".to_string(), Some(10)).unwrap();
    assert_eq!(pairs(q.vertices()), vec![(0, 0), (0, 10), (10, 10), (10, 0)]);
}

#[test]
fn polygon_order_of_pair_does_not_matter() {
    let a = Polygon::from_enclosed_squares_string("1,0|0,0".to_string(), Some(1)).unwrap();
    let b = Polygon::from_enclosed_squares_string("0,0|1,0".to_string(), Some(1)).unwrap();
    assert_eq!(pairs(a.vertices()), vec![(0, 0), (0, 1), (2, 1), (2, 0)]);
    assert_eq!(pairs(a.vertices()), pairs(b.vertices()));
}

#[test]
fn polygon_from_empty_string() {
    let p = Polygon::from_enclosed_squares_string(String::new(), Some(3)).unwrap();
    assert!(p.vertices().is_empty());
}

#[test]
fn polygon_errors() {
    let e = Polygon::from_enclosed_squares_string("0,q".to_string(), None).unwrap_err();
    assert_eq!(e, OutlineError::InvalidNumber);
    let e = Polygon::from_enclosed_squares_string("0,0,1".to_string(), None).unwrap_err();
    assert_eq!(e, OutlineError::UnpairedNumber);
    let e = Polygon::from_enclosed_squares_string("0,0".to_string(), Some(0)).unwrap_err();
    assert_eq!(e, OutlineError::InvalidScale);
}
