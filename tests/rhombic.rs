use sketches::rhombic_dodeca::{CoordError, RCoord, RDir};

fn cell(a: [i32; 4]) -> RCoord {
    RCoord::from(a).expect("a valid cell")
}

#[test]
fn construction_keeps_components() {
    for a in [[0, 0, 0, 0], [1, 0, 0, -1], [-7, 3, 2, 2], [i32::MAX, i32::MIN + 1, 0, 0]] {
        assert_eq!(cell(a).coord(), a);
    }
}

#[test]
fn construction_refuses_nonzero_sum() {
    assert_eq!(RCoord::from([1, 0, 0, 0]), Err(CoordError::InvariantViolation([1, 0, 0, 0])));
    assert_eq!(
        RCoord::from([i32::MAX, i32::MAX, 0, 0]),
        Err(CoordError::InvariantViolation([i32::MAX, i32::MAX, 0, 0]))
    );
    assert_eq!(RCoord::check(&[0, 1, -1, 0]), Ok(()));
    assert_eq!(RCoord::check(&[0, 1, 1, 0]), Err(CoordError::InvariantViolation([0, 1, 1, 0])));
}

#[test]
fn same_axis_pair_is_refused() {
    assert_eq!(RDir::from_to(RDir::W, RDir::W), Err(CoordError::InvalidDirectionPair));
    let c = cell([0, 0, 0, 0]);
    assert_eq!(c.get_from_to(RDir::Y, RDir::Y), Err(CoordError::InvalidDirectionPair));
    let mut m = cell([2, -1, 0, -1]);
    assert_eq!(m.move_from_to(RDir::Z, RDir::Z), Err(CoordError::InvalidDirectionPair));
    assert_eq!(m.coord(), [2, -1, 0, -1]);
}

#[test]
fn displacement_table() {
    assert_eq!(RDir::from_to(RDir::W, RDir::X), Ok([-1, 1, 0, 0]));
    assert_eq!(RDir::from_to(RDir::X, RDir::Z), Ok([0, -1, 0, 1]));
    assert_eq!(RDir::from_to(RDir::Y, RDir::W), Ok([1, 0, -1, 0]));
    assert_eq!(RDir::from_to(RDir::Z, RDir::Y), Ok([0, 0, 1, -1]));
}

#[test]
fn displacement_is_antisymmetric() {
    let dirs = [RDir::W, RDir::X, RDir::Y, RDir::Z];
    for f in dirs {
        for t in dirs {
            if f != t {
                let a = RDir::from_to(f, t).unwrap();
                let b = RDir::from_to(t, f).unwrap();
                for i in 0..4 {
                    assert_eq!(a[i], -b[i]);
                }
            }
        }
    }
}

#[test]
fn moves_from_origin() {
    let mut t = cell([0, 0, 0, 0]);
    assert_eq!(t.move_from_to(RDir::W, RDir::X), Ok(()));
    assert_eq!(t.coord(), [-1, 1, 0, 0]);
    t.move_from_to(RDir::X, RDir::Y).unwrap();
    assert_eq!(t.coord(), [-1, 0, 1, 0]);
    t.move_from_to(RDir::Y, RDir::Z).unwrap();
    assert_eq!(t.coord(), [-1, 0, 0, 1]);
}

#[test]
fn move_and_back_returns() {
    let start = cell([3, -4, 2, -1]);
    let mut c = start;
    c.move_from_to(RDir::X, RDir::Z).unwrap();
    assert_eq!(c.coord(), [3, -5, 2, 0]);
    c.move_from_to(RDir::Z, RDir::X).unwrap();
    assert_eq!(c, start);
}

#[test]
fn arithmetic_on_cells() {
    let mut t = cell([1, 0, 0, -1]);
    assert_eq!(t.as_coord_from([0, 1, -1, 0]), Ok(()));
    assert_eq!(t.coord(), [0, 1, -1, 0]);
    assert_eq!(t.as_coord_from([0, 1, 1, 0]), Err(CoordError::InvariantViolation([0, 1, 1, 0])));
    assert_eq!(t.coord(), [0, 1, -1, 0]);
    let x = t.add_from([2, 0, 0, -2]).unwrap();
    assert_eq!(x.coord(), [2, 1, -1, -2]);
    assert_eq!(
        t.add_from([1, 0, 0, 0]),
        Err(CoordError::InvariantViolation([1, 1, -1, 0]))
    );
    let t = x.add(&t.neg());
    assert_eq!(t.coord(), [2, 0, 0, -2]);
    assert_eq!(cell([-3, 1, 4, -2]).abs(), [3, 1, 4, 2]);
    let mut s = cell([0, 0, 0, 0]);
    s.as_coord(&t);
    assert_eq!(s.coord(), [2, 0, 0, -2]);
}

#[test]
fn distances() {
    let o = cell([0, 0, 0, 0]);
    let a = cell([5, 5, -5, -5]);
    let b = cell([1, 1, -1, -1]);
    assert_eq!(o.distance(&o), 0);
    assert_eq!(a.distance(&a), 0);
    assert_eq!(o.distance(&a), 10);
    assert_eq!(a.distance(&o), 10);
    assert_eq!(a.distance(&b), b.distance(&a));
    assert_eq!(a.distance(&b), 8);
    assert_eq!(o.distance_from([1, 1, -1, -1]), Ok(2));
    assert_eq!(o.distance_from([1, 1, 1, -1]), Err(CoordError::InvariantViolation([1, 1, 1, -1])));
}

#[test]
fn twelve_distinct_neighbors_one_step_away() {
    let c = cell([2, -3, 0, 1]);
    let n = c.get_all_adjacent();
    assert_eq!(n.len(), 12);
    for (i, a) in n.iter().enumerate() {
        assert_eq!(a.coord().iter().sum::<i32>(), 0);
        assert_eq!(c.distance(a), 1);
        for b in n.iter().skip(i + 1) {
            assert_ne!(a, b);
        }
    }
    assert_eq!(n[0].coord(), [1, -2, 0, 1]);
    assert_eq!(n[11].coord(), [2, -3, 1, 0]);
}

#[test]
fn neighbors_of_origin_in_order() {
    let got: Vec<[i32; 4]> = cell([0, 0, 0, 0]).get_all_adjacent().iter().map(|c| c.coord()).collect();
    let want = vec![
        [-1, 1, 0, 0],
        [-1, 0, 1, 0],
        [-1, 0, 0, 1],
        [1, -1, 0, 0],
        [0, -1, 1, 0],
        [0, -1, 0, 1],
        [1, 0, -1, 0],
        [0, 1, -1, 0],
        [0, 0, -1, 1],
        [1, 0, 0, -1],
        [0, 1, 0, -1],
        [0, 0, 1, -1],
    ];
    assert_eq!(got, want);
}

#[test]
fn line_across_ten_steps() {
    let o = cell([0, 0, 0, 0]);
    let e = cell([5, 5, -5, -5]);
    let line = o.line_to(&e).unwrap();
    assert_eq!(line.len(), o.distance(&e) as usize + 1);
    assert_eq!(line.len(), 11);
    assert_eq!(line[0].coord(), [0, 0, 0, 0]);
    assert_eq!(line[10].coord(), [5, 5, -5, -5]);
    let got: Vec<[i32; 4]> = line.iter().map(|c| c.coord()).collect();
    let want = vec![
        [0, 0, 0, 0],
        [1, 1, -1, -1],
        [1, 1, -1, -1],
        [2, 2, -2, -2],
        [2, 2, -2, -2],
        [3, 3, -3, -3],
        [3, 3, -3, -3],
        [4, 4, -4, -4],
        [4, 4, -4, -4],
        [5, 5, -5, -5],
        [5, 5, -5, -5],
    ];
    assert_eq!(got, want);
}

#[test]
fn line_to_itself_is_one_cell() {
    let a = cell([4, -1, -2, -1]);
    let line = a.line_to(&a).unwrap();
    assert_eq!(line.len(), 1);
    assert_eq!(line[0], a);
}

#[test]
fn line_to_neighbor() {
    let a = cell([1, 0, 0, -1]);
    let b = cell([1, 1, -1, -1]);
    let got: Vec<[i32; 4]> = a.line_to(&b).unwrap().iter().map(|c| c.coord()).collect();
    assert_eq!(got, vec![[1, 0, 0, -1], [1, 1, -1, -1]]);
}

#[test]
fn lerp_rounds_halves_away_from_zero() {
    let o = cell([0, 0, 0, 0]);
    let e = cell([1, -1, 1, -1]);
    assert_eq!(o.lerp_to(&e, 1, 2).unwrap().coord(), [1, -1, 1, -1]);
    assert_eq!(o.lerp_to(&e, 0, 2).unwrap().coord(), [0, 0, 0, 0]);
}

#[test]
fn lerp_repairs_the_first_equal_pair() {
    // Two thirds of the way from (-2, -2, -2, 6) to (-1, -1, -1, 3) rounds to
    // (-1, -1, -1, 4); w equals x, so w steps back towards -2.
    let a = cell([-2, -2, -2, 6]);
    let b = cell([-1, -1, -1, 3]);
    assert_eq!(a.lerp_to(&b, 2, 3).unwrap().coord(), [-2, -1, -1, 4]);
    // A third of the way, (-2, -2, -2, 5) has w equal to x and to the start:
    // the repair leaves it, and the line is refused there.
    assert_eq!(a.line_to(&b), Err(CoordError::InvariantViolation([-2, -2, -2, 5])));
}

#[test]
fn lerp_repair_can_fail() {
    // A third of the way to (3, -1, -1, -1) rounds to (1, 0, 0, 0); the first
    // equal pair, (x, y), already agrees with the start, so nothing changes.
    let o = cell([0, 0, 0, 0]);
    let e = cell([3, -1, -1, -1]);
    assert_eq!(o.lerp_to(&e, 1, 3), Err(CoordError::InvariantViolation([1, 0, 0, 0])));
    let f = cell([1, 1, 1, -3]);
    assert_eq!(o.lerp_to(&f, 1, 3), Err(CoordError::InvariantViolation([0, 0, 0, -1])));
    assert_eq!(o.line_to(&f), Err(CoordError::InvariantViolation([0, 0, 0, -1])));
}

#[test]
fn lerp_rounds_the_whole_value() {
    // Halfway from -3 to -2 is -2.5, which rounds away from zero to -3.
    let a = cell([-3, -3, -3, 9]);
    let b = cell([-3, -2, -2, 7]);
    assert_eq!(a.lerp_to(&b, 1, 2), Err(CoordError::InvariantViolation([-3, -3, -3, 8])));
}

#[test]
fn range_one_around_origin() {
    let got: Vec<[i32; 4]> = cell([0, 0, 0, 0]).get_in_range(1).iter().map(|c| c.coord()).collect();
    let want = vec![
        [1, -1, 0, 0],
        [0, -1, 0, 1],
        [1, -1, 1, -1],
        [0, -1, 1, 0],
        [-1, -1, 1, 1],
        [1, 0, -1, 0],
        [0, 0, -1, 1],
        [1, 0, 0, -1],
        [0, 0, 0, 0],
        [-1, 0, 0, 1],
        [0, 0, 1, -1],
        [-1, 0, 1, 0],
        [1, 1, -1, -1],
        [0, 1, -1, 0],
        [-1, 1, -1, 1],
        [0, 1, 0, -1],
        [-1, 1, 0, 0],
    ];
    assert_eq!(got, want);
    assert_ne!(got.len(), 13);
}

#[test]
fn range_is_shifted_by_center() {
    let c = cell([10, -4, 0, -6]);
    let around: Vec<[i32; 4]> = c.get_in_range(1).iter().map(|x| x.coord()).collect();
    assert_eq!(around.len(), 17);
    assert_eq!(around[0], [11, -5, 0, -6]);
    assert_eq!(around[8], [10, -4, 0, -6]);
    assert_eq!(c.get_in_range(0).iter().map(|x| x.coord()).collect::<Vec<_>>(), vec![[10, -4, 0, -6]]);
    assert!(c.get_in_range(-1).is_empty());
}
