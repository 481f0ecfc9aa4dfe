use particle_interference::closest::chunk_count;
use particle_interference::closest::chunk_range;
use particle_interference::closest::closest_candidate;
use particle_interference::closest::closest_pair;
use particle_interference::closest::closest_pair_with;
use particle_interference::closest::merge;
use particle_interference::closest::points_of;
use particle_interference::closest::scan_rows;
use particle_interference::closest::Candidate;
use particle_interference::geometry::squared_distance;
use particle_interference::geometry::Point;
use particle_interference::interference::detect_interference;

fn pts(raw: &[(i32, i32)]) -> Vec<Point> {
    raw.iter().map(|&(x, y)| Point::new(x, y)).collect()
}

fn brute_force(c1: &[Point], c2: &[Point]) -> Option<(usize, usize, u128)> {
    let mut best: Option<(usize, usize, u128)> = None;
    for (i, p) in c1.iter().enumerate() {
        for (j, q) in c2.iter().enumerate() {
            let dx = (p.x as i128) - (q.x as i128);
            let dy = (p.y as i128) - (q.y as i128);
            let d = (dx * dx + dy * dy) as u128;
            match best {
                Some((_, _, b)) if b <= d => {}
                _ => best = Some((i, j, d)),
            }
        }
    }
    best
}

#[test]
fn squared_distance_of_a_3_4_5_triangle() {
    assert_eq!(squared_distance(Point::new(0, 0), Point::new(3, 4)), 25);
    assert_eq!(squared_distance(Point::new(3, 4), Point::new(0, 0)), 25);
    assert_eq!(squared_distance(Point::new(-2, 7), Point::new(-2, 7)), 0);
}

#[test]
fn squared_distance_across_the_whole_coordinate_range() {
    let a = Point::new(i32::MIN, i32::MIN);
    let b = Point::new(i32::MAX, i32::MAX);
    let side: u128 = (1u128 << 32) - 1;
    assert_eq!(squared_distance(a, b), 2 * side * side);
    assert_eq!(squared_distance(b, a), 2 * side * side);
}

#[test]
fn closest_pair_of_empty_contour_is_the_origin_twice() {
    let none: Vec<Point> = Vec::new();
    let some = pts(&[(3, 4)]);
    let origin = (Point::new(0, 0), Point::new(0, 0));
    assert_eq!(closest_pair(&none, &some), origin);
    assert_eq!(closest_pair(&some, &none), origin);
    assert_eq!(closest_pair(&none, &none), origin);
}

#[test]
fn empty_contour_never_interferes_with_a_point_near_the_origin() {
    let none: Vec<Point> = Vec::new();
    let near = pts(&[(1, 0), (0, 1), (2, 2)]);
    let (first, second) = closest_pair(&none, &near);
    assert!(!detect_interference(first, second, 100));
    assert!(!detect_interference(first, second, i32::MAX));
    let (q1, q2) = closest_pair(&near, &none);
    assert!(!detect_interference(q1, q2, 100));
    // The same point against a real contour at the origin does interfere.
    let at_origin = pts(&[(0, 0)]);
    let (r1, r2) = closest_pair(&at_origin, &near);
    assert_eq!((r1, r2), (Point::new(0, 0), Point::new(1, 0)));
    assert!(detect_interference(r1, r2, 100));
}

#[test]
fn closest_pair_finds_the_minimum() {
    let c1 = pts(&[(0, 0), (10, 0), (20, 0)]);
    let c2 = pts(&[(100, 100), (21, 1), (50, 50)]);
    assert_eq!(closest_pair(&c1, &c2), (Point::new(20, 0), Point::new(21, 1)));
}

#[test]
fn closest_pair_takes_the_first_pair_on_a_tie() {
    // Every cross pair is at squared distance 1.
    let c1 = pts(&[(0, 0), (2, 0), (4, 0)]);
    let c2 = pts(&[(1, 0), (3, 0)]);
    assert_eq!(closest_pair(&c1, &c2), (Point::new(0, 0), Point::new(1, 0)));
    let found = closest_candidate(&c1, &c2, 3);
    assert_eq!(found, Some(Candidate { row: 0, col: 0, dist: 1 }));
    // Within a row, the first column wins.
    let c3 = pts(&[(5, 5)]);
    let c4 = pts(&[(5, 7), (7, 5), (5, 3), (3, 5)]);
    assert_eq!(closest_pair(&c3, &c4), (Point::new(5, 5), Point::new(5, 7)));
}

#[test]
fn chunked_search_reproduces_the_serial_scan() {
    let mut c1 = Vec::new();
    let mut c2 = Vec::new();
    let mut seed: i64 = 12345;
    for _ in 0..37 {
        seed = (seed * 1103515245 + 12345) % 2147483648;
        let x = (seed % 200) as i32;
        seed = (seed * 1103515245 + 12345) % 2147483648;
        let y = (seed % 200) as i32;
        c1.push(Point::new(x, y));
    }
    for _ in 0..23 {
        seed = (seed * 1103515245 + 12345) % 2147483648;
        let x = (seed % 200) as i32 + 150;
        seed = (seed * 1103515245 + 12345) % 2147483648;
        let y = (seed % 200) as i32 + 150;
        c2.push(Point::new(x, y));
    }
    let expected = brute_force(&c1, &c2).unwrap();
    let serial = scan_rows(&c1, &c2, 0, c1.len()).unwrap();
    assert_eq!((serial.row, serial.col, serial.dist), expected);
    for workers in 0..=40 {
        let found = closest_candidate(&c1, &c2, workers);
        assert_eq!(found, Some(serial));
        assert_eq!(
            closest_pair_with(&c1, &c2, workers),
            (c1[expected.0], c2[expected.1])
        );
    }
    assert_eq!(closest_pair(&c1, &c2), (c1[expected.0], c2[expected.1]));
}

#[test]
fn chunks_merged_by_hand_give_the_serial_outcome() {
    let c1 = pts(&[(9, 9), (4, 4), (8, 8), (4, 4), (7, 7)]);
    let c2 = pts(&[(0, 0), (1, 1)]);
    let serial = scan_rows(&c1, &c2, 0, 5);
    assert_eq!(serial, Some(Candidate { row: 1, col: 1, dist: 18 }));
    for count in 1..=5usize {
        let mut best = None;
        for k in 0..count {
            let (lo, hi) = chunk_range(5, count, k).unwrap();
            best = merge(best, scan_rows(&c1, &c2, lo, hi));
        }
        assert_eq!(best, serial);
    }
}

#[test]
fn scan_of_no_rows_finds_nothing() {
    let c1 = pts(&[(1, 1), (2, 2)]);
    let c2 = pts(&[(3, 3)]);
    assert_eq!(scan_rows(&c1, &c2, 1, 1), None);
    assert_eq!(scan_rows(&c1, &Vec::new(), 0, 2), None);
    assert_eq!(
        scan_rows(&c1, &c2, 1, 2),
        Some(Candidate { row: 1, col: 0, dist: 2 })
    );
}

#[test]
fn merge_keeps_the_nearer_and_the_first_on_a_tie() {
    let a = Candidate { row: 0, col: 3, dist: 10 };
    let b = Candidate { row: 2, col: 1, dist: 10 };
    let c = Candidate { row: 4, col: 0, dist: 9 };
    assert_eq!(merge(None, None), None);
    assert_eq!(merge(Some(a), None), Some(a));
    assert_eq!(merge(None, Some(b)), Some(b));
    assert_eq!(merge(Some(a), Some(b)), Some(a));
    assert_eq!(merge(Some(b), Some(a)), Some(b));
    assert_eq!(merge(Some(a), Some(c)), Some(c));
    assert_eq!(merge(Some(c), Some(a)), Some(c));
}

#[test]
fn chunk_count_is_one_per_worker_but_no_more_than_points() {
    assert_eq!(chunk_count(0, 8), 0);
    assert_eq!(chunk_count(0, 0), 0);
    assert_eq!(chunk_count(5, 0), 1);
    assert_eq!(chunk_count(5, 1), 1);
    assert_eq!(chunk_count(5, 4), 4);
    assert_eq!(chunk_count(5, 5), 5);
    assert_eq!(chunk_count(5, 64), 5);
    assert_eq!(chunk_count(1000, 8), 8);
}

#[test]
fn chunk_ranges_lie_end_to_end() {
    assert_eq!(chunk_range(5, 4, 0), Some((0, 2)));
    assert_eq!(chunk_range(5, 4, 1), Some((2, 3)));
    assert_eq!(chunk_range(5, 4, 2), Some((3, 4)));
    assert_eq!(chunk_range(5, 4, 3), Some((4, 5)));
    assert_eq!(chunk_range(5, 4, 4), None);
    assert_eq!(chunk_range(5, 0, 0), None);
    assert_eq!(chunk_range(10, 3, 0), Some((0, 4)));
    assert_eq!(chunk_range(10, 3, 1), Some((4, 7)));
    assert_eq!(chunk_range(10, 3, 2), Some((7, 10)));
    for len in 0..30usize {
        for count in 1..12usize {
            let mut at = 0;
            for k in 0..count {
                let (lo, hi) = chunk_range(len, count, k).unwrap();
                assert_eq!(lo, at);
                assert!(hi >= lo);
                assert!(hi - lo <= len / count + 1);
                at = hi;
            }
            assert_eq!(at, len);
        }
    }
}

#[test]
fn points_of_a_candidate() {
    let c1 = pts(&[(1, 2), (3, 4)]);
    let c2 = pts(&[(5, 6), (7, 8)]);
    assert_eq!(
        points_of(&c1, &c2, None),
        (Point::new(0, 0), Point::new(0, 0))
    );
    assert_eq!(
        points_of(&c1, &c2, Some(Candidate { row: 1, col: 0, dist: 8 })),
        (Point::new(3, 4), Point::new(5, 6))
    );
}
