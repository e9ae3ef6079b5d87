use jet_lag_core::shape::bvh::{BvhNode, PointBvh, MAX_LEAF_SIZE};
use jet_lag_core::shape::types::{Position, COORD_SCALE};

fn degrees(lon: i32, lat: i32) -> Position {
    Position { x: lon * COORD_SCALE, y: lat * COORD_SCALE }
}

fn words_of(bytes: &[u8]) -> Vec<u32> {
    assert_eq!(bytes.len() % 4, 0);
    bytes.chunks(4).map(|c| u32::from_le_bytes([c[0], c[1], c[2], c[3]])).collect()
}

/// Checks the subtree rooted at `root` over `points[start..end]` and returns
/// the number of its nodes.
fn check_subtree(bvh: &PointBvh, root: usize, start: usize, end: usize) -> usize {
    let node = bvh.nodes[root];
    let range = &bvh.points[start..end];
    assert_eq!(node.min_lon, range.iter().map(|p| p.0).min().unwrap());
    assert_eq!(node.max_lon, range.iter().map(|p| p.0).max().unwrap());
    assert_eq!(node.min_lat, range.iter().map(|p| p.1).min().unwrap());
    assert_eq!(node.max_lat, range.iter().map(|p| p.1).max().unwrap());
    if end - start <= MAX_LEAF_SIZE {
        assert_eq!(node.count as usize, end - start);
        assert_eq!(node.left_first as usize, start);
        assert_eq!(node.right_child, 0);
        1
    } else {
        assert_eq!(node.count, 0);
        let mid = start + (end - start) / 2;
        let on_lat = (node.max_lat as i64 - node.min_lat as i64)
            > (node.max_lon as i64 - node.min_lon as i64);
        let key = |p: &(i32, i32)| if on_lat { p.1 } else { p.0 };
        let left_max = bvh.points[start..mid].iter().map(key).max().unwrap();
        let right_min = bvh.points[mid..end].iter().map(key).min().unwrap();
        assert!(left_max <= right_min);
        assert_eq!(node.left_first as usize, root + 1);
        let left = check_subtree(bvh, root + 1, start, mid);
        assert_eq!(node.right_child as usize, root + 1 + left);
        let right = check_subtree(bvh, root + 1 + left, mid, end);
        1 + left + right
    }
}

fn scattered(n: usize) -> Vec<Position> {
    let mut state: u64 = 0x2545_f491_4f6c_dd1d;
    let mut points = Vec::new();
    for _ in 0..n {
        state ^= state << 13;
        state ^= state >> 7;
        state ^= state << 17;
        let lon = (state % 3_600_000_001) as i64 - 1_800_000_000;
        let lat = ((state >> 20) % 1_800_000_001) as i64 - 900_000_000;
        points.push(Position { x: lon as i32, y: lat as i32 });
    }
    points
}

#[test]
fn three_points_make_one_leaf() {
    let points = [degrees(0, 0), degrees(10, 0), degrees(0, 10)];
    let bvh = PointBvh::build(&points);
    assert_eq!(bvh.nodes.len(), 1);
    assert_eq!(
        bvh.nodes[0],
        BvhNode {
            min_lat: 0,
            max_lat: 10 * COORD_SCALE,
            min_lon: 0,
            max_lon: 10 * COORD_SCALE,
            left_first: 0,
            right_child: 0,
            count: 3,
        }
    );
    assert_eq!(bvh.points, vec![(0, 0), (10 * COORD_SCALE, 0), (0, 10 * COORD_SCALE)]);
    assert_eq!(bvh.serialized_size_u32(), 15);
}

#[test]
fn no_points_make_one_empty_leaf() {
    let bvh = PointBvh::build(&[]);
    assert_eq!(bvh.nodes.len(), 1);
    assert_eq!(
        bvh.nodes[0],
        BvhNode {
            min_lat: 0,
            max_lat: 0,
            min_lon: 0,
            max_lon: 0,
            left_first: 0,
            right_child: 0,
            count: 0,
        }
    );
    assert!(bvh.points.is_empty());
    assert_eq!(bvh.serialized_size_u32(), 9);
}

#[test]
fn eight_points_still_fit_a_leaf() {
    let points: Vec<Position> = (0..8).map(|i| degrees(8 - i, i)).collect();
    let bvh = PointBvh::build(&points);
    assert_eq!(bvh.nodes.len(), 1);
    assert_eq!(bvh.nodes[0].count, 8);
    let expected: Vec<(i32, i32)> = points.iter().map(|p| (p.x, p.y)).collect();
    assert_eq!(bvh.points, expected);
}

#[test]
fn nine_points_split_along_longitude() {
    // longitudes 8, 7, .., 0 and latitudes all within one degree
    let points: Vec<Position> = (0..9).map(|i| degrees(8 - i, i % 2)).collect();
    let bvh = PointBvh::build(&points);
    assert_eq!(bvh.nodes.len(), 3);
    let root = bvh.nodes[0];
    assert_eq!(root.count, 0);
    assert_eq!(root.left_first, 1);
    assert_eq!(root.right_child, 2);
    assert_eq!(bvh.nodes[1].count, 4);
    assert_eq!(bvh.nodes[1].left_first, 0);
    assert_eq!(bvh.nodes[2].count, 5);
    assert_eq!(bvh.nodes[2].left_first, 4);
    let longitudes: Vec<i32> = bvh.points.iter().map(|p| p.0 / COORD_SCALE).collect();
    assert_eq!(longitudes, vec![0, 1, 2, 3, 4, 5, 6, 7, 8]);
    assert_eq!(check_subtree(&bvh, 0, 0, 9), 3);
}

#[test]
fn split_along_latitude_when_it_is_longer() {
    let points: Vec<Position> = (0..9).map(|i| degrees(i % 2, 8 - i)).collect();
    let bvh = PointBvh::build(&points);
    let latitudes: Vec<i32> = bvh.points.iter().map(|p| p.1 / COORD_SCALE).collect();
    assert_eq!(latitudes, vec![0, 1, 2, 3, 4, 5, 6, 7, 8]);
}

#[test]
fn equal_extents_split_along_longitude() {
    // both extents are 8 degrees: the tie goes to longitude
    let points: Vec<Position> = (0..9).map(|i| degrees(8 - i, i)).collect();
    let bvh = PointBvh::build(&points);
    let longitudes: Vec<i32> = bvh.points.iter().map(|p| p.0 / COORD_SCALE).collect();
    assert_eq!(longitudes, vec![0, 1, 2, 3, 4, 5, 6, 7, 8]);
}

#[test]
fn sort_is_stable_for_equal_keys() {
    // nine points on one meridian-parallel pair: equal longitudes keep order
    let mut points = Vec::new();
    for i in 0..9 {
        points.push(Position { x: if i < 5 { 7 } else { 3 }, y: i });
    }
    let bvh = PointBvh::build(&points);
    // latitude extent 8 > longitude extent 4: sorted by latitude, already so
    let latitudes: Vec<i32> = bvh.points.iter().map(|p| p.1).collect();
    assert_eq!(latitudes, vec![0, 1, 2, 3, 4, 5, 6, 7, 8]);
    let wide: Vec<Position> =
        (0..9).map(|i| Position { x: if i % 2 == 0 { 100 } else { 0 }, y: i }).collect();
    let bvh = PointBvh::build(&wide);
    let order: Vec<i32> = bvh.points.iter().map(|p| p.1).collect();
    assert_eq!(order, vec![1, 3, 5, 7, 0, 2, 4, 6, 8]);
}

#[test]
fn extents_wider_than_31_bits_do_not_overflow() {
    let mut points = vec![
        Position { x: i32::MIN, y: 0 },
        Position { x: i32::MAX, y: 1 },
    ];
    for i in 0..8 {
        points.push(Position { x: i * 1000, y: i32::MAX - i });
    }
    let bvh = PointBvh::build(&points);
    assert_eq!(check_subtree(&bvh, 0, 0, points.len()), bvh.nodes.len());
}

#[test]
fn every_node_bounds_its_points() {
    for n in [1usize, 2, 8, 9, 16, 17, 33, 100, 257, 1000] {
        let points = scattered(n);
        let bvh = PointBvh::build(&points);
        assert_eq!(bvh.points.len(), n);
        assert_eq!(check_subtree(&bvh, 0, 0, n), bvh.nodes.len());
        for node in &bvh.nodes {
            assert!(node.count as usize <= MAX_LEAF_SIZE);
        }
        let mut input: Vec<(i32, i32)> = points.iter().map(|p| (p.x, p.y)).collect();
        let mut output = bvh.points.clone();
        input.sort();
        output.sort();
        assert_eq!(input, output);
    }
}

#[test]
fn duplicate_and_collinear_points_are_accepted() {
    let same: Vec<Position> = (0..20).map(|_| degrees(5, 5)).collect();
    let bvh = PointBvh::build(&same);
    assert_eq!(check_subtree(&bvh, 0, 0, 20), bvh.nodes.len());
    let line: Vec<Position> = (0..20).map(|i| degrees(i, 0)).collect();
    let bvh = PointBvh::build(&line);
    assert_eq!(check_subtree(&bvh, 0, 0, 20), bvh.nodes.len());
}

#[test]
fn serialized_size_counts_header_nodes_and_points() {
    for n in [0usize, 3, 9, 40] {
        let bvh = PointBvh::build(&scattered(n));
        assert_eq!(bvh.serialized_size_u32(), 2 + 7 * bvh.nodes.len() + 2 * bvh.points.len());
        let mut buffer = vec![0xaau8];
        bvh.write_to_buffer(&mut buffer);
        assert_eq!(buffer.len(), 1 + 4 * bvh.serialized_size_u32());
    }
}

#[test]
fn node_is_written_as_seven_little_endian_words() {
    let node = BvhNode {
        min_lat: -1,
        max_lat: 0x0102_0304,
        min_lon: i32::MIN,
        max_lon: i32::MAX,
        left_first: 5,
        right_child: 0xdead_beef,
        count: 0,
    };
    let mut buffer = vec![9u8, 9];
    node.write_to_buffer(&mut buffer);
    let mut expected = vec![9u8, 9];
    expected.extend_from_slice(&(-1i32).to_le_bytes());
    expected.extend_from_slice(&0x0102_0304i32.to_le_bytes());
    expected.extend_from_slice(&i32::MIN.to_le_bytes());
    expected.extend_from_slice(&i32::MAX.to_le_bytes());
    expected.extend_from_slice(&5u32.to_le_bytes());
    expected.extend_from_slice(&0xdead_beefu32.to_le_bytes());
    expected.extend_from_slice(&0u32.to_le_bytes());
    assert_eq!(buffer, expected);
    assert_eq!(BvhNode::SIZE_U32, 7);
}

#[test]
fn hierarchy_is_written_header_first() {
    let points = [degrees(0, 0), degrees(10, 0), degrees(0, -10)];
    let bvh = PointBvh::build(&points);
    let mut buffer = Vec::new();
    bvh.write_to_buffer(&mut buffer);
    let words = words_of(&buffer);
    assert_eq!(words.len(), 15);
    assert_eq!(words[0], 1);
    assert_eq!(words[1], 3);
    assert_eq!(words[2] as i32, -10 * COORD_SCALE);
    assert_eq!(words[3] as i32, 0);
    assert_eq!(words[4] as i32, 0);
    assert_eq!(words[5] as i32, 10 * COORD_SCALE);
    assert_eq!(&words[6..9], &[0, 0, 3]);
    let rest: Vec<i32> = words[9..].iter().map(|w| *w as i32).collect();
    assert_eq!(rest, vec![0, 0, 10 * COORD_SCALE, 0, 0, -10 * COORD_SCALE]);
}

#[test]
fn leaf_ranges_tile_the_points_in_node_order() {
    for n in [0usize, 1, 8, 9, 17, 100, 257] {
        let bvh = PointBvh::build(&scattered(n));
        let mut next = 0usize;
        for node in bvh.nodes.iter() {
            if node.count > 0 {
                assert_eq!(node.left_first as usize, next);
                next += node.count as usize;
            }
        }
        assert_eq!(next, bvh.points.len());
        assert_eq!(next, n);
    }
}
