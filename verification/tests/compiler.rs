use jet_lag_core::hide_and_seek::question::ShapeErrorClass;
use jet_lag_core::shape::builtin::circle::Circle;
use jet_lag_core::shape::builtin::geodesic::Geodesic;
use jet_lag_core::shape::compiler::{SdfCompiler, Shape};
use jet_lag_core::shape::instruction::{
    BoundaryOverlapResolution, ContourTexture, DiagramHandle, Register, SdfInstruction,
};
use jet_lag_core::shape::types::{Centimeters, Position};

fn output_of(instruction: &SdfInstruction) -> Register {
    match instruction {
        SdfInstruction::Point { output, .. }
        | SdfInstruction::PointCloud { output, .. }
        | SdfInstruction::Geodesic { output, .. }
        | SdfInstruction::LoadVdg { output, .. }
        | SdfInstruction::ContourTexture { output, .. }
        | SdfInstruction::Edge { output, .. }
        | SdfInstruction::Invert { output, .. }
        | SdfInstruction::Dilate { output, .. }
        | SdfInstruction::Union { output, .. }
        | SdfInstruction::Intersection { output, .. }
        | SdfInstruction::Subtract { output, .. }
        | SdfInstruction::Boundary { output, .. } => *output,
    }
}

fn inputs_of(instruction: &SdfInstruction) -> Vec<Register> {
    match instruction {
        SdfInstruction::Edge { input, .. }
        | SdfInstruction::Invert { input, .. }
        | SdfInstruction::Dilate { input, .. } => vec![*input],
        SdfInstruction::Union { shapes, .. } | SdfInstruction::Intersection { shapes, .. } => {
            shapes.clone()
        }
        SdfInstruction::Subtract { left, right, .. } => vec![*left, *right],
        SdfInstruction::Boundary { inside, outside, .. } => vec![*inside, *outside],
        _ => vec![],
    }
}

/// The value of register `r` where primitive `i` measures `leaves[i]`.
fn value(stream: &[SdfInstruction], r: Register, leaves: &[i64]) -> i64 {
    let at = r.0 as usize;
    let get = |x: &Register| value(stream, *x, leaves);
    match &stream[at] {
        SdfInstruction::ContourTexture { zero, .. } => leaves[at] - zero.0 as i64,
        SdfInstruction::Edge { input, .. } => get(input).abs(),
        SdfInstruction::Invert { input, .. } => -get(input),
        SdfInstruction::Dilate { input, amount, .. } => get(input) - amount.0 as i64,
        SdfInstruction::Union { shapes, .. } => shapes.iter().map(get).min().unwrap(),
        SdfInstruction::Intersection { shapes, .. } => shapes.iter().map(get).max().unwrap(),
        SdfInstruction::Subtract { left, right, .. } => get(left).max(-get(right)),
        SdfInstruction::Boundary { inside, outside, .. } => get(inside).max(-get(outside)),
        _ => leaves[at],
    }
}

#[test]
fn registers_count_up_from_zero() {
    let mut compiler = SdfCompiler::new();
    assert_eq!(compiler.register_count(), 0);
    let a = compiler.point(Position { x: 1, y: 2 });
    let b = compiler.point(Position { x: 3, y: 4 });
    let c = compiler.invert(a);
    assert_eq!((a, b, c), (Register(0), Register(1), Register(2)));
    assert_eq!(compiler.register_count(), 3);
}

#[test]
fn every_constructor_appends_one_instruction() {
    let mut compiler = SdfCompiler::new();
    let p = compiler.point(Position { x: 1, y: 2 });
    let cloud = compiler.point_cloud(vec![Position { x: 5, y: 6 }, Position { x: 7, y: 8 }]);
    let geodesic = compiler.geodesic_string(vec![Position { x: 0, y: 0 }, Position { x: 9, y: 9 }]);
    let vdg = compiler.with_vdg(DiagramHandle(4));
    let texture = ContourTexture {
        width: 2,
        height: 1,
        min_lat: 0,
        max_lat: 10,
        min_lon: 0,
        max_lon: 10,
        texels: vec![0x3f80_0000, 0x4000_0000],
    };
    let contour = compiler.with_contour_texture(texture, Centimeters(50));
    let edge = compiler.edge(vdg);
    let inverted = compiler.invert(edge);
    let dilated = compiler.dilate(p, Centimeters(100));
    let union = compiler.union(vec![p, cloud]).unwrap();
    let intersection = compiler.intersection(vec![geodesic, contour, union]).unwrap();
    let subtracted = compiler.subtract(dilated, inverted);
    let boundary = compiler.boundary(p, cloud, BoundaryOverlapResolution::Outside);
    assert_eq!(boundary, Register(11));
    assert_eq!(subtracted, Register(10));
    assert_eq!(intersection, Register(9));

    let stream = compiler.instructions();
    assert_eq!(stream.len(), 12);
    assert!(
        matches!(&stream[0], SdfInstruction::Point { position, .. } if *position == Position { x: 1, y: 2 })
    );
    match &stream[1] {
        SdfInstruction::PointCloud { bvh, .. } => {
            assert_eq!(bvh.points, vec![(5, 6), (7, 8)]);
            assert_eq!(bvh.nodes.len(), 1);
        }
        other => panic!("not a point cloud: {:?}", other),
    }
    assert!(matches!(&stream[2], SdfInstruction::Geodesic { path, .. } if path.len() == 2));
    assert!(matches!(&stream[3], SdfInstruction::LoadVdg { diagram, .. } if *diagram == DiagramHandle(4)));
    assert!(
        matches!(&stream[4], SdfInstruction::ContourTexture { texture, zero, .. } if texture.texels.len() == 2 && zero.0 == 50)
    );
    assert!(matches!(&stream[5], SdfInstruction::Edge { input, .. } if *input == vdg));
    assert!(matches!(&stream[6], SdfInstruction::Invert { input, .. } if *input == edge));
    assert!(
        matches!(&stream[7], SdfInstruction::Dilate { input, amount, .. } if *input == p && amount.0 == 100)
    );
    assert!(matches!(&stream[8], SdfInstruction::Union { shapes, .. } if *shapes == vec![p, cloud]));
    assert!(
        matches!(&stream[9], SdfInstruction::Intersection { shapes, .. } if *shapes == vec![geodesic, contour, union])
    );
    assert!(
        matches!(&stream[10], SdfInstruction::Subtract { left, right, .. } if *left == dilated && *right == inverted)
    );
    assert!(
        matches!(&stream[11], SdfInstruction::Boundary { inside, outside, resolution, .. }
            if *inside == p && *outside == cloud && *resolution == BoundaryOverlapResolution::Outside)
    );
}

#[test]
fn stream_is_in_static_single_assignment() {
    let mut compiler = SdfCompiler::new();
    let a = compiler.point(Position { x: 0, y: 0 });
    let b = compiler.point_cloud(vec![Position { x: 1, y: 1 }]);
    let c = compiler.union(vec![a, b]).unwrap();
    let d = compiler.dilate(c, Centimeters(7));
    let e = compiler.subtract(d, a);
    let _ = compiler.boundary(e, b, BoundaryOverlapResolution::Inside);
    let stream = compiler.into_instructions();
    for (index, instruction) in stream.iter().enumerate() {
        assert_eq!(output_of(instruction), Register(index as u32));
        for input in inputs_of(instruction) {
            assert!((input.0 as usize) < index);
        }
    }
}

#[test]
fn empty_union_is_rejected_and_appends_nothing() {
    let mut compiler = SdfCompiler::new();
    let _ = compiler.point(Position { x: 0, y: 0 });
    let error = compiler.union(vec![]).unwrap_err();
    assert_eq!(error.class, ShapeErrorClass::InvalidParameters);
    assert_eq!(error.message, "A union needs at least one shape.");
    assert!(error.resolution_hint.is_none());
    assert_eq!(compiler.register_count(), 1);
}

#[test]
fn empty_intersection_is_rejected_and_appends_nothing() {
    let mut compiler = SdfCompiler::new();
    let error = compiler.intersection(vec![]).unwrap_err();
    assert_eq!(error.class, ShapeErrorClass::InvalidParameters);
    assert_eq!(error.message, "An intersection needs at least one shape.");
    assert!(error.resolution_hint.is_none());
    assert_eq!(compiler.register_count(), 0);
}

#[test]
fn circle_is_a_dilated_point() {
    let mut compiler = SdfCompiler::new();
    let circle = Circle::new(Position { x: 10, y: 20 }, Centimeters(300));
    let result = compiler.with(&circle);
    assert_eq!(result, Register(1));
    let stream = compiler.instructions();
    assert!(
        matches!(&stream[0], SdfInstruction::Point { position, .. } if *position == Position { x: 10, y: 20 })
    );
    assert!(
        matches!(&stream[1], SdfInstruction::Dilate { input, amount, .. } if *input == Register(0) && amount.0 == 300)
    );
}

#[test]
fn geodesic_shape_keeps_its_path() {
    let mut compiler = SdfCompiler::new();
    let _ = compiler.point(Position { x: 0, y: 0 });
    let path = vec![Position { x: 1, y: 1 }, Position { x: 2, y: 3 }, Position { x: 5, y: 8 }];
    let result = Geodesic::new(path.clone()).build_into(&mut compiler);
    assert_eq!(result, Register(1));
    assert!(matches!(&compiler.instructions()[1], SdfInstruction::Geodesic { path: p, .. } if *p == path));
}

#[test]
fn inverting_twice_is_the_identity() {
    for x in [-500i64, -1, 0, 1, 12345] {
        let mut compiler = SdfCompiler::new();
        let p = compiler.point(Position { x: 0, y: 0 });
        let once = compiler.invert(p);
        let twice = compiler.invert(once);
        let stream = compiler.into_instructions();
        assert_eq!(value(&stream, twice, &[x]), value(&stream, p, &[x]));
        assert_eq!(value(&stream, once, &[x]), -x);
    }
}

#[test]
fn union_and_intersection_of_one_are_the_identity() {
    for x in [-500i64, 0, 777] {
        let mut compiler = SdfCompiler::new();
        let p = compiler.point(Position { x: 0, y: 0 });
        let union = compiler.union(vec![p]).unwrap();
        let intersection = compiler.intersection(vec![p]).unwrap();
        let stream = compiler.into_instructions();
        assert_eq!(value(&stream, union, &[x]), x);
        assert_eq!(value(&stream, intersection, &[x]), x);
    }
}

#[test]
fn subtract_is_intersection_with_the_inverse() {
    for (x, y) in [(-5i64, 3i64), (4, -9), (0, 0), (-7, -7), (100, 2)] {
        let mut compiler = SdfCompiler::new();
        let a = compiler.point(Position { x: 0, y: 0 });
        let b = compiler.point(Position { x: 1, y: 1 });
        let subtracted = compiler.subtract(a, b);
        let inverse = compiler.invert(b);
        let intersected = compiler.intersection(vec![a, inverse]).unwrap();
        let stream = compiler.into_instructions();
        let leaves = [x, y];
        assert_eq!(value(&stream, subtracted, &leaves), value(&stream, intersected, &leaves));
        assert_eq!(value(&stream, subtracted, &leaves), x.max(-y));
    }
}

#[test]
fn edge_is_intersection_with_the_own_inverse() {
    for x in [-31i64, 0, 8] {
        let mut compiler = SdfCompiler::new();
        let a = compiler.point(Position { x: 0, y: 0 });
        let edge = compiler.edge(a);
        let inverse = compiler.invert(a);
        let intersected = compiler.intersection(vec![a, inverse]).unwrap();
        let stream = compiler.into_instructions();
        assert_eq!(value(&stream, edge, &[x]), value(&stream, intersected, &[x]));
        assert_eq!(value(&stream, edge, &[x]), x.abs());
    }
}

#[test]
fn dilation_keeps_the_negative_region() {
    for x in [-1000i64, -1, 0, 1, 99, 100, 101] {
        for amount in [0, 1, 100] {
            let mut compiler = SdfCompiler::new();
            let a = compiler.point(Position { x: 0, y: 0 });
            let dilated = compiler.dilate(a, Centimeters(amount));
            let stream = compiler.into_instructions();
            let before = value(&stream, a, &[x]);
            let after = value(&stream, dilated, &[x]);
            assert_eq!(after, x - amount as i64);
            if before < 0 {
                assert!(after < 0);
            }
        }
    }
}

#[test]
fn unions_take_the_minimum_and_intersections_the_maximum() {
    let mut compiler = SdfCompiler::new();
    let a = compiler.point(Position { x: 0, y: 0 });
    let b = compiler.point(Position { x: 0, y: 0 });
    let c = compiler.point(Position { x: 0, y: 0 });
    let union = compiler.union(vec![a, b, c]).unwrap();
    let intersection = compiler.intersection(vec![c, a, b]).unwrap();
    let stream = compiler.into_instructions();
    let leaves = [5, -2, 9];
    assert_eq!(value(&stream, union, &leaves), -2);
    assert_eq!(value(&stream, intersection, &leaves), 9);
}

#[test]
fn building_into_a_used_compiler_keeps_what_is_there_and_takes_fresh_registers() {
    let mut compiler = SdfCompiler::new();
    let a = compiler.point(Position { x: 0, y: 0 });
    let b = compiler.invert(a);
    let _ = compiler.union(vec![a, b]).unwrap();
    let before: Vec<String> =
        compiler.instructions().iter().map(|i| format!("{:?}", i)).collect();
    let old_outputs: Vec<Register> = compiler.instructions().iter().map(output_of).collect();

    let circle = Circle::new(Position { x: 10, y: 20 }, Centimeters(300));
    let result = circle.build_into(&mut compiler);

    let stream = compiler.instructions();
    assert_eq!(stream.len(), before.len() + 2);
    for (index, text) in before.iter().enumerate() {
        assert_eq!(&format!("{:?}", stream[index]), text);
    }
    for (index, instruction) in stream.iter().enumerate().skip(before.len()) {
        let output = output_of(instruction);
        assert!(!old_outputs.contains(&output));
        for (other, earlier) in stream.iter().enumerate() {
            if other != index {
                assert_ne!(output_of(earlier), output);
            }
        }
        for input in inputs_of(instruction) {
            assert!((input.0 as usize) < index);
            assert_eq!(output_of(&stream[input.0 as usize]), input);
        }
    }
    assert_eq!(result, output_of(stream.last().unwrap()));
    assert_eq!(result.0 as usize + 1, stream.len());
}
