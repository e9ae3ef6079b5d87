use std::collections::HashMap;

use jet_lag_core::shape::compiled::shader::emitter::{
    emit_evaluate_sdf, find_i32_type, try_emit_evaluate_sdf, unique_id, OperatorFunctions,
};
use jet_lag_core::shape::compiled::shader::routine::dilate::compile_dilate;
use jet_lag_core::shape::compiled::shader::routine::edge::compile_edge;
use jet_lag_core::shape::compiled::shader::routine::intersection::{
    build_tree, compile_intersection, Extreme,
};
use jet_lag_core::shape::compiled::shader::routine::invert::compile_invert;
use jet_lag_core::shape::compiled::shader::routine::primitive::{
    compile_boundary, compile_primitive,
};
use jet_lag_core::shape::compiled::shader::routine::subtract::compile_subtract;
use jet_lag_core::shape::compiled::shader::routine::union::compile_union;
use jet_lag_core::shape::compiled::shader::routine::{local_name, store_result};
use jet_lag_core::shape::compiler::SdfCompiler;
use jet_lag_core::shape::instruction::{
    BoundaryOverlapResolution, ContourTexture, DiagramHandle, Register,
};
use jet_lag_core::shape::types::{Centimeters, Position};
use jet_lag_core::text::{decimal, is_named};
use naga::{Expression, Function, Handle, LocalVariable, MathFunction, Module, Statement, Type};

const TEMPLATE: &str = "
fn point(sample: vec2<f32>, idx_ptr: ptr<function, u32>) -> i32 {
    *idx_ptr = *idx_ptr + 1u;
    return 5;
}
fn point_cloud(sample: vec2<f32>, idx_ptr: ptr<function, u32>) -> i32 {
    *idx_ptr = *idx_ptr + 1u;
    return 6;
}
fn geodesic(sample: vec2<f32>, idx_ptr: ptr<function, u32>) -> i32 {
    *idx_ptr = *idx_ptr + 1u;
    return 7;
}
fn vdg(sample: vec2<f32>, idx_ptr: ptr<function, u32>) -> i32 {
    *idx_ptr = *idx_ptr + 1u;
    return 8;
}
fn contour_texture(sample: vec2<f32>, idx_ptr: ptr<function, u32>) -> i32 {
    *idx_ptr = *idx_ptr + 2u;
    return 9;
}
fn dilate(distance: i32, sample: vec2<f32>, idx_ptr: ptr<function, u32>) -> i32 {
    *idx_ptr = *idx_ptr + 1u;
    return distance - 1;
}
fn boundary(inside: i32, outside: i32, policy: u32, sample: vec2<f32>, idx_ptr: ptr<function, u32>) -> i32 {
    if policy == 0u {
        return max(inside, -outside);
    }
    return max(inside, 1 - outside);
}
";

struct Fixture {
    module: Module,
    function: Function,
    i32_type: Handle<Type>,
    operators: OperatorFunctions,
}

fn function_named(module: &Module, name: &str) -> Handle<Function> {
    module
        .functions
        .iter()
        .find(|(_, f)| f.name.as_deref() == Some(name))
        .map(|(handle, _)| handle)
        .unwrap()
}

fn fixture() -> Fixture {
    let module = naga::front::wgsl::parse_str(TEMPLATE).unwrap();
    let point = &module.functions[function_named(&module, "point")];
    let function = Function {
        name: Some("evaluate_sdf".to_string()),
        arguments: point.arguments.clone(),
        result: point.result.clone(),
        ..Function::default()
    };
    let i32_type = find_i32_type(&module).unwrap();
    assert_eq!(i32_type, point.result.as_ref().unwrap().ty);
    let operators = OperatorFunctions::find(&module).unwrap();
    Fixture { module, function, i32_type, operators }
}

/// Adds a local variable for each of `count` registers and maps them.
fn registers(fx: &mut Fixture, count: u32) -> HashMap<u32, Handle<LocalVariable>> {
    let mut map = HashMap::new();
    for k in 0..count {
        let variable = fx.function.local_variables.append(
            LocalVariable { name: Some(format!("input{}", k)), ty: fx.i32_type, init: None },
            naga::Span::UNDEFINED,
        );
        map.insert(k, variable);
    }
    map
}

fn expressions(function: &Function) -> Vec<Expression> {
    function.expressions.iter().map(|(_, e)| e.clone()).collect()
}

fn statements(function: &Function) -> Vec<Statement> {
    function.body.iter().cloned().collect()
}

fn index_of(e: &Handle<Expression>) -> usize {
    e.index()
}

fn emit_bounds(statement: &Statement) -> (usize, usize) {
    match statement {
        Statement::Emit(range) => {
            let inner = range.index_range();
            (inner.start as usize, inner.end as usize)
        }
        other => panic!("not an emit: {:?}", other),
    }
}

fn assert_store(statement: &Statement, pointer: usize, value: usize) {
    match statement {
        Statement::Store { pointer: p, value: v } => {
            assert_eq!((index_of(p), index_of(v)), (pointer, value))
        }
        other => panic!("not a store: {:?}", other),
    }
}

fn assert_local(e: &Expression, variable: Handle<LocalVariable>) {
    assert!(matches!(e, Expression::LocalVariable(v) if *v == variable), "{:?}", e);
}

fn assert_load(e: &Expression, pointer: usize) {
    assert!(matches!(e, Expression::Load { pointer: p } if index_of(p) == pointer), "{:?}", e);
}

fn assert_math2(e: &Expression, fun: MathFunction, left: usize, right: usize) {
    match e {
        Expression::Math { fun: f, arg, arg1: Some(arg1), arg2: None, arg3: None } => {
            assert_eq!(*f, fun);
            assert_eq!((index_of(arg), index_of(arg1)), (left, right));
        }
        other => panic!("not a binary math call: {:?}", other),
    }
}

/// No emit range may hold a local variable pointer or a call result.
fn assert_emits_clean(function: &Function) {
    let all = expressions(function);
    for statement in function.body.iter() {
        if let Statement::Emit(_) = statement {
            let (start, end) = emit_bounds(statement);
            assert!(start <= end && end <= all.len());
            for e in &all[start..end] {
                assert!(!matches!(e, Expression::LocalVariable(_) | Expression::CallResult(_)));
            }
        }
    }
}

fn validate(mut fx: Fixture) {
    fx.module.functions.append(fx.function, naga::Span::UNDEFINED);
    let mut validator = naga::valid::Validator::new(
        naga::valid::ValidationFlags::all(),
        naga::valid::Capabilities::all(),
    );
    if let Err(error) = validator.validate(&fx.module) {
        panic!("the emitted function is malformed: {:?}", error);
    }
}

#[test]
fn local_names_join_id_and_suffix() {
    assert_eq!(local_name("r7", "__edge_distance"), "r7__edge_distance");
    assert_eq!(local_name("", ""), "");
}

#[test]
fn decimal_formats_like_the_standard_library() {
    for n in [0usize, 1, 9, 10, 11, 99, 100, 101, 4096, 65535, 1_000_000, usize::MAX] {
        assert_eq!(decimal(n), n.to_string());
    }
    assert_eq!(unique_id(0), "r0");
    assert_eq!(unique_id(42), "r42");
}

#[test]
fn store_phase_creates_variable_pointer_and_store() {
    let mut fx = fixture();
    let value =
        fx.function.expressions.append(Expression::FunctionArgument(0), naga::Span::UNDEFINED);
    let variable = store_result(&mut fx.function, value, "kept".to_string(), fx.i32_type);
    assert_eq!(variable.index(), 0);
    let local = &fx.function.local_variables[variable];
    assert_eq!(local.name.as_deref(), Some("kept"));
    assert_eq!(local.ty, fx.i32_type);
    assert!(local.init.is_none());
    let all = expressions(&fx.function);
    assert_eq!(all.len(), 2);
    assert_local(&all[1], variable);
    let body = statements(&fx.function);
    assert_eq!(body.len(), 1);
    assert_store(&body[0], 1, 0);
}

#[test]
fn edge_emits_the_absolute_value() {
    let mut fx = fixture();
    let map = registers(&mut fx, 2);
    let result = compile_edge(Register(1), &mut fx.function, &map, "r5", fx.i32_type);
    assert_eq!(result.argument_len, 0);
    assert_eq!(result.variable.index(), 2);
    assert_eq!(
        fx.function.local_variables[result.variable].name.as_deref(),
        Some("r5__edge_distance")
    );
    let all = expressions(&fx.function);
    assert_eq!(all.len(), 4);
    assert_local(&all[0], map[&1]);
    assert_load(&all[1], 0);
    assert!(
        matches!(&all[2], Expression::Math { fun: MathFunction::Abs, arg, arg1: None, arg2: None, arg3: None } if index_of(arg) == 1)
    );
    assert_local(&all[3], result.variable);
    let body = statements(&fx.function);
    assert_eq!(body.len(), 2);
    assert_eq!(emit_bounds(&body[0]), (1, 3));
    assert_store(&body[1], 3, 2);
    assert_emits_clean(&fx.function);
    validate(fx);
}

#[test]
fn invert_emits_the_negation() {
    let mut fx = fixture();
    let map = registers(&mut fx, 1);
    let result = compile_invert(Register(0), &mut fx.function, &map, "r1", fx.i32_type);
    assert_eq!(result.argument_len, 0);
    assert_eq!(
        fx.function.local_variables[result.variable].name.as_deref(),
        Some("r1__invert_distance")
    );
    let all = expressions(&fx.function);
    assert_eq!(all.len(), 4);
    assert_local(&all[0], map[&0]);
    assert_load(&all[1], 0);
    assert!(
        matches!(&all[2], Expression::Unary { op: naga::UnaryOperator::Negate, expr } if index_of(expr) == 1)
    );
    assert_local(&all[3], result.variable);
    let body = statements(&fx.function);
    assert_eq!(emit_bounds(&body[0]), (1, 3));
    assert_store(&body[1], 3, 2);
    validate(fx);
}

#[test]
fn subtract_emits_the_maximum_with_the_negated_right() {
    let mut fx = fixture();
    let map = registers(&mut fx, 2);
    let result =
        compile_subtract(Register(0), Register(1), &mut fx.function, &map, "r2", fx.i32_type);
    assert_eq!(result.argument_len, 0);
    assert_eq!(
        fx.function.local_variables[result.variable].name.as_deref(),
        Some("r2__subtract_distance")
    );
    let all = expressions(&fx.function);
    assert_eq!(all.len(), 7);
    assert_local(&all[0], map[&0]);
    assert_local(&all[1], map[&1]);
    assert_load(&all[2], 0);
    assert_load(&all[3], 1);
    assert!(
        matches!(&all[4], Expression::Unary { op: naga::UnaryOperator::Negate, expr } if index_of(expr) == 3)
    );
    assert_math2(&all[5], MathFunction::Max, 2, 4);
    assert_local(&all[6], result.variable);
    let body = statements(&fx.function);
    assert_eq!(body.len(), 2);
    assert_eq!(emit_bounds(&body[0]), (2, 6));
    assert_store(&body[1], 6, 5);
    assert_emits_clean(&fx.function);
    validate(fx);
}

#[test]
fn dilate_calls_the_shader_function() {
    let mut fx = fixture();
    let map = registers(&mut fx, 1);
    let callee = fx.operators.dilate;
    let result =
        compile_dilate(Register(0), &mut fx.function, &map, "r1", fx.i32_type, callee);
    assert_eq!(result.argument_len, 1);
    assert_eq!(
        fx.function.local_variables[result.variable].name.as_deref(),
        Some("r1__dilate_distance")
    );
    let all = expressions(&fx.function);
    assert_eq!(all.len(), 6);
    assert_local(&all[0], map[&0]);
    assert_load(&all[1], 0);
    assert!(matches!(&all[2], Expression::FunctionArgument(0)));
    assert!(matches!(&all[3], Expression::FunctionArgument(1)));
    assert!(matches!(&all[4], Expression::CallResult(f) if *f == callee));
    assert_local(&all[5], result.variable);
    let body = statements(&fx.function);
    assert_eq!(body.len(), 3);
    assert_eq!(emit_bounds(&body[0]), (1, 2));
    match &body[1] {
        Statement::Call { function, arguments, result: Some(result) } => {
            assert_eq!(*function, callee);
            assert_eq!(arguments.iter().map(index_of).collect::<Vec<_>>(), vec![1, 2, 3]);
            assert_eq!(index_of(result), 4);
        }
        other => panic!("not a call: {:?}", other),
    }
    assert_store(&body[2], 5, 4);
    assert_emits_clean(&fx.function);
    validate(fx);
}

#[test]
fn primitive_calls_its_shader_function() {
    let mut fx = fixture();
    let callee = fx.operators.point_cloud;
    let result = compile_primitive(
        callee,
        1,
        "__point_cloud_distance",
        &mut fx.function,
        "r0",
        fx.i32_type,
    );
    assert_eq!(result.argument_len, 1);
    assert_eq!(
        fx.function.local_variables[result.variable].name.as_deref(),
        Some("r0__point_cloud_distance")
    );
    let all = expressions(&fx.function);
    assert_eq!(all.len(), 4);
    assert!(matches!(&all[0], Expression::FunctionArgument(0)));
    assert!(matches!(&all[1], Expression::FunctionArgument(1)));
    assert!(matches!(&all[2], Expression::CallResult(f) if *f == callee));
    assert_local(&all[3], result.variable);
    let body = statements(&fx.function);
    assert_eq!(body.len(), 2);
    match &body[0] {
        Statement::Call { function, arguments, result: Some(result) } => {
            assert_eq!(*function, callee);
            assert_eq!(arguments.iter().map(index_of).collect::<Vec<_>>(), vec![0, 1]);
            assert_eq!(index_of(result), 2);
        }
        other => panic!("not a call: {:?}", other),
    }
    assert_store(&body[1], 3, 2);
    validate(fx);
}

#[test]
fn boundary_calls_its_shader_function_with_both_distances() {
    let mut fx = fixture();
    let map = registers(&mut fx, 2);
    let callee = fx.operators.boundary;
    let result = compile_boundary(
        Register(1),
        Register(0),
        BoundaryOverlapResolution::Outside,
        callee,
        &mut fx.function,
        &map,
        "r2",
        fx.i32_type,
    );
    assert_eq!(result.argument_len, 0);
    assert_eq!(
        fx.function.local_variables[result.variable].name.as_deref(),
        Some("r2__boundary_distance")
    );
    let all = expressions(&fx.function);
    assert_eq!(all.len(), 9);
    assert_local(&all[0], map[&1]);
    assert_local(&all[1], map[&0]);
    assert_load(&all[2], 0);
    assert_load(&all[3], 1);
    assert!(matches!(&all[4], Expression::Literal(naga::Literal::U32(1))));
    assert!(matches!(&all[5], Expression::FunctionArgument(0)));
    assert!(matches!(&all[6], Expression::FunctionArgument(1)));
    assert!(matches!(&all[7], Expression::CallResult(f) if *f == callee));
    let body = statements(&fx.function);
    assert_eq!(body.len(), 3);
    assert_eq!(emit_bounds(&body[0]), (2, 4));
    match &body[1] {
        Statement::Call { function, arguments, result: Some(result) } => {
            assert_eq!(*function, callee);
            assert_eq!(arguments.iter().map(index_of).collect::<Vec<_>>(), vec![2, 3, 4, 5, 6]);
            assert_eq!(index_of(result), 7);
        }
        other => panic!("not a call: {:?}", other),
    }
    assert_store(&body[2], 8, 7);
    assert_emits_clean(&fx.function);
    validate(fx);
}

#[test]
fn tree_over_one_pointer_is_a_load() {
    let mut fx = fixture();
    let map = registers(&mut fx, 1);
    let pointer = fx
        .function
        .expressions
        .append(Expression::LocalVariable(map[&0]), naga::Span::UNDEFINED);
    let root = build_tree(&mut fx.function, &vec![pointer], 0, 1, Extreme::Max);
    assert_eq!(root.index(), 1);
    let all = expressions(&fx.function);
    assert_eq!(all.len(), 2);
    assert_load(&all[1], 0);
}

#[test]
fn intersection_of_five_is_a_balanced_max_tree() {
    let mut fx = fixture();
    let map = registers(&mut fx, 5);
    let inputs: Vec<Register> = vec![4, 0, 3, 1, 2].into_iter().map(Register).collect();
    let result = compile_intersection(&inputs, &mut fx.function, &map, "r5", fx.i32_type);
    assert_eq!(result.argument_len, 0);
    assert_eq!(
        fx.function.local_variables[result.variable].name.as_deref(),
        Some("r5__intersection_distance")
    );
    let all = expressions(&fx.function);
    // 5 pointers, 9 tree expressions, 1 result pointer
    assert_eq!(all.len(), 15);
    for (k, register) in [4u32, 0, 3, 1, 2].iter().enumerate() {
        assert_local(&all[k], map[register]);
    }
    // [a b | c d e] -> ((a, b), (c, (d, e)))
    assert_load(&all[5], 0);
    assert_load(&all[6], 1);
    assert_math2(&all[7], MathFunction::Max, 5, 6);
    assert_load(&all[8], 2);
    assert_load(&all[9], 3);
    assert_load(&all[10], 4);
    assert_math2(&all[11], MathFunction::Max, 9, 10);
    assert_math2(&all[12], MathFunction::Max, 8, 11);
    assert_math2(&all[13], MathFunction::Max, 7, 12);
    assert_local(&all[14], result.variable);
    let body = statements(&fx.function);
    assert_eq!(body.len(), 2);
    assert_eq!(emit_bounds(&body[0]), (5, 14));
    assert_store(&body[1], 14, 13);
    assert_emits_clean(&fx.function);
    validate(fx);
}

#[test]
fn union_of_two_is_one_min() {
    let mut fx = fixture();
    let map = registers(&mut fx, 2);
    let inputs = vec![Register(0), Register(1)];
    let result = compile_union(&inputs, &mut fx.function, &map, "r2", fx.i32_type);
    assert_eq!(
        fx.function.local_variables[result.variable].name.as_deref(),
        Some("r2__union_distance")
    );
    let all = expressions(&fx.function);
    assert_eq!(all.len(), 6);
    assert_load(&all[2], 0);
    assert_load(&all[3], 1);
    assert_math2(&all[4], MathFunction::Min, 2, 3);
    let body = statements(&fx.function);
    assert_eq!(emit_bounds(&body[0]), (2, 5));
    assert_store(&body[1], 5, 4);
    validate(fx);
}

#[test]
fn union_of_one_is_a_single_load() {
    let mut fx = fixture();
    let map = registers(&mut fx, 3);
    let inputs = vec![Register(2)];
    let _ = compile_union(&inputs, &mut fx.function, &map, "r3", fx.i32_type);
    let all = expressions(&fx.function);
    assert_eq!(all.len(), 3);
    assert_local(&all[0], map[&2]);
    assert_load(&all[1], 0);
    let body = statements(&fx.function);
    assert_eq!(emit_bounds(&body[0]), (1, 2));
    assert_store(&body[1], 2, 1);
    validate(fx);
}

#[test]
fn whole_stream_is_emitted_in_order_and_validates() {
    let mut compiler = SdfCompiler::new();
    let point = compiler.point(Position { x: 0, y: 0 });
    let cloud = compiler.point_cloud(vec![Position { x: 1, y: 1 }]);
    let line = compiler.geodesic_string(vec![Position { x: 1, y: 1 }, Position { x: 2, y: 2 }]);
    let area = compiler.with_vdg(DiagramHandle(0));
    let texture = ContourTexture {
        width: 1,
        height: 1,
        min_lat: 0,
        max_lat: 1,
        min_lon: 0,
        max_lon: 1,
        texels: vec![0],
    };
    let contour = compiler.with_contour_texture(texture, Centimeters(3));
    let edge = compiler.edge(area);
    let inverted = compiler.invert(contour);
    let dilated = compiler.dilate(point, Centimeters(10));
    let union = compiler.union(vec![cloud, line, edge]).unwrap();
    let intersection = compiler.intersection(vec![union, inverted]).unwrap();
    let subtracted = compiler.subtract(intersection, dilated);
    let bounded = compiler.boundary(subtracted, point, BoundaryOverlapResolution::Inside);
    let last = compiler.boundary(bounded, cloud, BoundaryOverlapResolution::Outside);
    let stream = compiler.into_instructions();

    let mut fx = fixture();
    let routines =
        emit_evaluate_sdf(&stream, last, &mut fx.function, &fx.operators, fx.i32_type);
    assert_eq!(routines.len(), stream.len());
    let lens: Vec<u8> = routines.iter().map(|r| r.argument_len).collect();
    assert_eq!(lens, vec![1, 1, 1, 1, 2, 0, 0, 1, 0, 0, 0, 0, 0]);
    for (k, routine) in routines.iter().enumerate() {
        assert_eq!(routine.variable.index(), k);
    }
    let names: Vec<String> = fx
        .function
        .local_variables
        .iter()
        .map(|(_, v)| v.name.clone().unwrap())
        .collect();
    assert_eq!(
        names,
        vec![
            "r0__point_distance",
            "r1__point_cloud_distance",
            "r2__geodesic_distance",
            "r3__vdg_distance",
            "r4__contour_texture_distance",
            "r5__edge_distance",
            "r6__invert_distance",
            "r7__dilate_distance",
            "r8__union_distance",
            "r9__intersection_distance",
            "r10__subtract_distance",
            "r11__boundary_distance",
            "r12__boundary_distance",
        ]
    );
    assert_emits_clean(&fx.function);
    let body = statements(&fx.function);
    match body.last().unwrap() {
        Statement::Return { value: Some(value) } => {
            let all = expressions(&fx.function);
            assert_load(&all[index_of(value)], index_of(value) - 1);
            assert_local(&all[index_of(value) - 1], routines[last.0 as usize].variable);
        }
        other => panic!("not a return: {:?}", other),
    }
    let callees: Vec<Handle<Function>> = body
        .iter()
        .filter_map(|s| match s {
            Statement::Call { function, .. } => Some(*function),
            _ => None,
        })
        .collect();
    assert_eq!(
        callees,
        vec![
            fx.operators.point,
            fx.operators.point_cloud,
            fx.operators.geodesic,
            fx.operators.vdg,
            fx.operators.contour_texture,
            fx.operators.dilate,
            fx.operators.boundary,
            fx.operators.boundary,
        ]
    );
    let selectors: Vec<u32> = expressions(&fx.function)
        .iter()
        .filter_map(|e| match e {
            Expression::Literal(naga::Literal::U32(value)) => Some(*value),
            _ => None,
        })
        .collect();
    assert_eq!(selectors, vec![0, 1]);
    validate(fx);
}

#[test]
fn emitter_returns_the_requested_register() {
    let mut compiler = SdfCompiler::new();
    let point = compiler.point(Position { x: 0, y: 0 });
    let _ = compiler.invert(point);
    let stream = compiler.into_instructions();
    let mut fx = fixture();
    let routines =
        emit_evaluate_sdf(&stream, point, &mut fx.function, &fx.operators, fx.i32_type);
    let all = expressions(&fx.function);
    assert_local(&all[all.len() - 2], routines[0].variable);
    validate(fx);
}

#[test]
fn a_stream_that_fits_is_emitted_as_by_the_plain_emitter() {
    let mut compiler = SdfCompiler::new();
    let point = compiler.point(Position { x: 0, y: 0 });
    let cloud = compiler.point_cloud(vec![Position { x: 1, y: 1 }]);
    let union = compiler.union(vec![point, cloud]).unwrap();
    let dilated = compiler.dilate(union, Centimeters(10));
    let stream = compiler.into_instructions();

    let mut plain = fixture();
    let expected =
        emit_evaluate_sdf(&stream, dilated, &mut plain.function, &plain.operators, plain.i32_type);
    let mut fx = fixture();
    let routines =
        try_emit_evaluate_sdf(&stream, dilated, &mut fx.function, &fx.operators, fx.i32_type)
            .unwrap();
    assert_eq!(routines.len(), 4);
    for (left, right) in routines.iter().zip(expected.iter()) {
        assert_eq!(left.argument_len, right.argument_len);
        assert_eq!(left.variable, right.variable);
    }
    assert_eq!(fx.function.expressions.len(), 4 + 4 + 6 + 6 + 2);
    assert_eq!(fx.function.local_variables.len(), 4);
    assert_eq!(format!("{:?}", fx.function), format!("{:?}", plain.function));
    validate(fx);
}

#[test]
fn operators_are_found_by_name() {
    let module = naga::front::wgsl::parse_str(TEMPLATE).unwrap();
    let operators = OperatorFunctions::find(&module).unwrap();
    assert_eq!(operators.point, function_named(&module, "point"));
    assert_eq!(operators.point_cloud, function_named(&module, "point_cloud"));
    assert_eq!(operators.geodesic, function_named(&module, "geodesic"));
    assert_eq!(operators.vdg, function_named(&module, "vdg"));
    assert_eq!(operators.contour_texture, function_named(&module, "contour_texture"));
    assert_eq!(operators.dilate, function_named(&module, "dilate"));
    assert_eq!(operators.boundary, function_named(&module, "boundary"));
    assert_ne!(operators.point, operators.dilate);
}

#[test]
fn a_module_without_an_operator_has_no_operators() {
    let module = naga::front::wgsl::parse_str(
        "fn point(sample: vec2<f32>, idx_ptr: ptr<function, u32>) -> i32 { return 5; }",
    )
    .unwrap();
    assert!(OperatorFunctions::find(&module).is_none());
    assert!(OperatorFunctions::find(&Module::default()).is_none());
}

#[test]
fn the_i32_type_is_found_if_present() {
    let module = naga::front::wgsl::parse_str(TEMPLATE).unwrap();
    let found = find_i32_type(&module).unwrap();
    assert_eq!(module.types[found].inner, naga::TypeInner::Scalar(naga::Scalar::I32));
    assert!(module.types[found].name.is_none());
    assert!(find_i32_type(&Module::default()).is_none());
    let floats = naga::front::wgsl::parse_str("fn f(x: f32) -> f32 { return x; }").unwrap();
    assert!(find_i32_type(&floats).is_none());
}

#[test]
fn the_i32_type_is_the_first_of_its_shape_whatever_its_name() {
    let mut module = Module::default();
    let wide = Type {
        name: None,
        inner: naga::TypeInner::Scalar(naga::Scalar { kind: naga::ScalarKind::Sint, width: 8 }),
    };
    let unsigned = Type { name: None, inner: naga::TypeInner::Scalar(naga::Scalar::U32) };
    let named = Type {
        name: Some("Distance".to_string()),
        inner: naga::TypeInner::Scalar(naga::Scalar::I32),
    };
    let plain = Type { name: None, inner: naga::TypeInner::Scalar(naga::Scalar::I32) };
    let _ = module.types.insert(wide, naga::Span::UNDEFINED);
    let _ = module.types.insert(unsigned, naga::Span::UNDEFINED);
    assert!(find_i32_type(&module).is_none());
    let first = module.types.insert(named, naga::Span::UNDEFINED);
    let second = module.types.insert(plain, naga::Span::UNDEFINED);
    assert_ne!(first, second);
    assert_eq!(find_i32_type(&module), Some(first));
    assert_eq!(first.index(), 2);
}

#[test]
fn function_names_are_compared_whole() {
    assert!(is_named(&Some("dilate".to_string()), "dilate"));
    assert!(!is_named(&Some("dilate2".to_string()), "dilate"));
    assert!(!is_named(&Some("".to_string()), "dilate"));
    assert!(!is_named(&None, "dilate"));
    assert!(!is_named(&None, ""));
}
