//! Primitives and the boundary operator: each calls the shader function of
//! its name, which reads its parameters from the argument buffer.

use std::collections::HashMap;
use vstd::prelude::*;

use crate::shape::compiled::shader::ir::{
    append_call_result, append_function_argument, append_literal, append_load,
    append_local_pointer, expression_count, expression_indices, function_body,
    function_expressions, function_index, function_locals, local_index, push_call, push_emit_from,
    type_index, ExpressionModel, StatementModel,
};
use crate::shape::compiled::shader::routine::{
    emitted, function_clean, lemma_clean_kept, lemma_emitted_then, local_name, store_result,
    stored, variable_of, Emitted, RoutineResult,
};
use crate::shape::instruction::{BoundaryOverlapResolution, Register};

verus! {

/// What a primitive routine appends to a function of `e` expressions and
/// `l` local variables: the two function arguments and the call result; the
/// call of `callee` with the sample and the index pointer; and the store of
/// the call result in a fresh variable named after `unique_id` and
/// `suffix`. Nothing is emitted, as no value expression is created.
pub open spec fn primitive_emitted(
    callee: int,
    e: int,
    l: int,
    unique_id: Seq<char>,
    suffix: Seq<char>,
    ty: int,
) -> Emitted {
    Emitted {
        expressions: seq![
            ExpressionModel::FunctionArgument { index: 0 },
            ExpressionModel::FunctionArgument { index: 1 },
            ExpressionModel::CallResult { function: callee },
        ],
        statements: seq![
            StatementModel::Call { function: callee, arguments: seq![e, e + 1], result: e + 2 },
        ],
        locals: Seq::empty(),
    }.followed_by(stored(e + 3, l, e + 2, unique_id + suffix, ty))
}

/// Emits a call `callee(sample, idx_ptr)` into `function` and stores its
/// result in a fresh `i32` local variable. The instruction consumes
/// `argument_len` argument handles.
pub fn compile_primitive(
    callee: naga::Handle<naga::Function>,
    argument_len: u8,
    suffix: &str,
    function: &mut naga::Function,
    unique_id: &str,
    i32_type: naga::Handle<naga::Type>,
) -> (result: RoutineResult)
    requires
        function_expressions(*old(function)).len() + 4 <= u32::MAX,
        function_locals(*old(function)).len() < u32::MAX,
    ensures
        emitted(
            *old(function),
            *final(function),
            primitive_emitted(
                function_index(callee),
                function_expressions(*old(function)).len() as int,
                function_locals(*old(function)).len() as int,
                unique_id@,
                suffix@,
                type_index(i32_type),
            ),
        ),
        result.argument_len == argument_len,
        local_index(result.variable) == function_locals(*old(function)).len(),
        function_clean(*old(function)) ==> function_clean(*final(function)),
{
    let ghost e = function_expressions(*function).len() as int;
    let ghost l = function_locals(*function).len() as int;

    let sample_expr = append_function_argument(function, 0);
    let idx_ptr_expr = append_function_argument(function, 1);
    let call_result = append_call_result(function, callee);
    let mut arguments: Vec<naga::Handle<naga::Expression>> = Vec::new();
    arguments.push(sample_expr);
    arguments.push(idx_ptr_expr);
    proof {
        assert(expression_indices(arguments@) =~= seq![e, e + 1]);
    }
    push_call(function, callee, arguments, call_result);
    let ghost middle = *function;
    let ghost value = Emitted {
        expressions: seq![
            ExpressionModel::FunctionArgument { index: 0 },
            ExpressionModel::FunctionArgument { index: 1 },
            ExpressionModel::CallResult { function: function_index(callee) },
        ],
        statements: seq![
            StatementModel::Call {
                function: function_index(callee),
                arguments: seq![e, e + 1],
                result: e + 2,
            },
        ],
        locals: Seq::empty(),
    };
    proof {
        assert(function_expressions(middle) =~= function_expressions(*old(function))
            + value.expressions);
        assert(function_body(middle) =~= function_body(*old(function)) + value.statements);
        assert(function_locals(middle) =~= function_locals(*old(function)) + value.locals);
    }

    let name = local_name(unique_id, suffix);
    let result_var = store_result(function, call_result, name, i32_type);
    proof {
        let store = stored(e + 3, l, e + 2, unique_id@ + suffix@, type_index(i32_type));
        lemma_emitted_then(*old(function), middle, *function, value, store);
        if function_clean(*old(function)) {
            lemma_clean_kept(*old(function), *function, value.followed_by(store));
        }
    }
    RoutineResult { argument_len, variable: result_var }
}

/// The selector that tells the shader's `boundary` function how to resolve
/// an overlap.
pub open spec fn policy_selector(resolution: BoundaryOverlapResolution) -> u32 {
    match resolution {
        BoundaryOverlapResolution::Inside => 0,
        BoundaryOverlapResolution::Outside => 1,
    }
}

/// What the boundary routine appends to a function of `e` expressions and
/// `l` local variables: pointers to both input variables; both loads,
/// emitted; the policy selector, the two function arguments and the call
/// result; the call of `callee` with both distances, the selector, the
/// sample and the index pointer; and the store of the call result in a
/// fresh variable named after `unique_id`.
pub open spec fn boundary_emitted(
    inside: int,
    outside: int,
    selector: u32,
    callee: int,
    e: int,
    l: int,
    unique_id: Seq<char>,
    ty: int,
) -> Emitted {
    Emitted {
        expressions: seq![
            ExpressionModel::LocalVariable { variable: inside },
            ExpressionModel::LocalVariable { variable: outside },
            ExpressionModel::Load { pointer: e },
            ExpressionModel::Load { pointer: e + 1 },
            ExpressionModel::Literal { value: selector },
            ExpressionModel::FunctionArgument { index: 0 },
            ExpressionModel::FunctionArgument { index: 1 },
            ExpressionModel::CallResult { function: callee },
        ],
        statements: seq![
            StatementModel::Emit { start: e + 2, end: e + 4 },
            StatementModel::Call {
                function: callee,
                arguments: seq![e + 2, e + 3, e + 4, e + 5, e + 6],
                result: e + 7,
            },
        ],
        locals: Seq::empty(),
    }.followed_by(stored(e + 8, l, e + 7, unique_id + "__boundary_distance"@, ty))
}

/// Emits a call `callee(load inside, load outside, selector, sample,
/// idx_ptr)` into `function` and stores its result in a fresh `i32` local
/// variable.
pub fn compile_boundary(
    inside: Register,
    outside: Register,
    resolution: BoundaryOverlapResolution,
    callee: naga::Handle<naga::Function>,
    function: &mut naga::Function,
    register_map: &HashMap<u32, naga::Handle<naga::LocalVariable>>,
    unique_id: &str,
    i32_type: naga::Handle<naga::Type>,
) -> (result: RoutineResult)
    requires
        register_map@.contains_key(inside.0),
        register_map@.contains_key(outside.0),
        function_expressions(*old(function)).len() + 9 <= u32::MAX,
        function_locals(*old(function)).len() < u32::MAX,
    ensures
        emitted(
            *old(function),
            *final(function),
            boundary_emitted(
                local_index(register_map@[inside.0]),
                local_index(register_map@[outside.0]),
                policy_selector(resolution),
                function_index(callee),
                function_expressions(*old(function)).len() as int,
                function_locals(*old(function)).len() as int,
                unique_id@,
                type_index(i32_type),
            ),
        ),
        result.argument_len == 0,
        local_index(result.variable) == function_locals(*old(function)).len(),
        function_clean(*old(function)) ==> function_clean(*final(function)),
{
    let ghost e = function_expressions(*function).len() as int;
    let ghost l = function_locals(*function).len() as int;
    let inside_var = variable_of(register_map, inside.0);
    let outside_var = variable_of(register_map, outside.0);

    let inside_ptr = append_local_pointer(function, inside_var);
    let outside_ptr = append_local_pointer(function, outside_var);
    let emit_start = expression_count(function);
    let inside_expr = append_load(function, inside_ptr);
    let outside_expr = append_load(function, outside_ptr);
    push_emit_from(function, emit_start);

    let selector: u32 = match resolution {
        BoundaryOverlapResolution::Inside => 0,
        BoundaryOverlapResolution::Outside => 1,
    };
    let selector_expr = append_literal(function, selector);
    let sample_expr = append_function_argument(function, 0);
    let idx_ptr_expr = append_function_argument(function, 1);
    let call_result = append_call_result(function, callee);
    let mut arguments: Vec<naga::Handle<naga::Expression>> = Vec::new();
    arguments.push(inside_expr);
    arguments.push(outside_expr);
    arguments.push(selector_expr);
    arguments.push(sample_expr);
    arguments.push(idx_ptr_expr);
    proof {
        assert(expression_indices(arguments@) =~= seq![e + 2, e + 3, e + 4, e + 5, e + 6]);
    }
    push_call(function, callee, arguments, call_result);
    let ghost middle = *function;
    let ghost value = Emitted {
        expressions: seq![
            ExpressionModel::LocalVariable { variable: local_index(inside_var) },
            ExpressionModel::LocalVariable { variable: local_index(outside_var) },
            ExpressionModel::Load { pointer: e },
            ExpressionModel::Load { pointer: e + 1 },
            ExpressionModel::Literal { value: selector },
            ExpressionModel::FunctionArgument { index: 0 },
            ExpressionModel::FunctionArgument { index: 1 },
            ExpressionModel::CallResult { function: function_index(callee) },
        ],
        statements: seq![
            StatementModel::Emit { start: e + 2, end: e + 4 },
            StatementModel::Call {
                function: function_index(callee),
                arguments: seq![e + 2, e + 3, e + 4, e + 5, e + 6],
                result: e + 7,
            },
        ],
        locals: Seq::empty(),
    };
    proof {
        assert(function_expressions(middle) =~= function_expressions(*old(function))
            + value.expressions);
        assert(function_body(middle) =~= function_body(*old(function)) + value.statements);
        assert(function_locals(middle) =~= function_locals(*old(function)) + value.locals);
    }

    let name = local_name(unique_id, "__boundary_distance");
    let result_var = store_result(function, call_result, name, i32_type);
    proof {
        let store = stored(e + 8, l, e + 7, unique_id@ + "__boundary_distance"@, type_index(i32_type));
        lemma_emitted_then(*old(function), middle, *function, value, store);
        if function_clean(*old(function)) {
            lemma_clean_kept(*old(function), *function, value.followed_by(store));
        }
    }
    RoutineResult { argument_len: 0, variable: result_var }
}

} // verus!
