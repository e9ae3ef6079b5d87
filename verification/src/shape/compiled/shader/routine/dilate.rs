//! Dilate: grows a shape by calling the shader's `dilate` function, which
//! reads the amount from the argument buffer.

use std::collections::HashMap;
use vstd::prelude::*;

use crate::shape::compiled::shader::ir::{
    append_call_result, append_function_argument, append_load, append_local_pointer,
    expression_count, expression_indices, function_body, function_expressions, function_index,
    function_locals, local_index, push_call, push_emit_from, type_index, ExpressionModel,
    StatementModel,
};
use crate::shape::compiled::shader::routine::{
    emitted, function_clean, lemma_clean_kept, lemma_emitted_then, local_name, store_result,
    stored, variable_of, Emitted, RoutineResult,
};
use crate::shape::instruction::Register;

verus! {

/// What the dilate routine appends to a function of `e` expressions and `l`
/// local variables: a pointer to the input variable; its load, emitted; the
/// two function arguments and the call result; the call of `callee` with
/// the distance, the sample and the index pointer; and the store of the
/// call result in a fresh variable named after `unique_id`.
pub open spec fn dilate_emitted(
    input: int,
    callee: int,
    e: int,
    l: int,
    unique_id: Seq<char>,
    ty: int,
) -> Emitted {
    Emitted {
        expressions: seq![
            ExpressionModel::LocalVariable { variable: input },
            ExpressionModel::Load { pointer: e },
            ExpressionModel::FunctionArgument { index: 0 },
            ExpressionModel::FunctionArgument { index: 1 },
            ExpressionModel::CallResult { function: callee },
        ],
        statements: seq![
            StatementModel::Emit { start: e + 1, end: e + 2 },
            StatementModel::Call {
                function: callee,
                arguments: seq![e + 1, e + 2, e + 3],
                result: e + 4,
            },
        ],
        locals: Seq::empty(),
    }.followed_by(stored(e + 5, l, e + 4, unique_id + "__dilate_distance"@, ty))
}

/// Emits a call of the shader function `dilate_routine` on the value of
/// `register` into `function` and stores its result in a fresh `i32` local
/// variable. The amount is the one argument the instruction consumes.
pub fn compile_dilate(
    register: Register,
    function: &mut naga::Function,
    register_map: &HashMap<u32, naga::Handle<naga::LocalVariable>>,
    unique_id: &str,
    i32_type: naga::Handle<naga::Type>,
    dilate_routine: naga::Handle<naga::Function>,
) -> (result: RoutineResult)
    requires
        register_map@.contains_key(register.0),
        function_expressions(*old(function)).len() + 6 <= u32::MAX,
        function_locals(*old(function)).len() < u32::MAX,
    ensures
        emitted(
            *old(function),
            *final(function),
            dilate_emitted(
                local_index(register_map@[register.0]),
                function_index(dilate_routine),
                function_expressions(*old(function)).len() as int,
                function_locals(*old(function)).len() as int,
                unique_id@,
                type_index(i32_type),
            ),
        ),
        result.argument_len == 1,
        local_index(result.variable) == function_locals(*old(function)).len(),
        function_clean(*old(function)) ==> function_clean(*final(function)),
{
    let ghost e = function_expressions(*function).len() as int;
    let ghost l = function_locals(*function).len() as int;
    let input_var = variable_of(register_map, register.0);

    let var_ptr = append_local_pointer(function, input_var);
    let emit_start = expression_count(function);
    let distance_expr = append_load(function, var_ptr);
    push_emit_from(function, emit_start);

    let sample_expr = append_function_argument(function, 0);
    let idx_ptr_expr = append_function_argument(function, 1);
    let call_result = append_call_result(function, dilate_routine);
    let mut arguments: Vec<naga::Handle<naga::Expression>> = Vec::new();
    arguments.push(distance_expr);
    arguments.push(sample_expr);
    arguments.push(idx_ptr_expr);
    proof {
        assert(expression_indices(arguments@) =~= seq![e + 1, e + 2, e + 3]);
    }
    push_call(function, dilate_routine, arguments, call_result);
    let ghost middle = *function;
    let ghost value = Emitted {
        expressions: seq![
            ExpressionModel::LocalVariable { variable: local_index(input_var) },
            ExpressionModel::Load { pointer: e },
            ExpressionModel::FunctionArgument { index: 0 },
            ExpressionModel::FunctionArgument { index: 1 },
            ExpressionModel::CallResult { function: function_index(dilate_routine) },
        ],
        statements: seq![
            StatementModel::Emit { start: e + 1, end: e + 2 },
            StatementModel::Call {
                function: function_index(dilate_routine),
                arguments: seq![e + 1, e + 2, e + 3],
                result: e + 4,
            },
        ],
        locals: Seq::empty(),
    };
    proof {
        assert(function_expressions(middle) =~= function_expressions(*old(function))
            + value.expressions);
        assert(function_body(middle) =~= function_body(*old(function)) + value.statements);
        assert(function_locals(middle) =~= function_locals(*old(function)) + value.locals);
    }

    let name = local_name(unique_id, "__dilate_distance");
    let result_var = store_result(function, call_result, name, i32_type);
    proof {
        let store = stored(e + 5, l, e + 4, unique_id@ + "__dilate_distance"@, type_index(i32_type));
        lemma_emitted_then(*old(function), middle, *function, value, store);
        if function_clean(*old(function)) {
            lemma_clean_kept(*old(function), *function, value.followed_by(store));
        }
    }
    RoutineResult { argument_len: 1, variable: result_var }
}

} // verus!
