//! Edge: the absolute value of a distance, the distance to the boundary.

use std::collections::HashMap;
use vstd::prelude::*;

use crate::shape::compiled::shader::ir::{
    append_abs, append_load, append_local_pointer, expression_count, function_body,
    function_expressions, function_locals, local_index, push_emit_from, type_index,
    ExpressionModel, StatementModel,
};
use crate::shape::compiled::shader::routine::{
    expression_value,
    emitted, function_clean, lemma_clean_kept, lemma_emitted_then, local_name, store_result,
    stored, variable_of, Emitted, RoutineResult,
};
use crate::shape::instruction::Register;
use crate::shape::semantics::abs_of;

verus! {

/// What the edge routine appends to a function of `e` expressions and `l`
/// local variables: a pointer to the input variable; a load and its
/// absolute value, emitted; and the store of the absolute value in a fresh
/// variable named after `unique_id`.
pub open spec fn edge_emitted(input: int, e: int, l: int, unique_id: Seq<char>, ty: int) -> Emitted {
    Emitted {
        expressions: seq![
            ExpressionModel::LocalVariable { variable: input },
            ExpressionModel::Load { pointer: e },
            ExpressionModel::Abs { arg: e + 1 },
        ],
        statements: seq![StatementModel::Emit { start: e + 1, end: e + 3 }],
        locals: Seq::empty(),
    }.followed_by(stored(e + 3, l, e + 2, unique_id + "__edge_distance"@, ty))
}

/// The value the edge routine stores is the absolute value of what it
/// loads.
pub proof fn law_edge_value(
    expressions: Seq<ExpressionModel>,
    input: int,
    e: int,
    l: int,
    unique_id: Seq<char>,
    ty: int,
    loaded: spec_fn(int) -> int,
)
    requires
        0 <= e,
        e + 4 <= expressions.len(),
        expressions.subrange(e, e + 4) == edge_emitted(input, e, l, unique_id, ty).expressions,
    ensures
        expression_value(expressions, e + 2, loaded) == abs_of(loaded(e)),
{
    let own = expressions.subrange(e, e + 4);
    reveal_with_fuel(expression_value, 4);
    assert(expressions[e + 1] == own[1]);
    assert(expressions[e + 2] == own[2]);
    assert(own[1] == ExpressionModel::Load { pointer: e });
    assert(own[2] == ExpressionModel::Abs { arg: e + 1 });
}

/// Emits `abs(load register)` into `function` and stores it in a fresh
/// `i32` local variable.
pub fn compile_edge(
    register: Register,
    function: &mut naga::Function,
    register_map: &HashMap<u32, naga::Handle<naga::LocalVariable>>,
    unique_id: &str,
    i32_type: naga::Handle<naga::Type>,
) -> (result: RoutineResult)
    requires
        register_map@.contains_key(register.0),
        function_expressions(*old(function)).len() + 4 <= u32::MAX,
        function_locals(*old(function)).len() < u32::MAX,
    ensures
        emitted(
            *old(function),
            *final(function),
            edge_emitted(
                local_index(register_map@[register.0]),
                function_expressions(*old(function)).len() as int,
                function_locals(*old(function)).len() as int,
                unique_id@,
                type_index(i32_type),
            ),
        ),
        result.argument_len == 0,
        local_index(result.variable) == function_locals(*old(function)).len(),
        function_clean(*old(function)) ==> function_clean(*final(function)),
{
    let ghost e = function_expressions(*function).len() as int;
    let ghost l = function_locals(*function).len() as int;
    let var = variable_of(register_map, register.0);

    let var_ptr = append_local_pointer(function, var);
    let emit_start = expression_count(function);
    let load_expr = append_load(function, var_ptr);
    let abs_expr = append_abs(function, load_expr);
    push_emit_from(function, emit_start);
    let ghost middle = *function;
    let ghost value = Emitted {
        expressions: seq![
            ExpressionModel::LocalVariable { variable: local_index(var) },
            ExpressionModel::Load { pointer: e },
            ExpressionModel::Abs { arg: e + 1 },
        ],
        statements: seq![StatementModel::Emit { start: e + 1, end: e + 3 }],
        locals: Seq::empty(),
    };
    proof {
        assert(function_expressions(middle) =~= function_expressions(*old(function))
            + value.expressions);
        assert(function_body(middle) =~= function_body(*old(function)) + value.statements);
        assert(function_locals(middle) =~= function_locals(*old(function)) + value.locals);
    }

    let name = local_name(unique_id, "__edge_distance");
    let result_var = store_result(function, abs_expr, name, i32_type);
    proof {
        let store = stored(e + 3, l, e + 2, unique_id@ + "__edge_distance"@, type_index(i32_type));
        lemma_emitted_then(*old(function), middle, *function, value, store);
        if function_clean(*old(function)) {
            lemma_clean_kept(*old(function), *function, value.followed_by(store));
        }
    }
    RoutineResult { argument_len: 0, variable: result_var }
}

} // verus!
