//! Subtract: one shape without another, `max(left, -right)`.

use std::collections::HashMap;
use vstd::prelude::*;

use crate::shape::compiled::shader::ir::{
    append_load, append_local_pointer, append_max, append_negate, expression_count, function_body,
    function_expressions, function_locals, local_index, push_emit_from, type_index,
    ExpressionModel, StatementModel,
};
use crate::shape::compiled::shader::routine::{
    expression_value,
    emitted, function_clean, lemma_clean_kept, lemma_emitted_then, local_name, store_result,
    stored, variable_of, Emitted, RoutineResult,
};
use crate::shape::instruction::Register;
use crate::shape::semantics::max_of;

verus! {

/// What the subtract routine appends to a function of `e` expressions and
/// `l` local variables: pointers to both input variables; both loads, the
/// negated right one and their maximum, emitted; and the store of the
/// maximum in a fresh variable named after `unique_id`.
pub open spec fn subtract_emitted(
    left: int,
    right: int,
    e: int,
    l: int,
    unique_id: Seq<char>,
    ty: int,
) -> Emitted {
    Emitted {
        expressions: seq![
            ExpressionModel::LocalVariable { variable: left },
            ExpressionModel::LocalVariable { variable: right },
            ExpressionModel::Load { pointer: e },
            ExpressionModel::Load { pointer: e + 1 },
            ExpressionModel::Negate { expr: e + 3 },
            ExpressionModel::Max { left: e + 2, right: e + 4 },
        ],
        statements: seq![StatementModel::Emit { start: e + 2, end: e + 6 }],
        locals: Seq::empty(),
    }.followed_by(stored(e + 6, l, e + 5, unique_id + "__subtract_distance"@, ty))
}

/// The value the subtract routine stores is the maximum of the left load
/// and the negated right load.
pub proof fn law_subtract_value(
    expressions: Seq<ExpressionModel>,
    left: int,
    right: int,
    e: int,
    l: int,
    unique_id: Seq<char>,
    ty: int,
    loaded: spec_fn(int) -> int,
)
    requires
        0 <= e,
        e + 7 <= expressions.len(),
        expressions.subrange(e, e + 7) == subtract_emitted(
            left,
            right,
            e,
            l,
            unique_id,
            ty,
        ).expressions,
    ensures
        expression_value(expressions, e + 5, loaded) == max_of(loaded(e), -loaded(e + 1)),
{
    let own = expressions.subrange(e, e + 7);
    reveal_with_fuel(expression_value, 4);
    assert(expressions[e + 2] == own[2]);
    assert(expressions[e + 3] == own[3]);
    assert(expressions[e + 4] == own[4]);
    assert(expressions[e + 5] == own[5]);
    assert(own[2] == ExpressionModel::Load { pointer: e });
    assert(own[3] == ExpressionModel::Load { pointer: e + 1 });
    assert(own[4] == ExpressionModel::Negate { expr: e + 3 });
    assert(own[5] == ExpressionModel::Max { left: e + 2, right: e + 4 });
}

/// Emits `max(load left, -(load right))` into `function` and stores it in
/// a fresh `i32` local variable.
pub fn compile_subtract(
    left: Register,
    right: Register,
    function: &mut naga::Function,
    register_map: &HashMap<u32, naga::Handle<naga::LocalVariable>>,
    unique_id: &str,
    i32_type: naga::Handle<naga::Type>,
) -> (result: RoutineResult)
    requires
        register_map@.contains_key(left.0),
        register_map@.contains_key(right.0),
        function_expressions(*old(function)).len() + 7 <= u32::MAX,
        function_locals(*old(function)).len() < u32::MAX,
    ensures
        emitted(
            *old(function),
            *final(function),
            subtract_emitted(
                local_index(register_map@[left.0]),
                local_index(register_map@[right.0]),
                function_expressions(*old(function)).len() as int,
                function_locals(*old(function)).len() as int,
                unique_id@,
                type_index(i32_type),
            ),
        ),
        result.argument_len == 0,
        local_index(result.variable) == function_locals(*old(function)).len(),
        function_clean(*old(function)) ==> function_clean(*final(function)),
{
    let ghost e = function_expressions(*function).len() as int;
    let ghost l = function_locals(*function).len() as int;
    let left_var = variable_of(register_map, left.0);
    let right_var = variable_of(register_map, right.0);

    let left_ptr = append_local_pointer(function, left_var);
    let right_ptr = append_local_pointer(function, right_var);
    let emit_start = expression_count(function);
    let left_expr = append_load(function, left_ptr);
    let right_expr = append_load(function, right_ptr);
    let neg_right = append_negate(function, right_expr);
    let subtract_expr = append_max(function, left_expr, neg_right);
    push_emit_from(function, emit_start);
    let ghost middle = *function;
    let ghost value = Emitted {
        expressions: seq![
            ExpressionModel::LocalVariable { variable: local_index(left_var) },
            ExpressionModel::LocalVariable { variable: local_index(right_var) },
            ExpressionModel::Load { pointer: e },
            ExpressionModel::Load { pointer: e + 1 },
            ExpressionModel::Negate { expr: e + 3 },
            ExpressionModel::Max { left: e + 2, right: e + 4 },
        ],
        statements: seq![StatementModel::Emit { start: e + 2, end: e + 6 }],
        locals: Seq::empty(),
    };
    proof {
        assert(function_expressions(middle) =~= function_expressions(*old(function))
            + value.expressions);
        assert(function_body(middle) =~= function_body(*old(function)) + value.statements);
        assert(function_locals(middle) =~= function_locals(*old(function)) + value.locals);
    }

    let name = local_name(unique_id, "__subtract_distance");
    let result_var = store_result(function, subtract_expr, name, i32_type);
    proof {
        let store = stored(e + 6, l, e + 5, unique_id@ + "__subtract_distance"@, type_index(i32_type));
        lemma_emitted_then(*old(function), middle, *function, value, store);
        if function_clean(*old(function)) {
            lemma_clean_kept(*old(function), *function, value.followed_by(store));
        }
    }
    RoutineResult { argument_len: 0, variable: result_var }
}

} // verus!
