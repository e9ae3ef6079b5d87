//! Per-operator routines of the emitter.
//!
//! Every routine works in three phases. It first creates the pointer
//! expressions of the local variables it reads, outside any emit range. It
//! then creates the value expressions and closes them with an emit
//! statement that covers exactly them. Last it creates a fresh local
//! variable and stores the value in it.

use std::collections::HashMap;
use vstd::prelude::*;
use vstd::string::*;

use crate::shape::semantics::{abs_of, max_of, min_of};

use crate::shape::compiled::shader::ir::{
    append_local, append_local_pointer, expression_index, function_body, function_expressions,
    function_locals, local_index, push_store, type_index, ExpressionModel, LocalModel,
    StatementModel,
};

pub mod dilate;
pub mod edge;
pub mod intersection;
pub mod invert;
pub mod primitive;
pub mod subtract;
pub mod union;

verus! {

/// What a routine leaves behind: the local variable that holds the value of
/// the instruction's register, and how many argument handles the
/// instruction consumes from the argument buffer.
pub struct RoutineResult {
    pub argument_len: u8,
    pub variable: naga::Handle<naga::LocalVariable>,
}

/// What a piece of emitter code appends to a function.
pub struct Emitted {
    pub expressions: Seq<ExpressionModel>,
    pub statements: Seq<StatementModel>,
    pub locals: Seq<LocalModel>,
}

impl Emitted {
    /// This followed by `next`.
    pub open spec fn followed_by(self, next: Emitted) -> Emitted {
        Emitted {
            expressions: self.expressions + next.expressions,
            statements: self.statements + next.statements,
            locals: self.locals + next.locals,
        }
    }

    pub open spec fn nothing() -> Emitted {
        Emitted { expressions: Seq::empty(), statements: Seq::empty(), locals: Seq::empty() }
    }
}

/// Whether `after` is `before` with exactly `what` appended.
pub open spec fn emitted(before: naga::Function, after: naga::Function, what: Emitted) -> bool {
    &&& function_expressions(after) == function_expressions(before) + what.expressions
    &&& function_body(after) == function_body(before) + what.statements
    &&& function_locals(after) == function_locals(before) + what.locals
}

/// Whether the expressions `start..end` exist and none of them is a local
/// variable pointer or a call result.
pub open spec fn emit_range_clean(expressions: Seq<ExpressionModel>, start: int, end: int) -> bool {
    &&& 0 <= start <= end <= expressions.len()
    &&& forall|i: int|
        start <= i < end ==> !((#[trigger] expressions[i]) is LocalVariable) && !(expressions[i]
            is CallResult)
}

/// Whether every emit statement of `body` covers only value expressions:
/// no local variable pointer and no call result.
pub open spec fn emits_clean(expressions: Seq<ExpressionModel>, body: Seq<StatementModel>) -> bool {
    forall|k: int|
        0 <= k < body.len() ==> ((#[trigger] body[k]) matches StatementModel::Emit { start, end }
            ==> emit_range_clean(expressions, start, end))
}

/// Whether the function's emit statements cover only value expressions.
pub open spec fn function_clean(function: naga::Function) -> bool {
    emits_clean(function_expressions(function), function_body(function))
}

/// The value of expression `i`, where `loaded(p)` is what a load through the
/// pointer expression `p` yields. Expressions that are no arithmetic on
/// loads count as zero.
pub open spec fn expression_value(
    expressions: Seq<ExpressionModel>,
    i: int,
    loaded: spec_fn(int) -> int,
) -> int
    decreases i,
{
    if i < 0 || i >= expressions.len() {
        0
    } else {
        match expressions[i] {
            ExpressionModel::Load { pointer } => loaded(pointer),
            ExpressionModel::Negate { expr } => if 0 <= expr < i {
                -expression_value(expressions, expr, loaded)
            } else {
                0
            },
            ExpressionModel::Abs { arg } => if 0 <= arg < i {
                abs_of(expression_value(expressions, arg, loaded))
            } else {
                0
            },
            ExpressionModel::Min { left, right } => if 0 <= left < i && 0 <= right < i {
                min_of(
                    expression_value(expressions, left, loaded),
                    expression_value(expressions, right, loaded),
                )
            } else {
                0
            },
            ExpressionModel::Max { left, right } => if 0 <= left < i && 0 <= right < i {
                max_of(
                    expression_value(expressions, left, loaded),
                    expression_value(expressions, right, loaded),
                )
            } else {
                0
            },
            _ => 0,
        }
    }
}

/// Emitting in two steps emits the concatenation.
pub proof fn lemma_emitted_then(
    a: naga::Function,
    b: naga::Function,
    c: naga::Function,
    first: Emitted,
    second: Emitted,
)
    requires
        emitted(a, b, first),
        emitted(b, c, second),
    ensures
        emitted(a, c, first.followed_by(second)),
{
    let all = first.followed_by(second);
    assert(function_expressions(c) =~= function_expressions(a) + all.expressions);
    assert(function_body(c) =~= function_body(a) + all.statements);
    assert(function_locals(c) =~= function_locals(a) + all.locals);
}

/// Appending expressions, and statements whose emits are clean, keeps a
/// function clean.
pub proof fn lemma_clean_kept(before: naga::Function, after: naga::Function, what: Emitted)
    requires
        function_clean(before),
        emitted(before, after, what),
        emits_clean(function_expressions(after), what.statements),
    ensures
        function_clean(after),
{
    let old_expressions = function_expressions(before);
    let expressions = function_expressions(after);
    let old_body = function_body(before);
    let body = function_body(after);
    assert forall|k: int| 0 <= k < body.len() implies ((#[trigger] body[k]) matches StatementModel::Emit {
        start,
        end,
    } ==> emit_range_clean(expressions, start, end)) by {
        if k < old_body.len() {
            assert(body[k] == old_body[k]);
            if let StatementModel::Emit { start, end } = old_body[k] {
                assert(emit_range_clean(old_expressions, start, end));
                assert forall|i: int| start <= i < end implies !((#[trigger] expressions[i])
                    is LocalVariable) && !(expressions[i] is CallResult) by {
                    assert(expressions[i] == old_expressions[i]);
                }
            }
        } else {
            assert(body[k] == what.statements[k - old_body.len()]);
        }
    }
}

/// The name of the local variable that holds a routine's result.
pub fn local_name(unique_id: &str, suffix: &str) -> (name: String)
    ensures
        name@ == unique_id@ + suffix@,
{
    let mut name = String::from_str(unique_id);
    name.append(suffix);
    name
}

/// What the store phase appends to a function of `e` expressions and `l`
/// local variables: the variable, a pointer to it, and the store of
/// `value`.
pub open spec fn stored(e: int, l: int, value: int, name: Seq<char>, ty: int) -> Emitted {
    Emitted {
        expressions: seq![ExpressionModel::LocalVariable { variable: l }],
        statements: seq![StatementModel::Store { pointer: e, value }],
        locals: seq![LocalModel { name, ty }],
    }
}

/// The store phase: creates a fresh local variable of type `ty` named
/// `name` and stores `value` in it.
pub fn store_result(
    function: &mut naga::Function,
    value: naga::Handle<naga::Expression>,
    name: String,
    ty: naga::Handle<naga::Type>,
) -> (variable: naga::Handle<naga::LocalVariable>)
    requires
        function_expressions(*old(function)).len() < u32::MAX,
        function_locals(*old(function)).len() < u32::MAX,
    ensures
        emitted(
            *old(function),
            *final(function),
            stored(
                function_expressions(*old(function)).len() as int,
                function_locals(*old(function)).len() as int,
                expression_index(value),
                name@,
                type_index(ty),
            ),
        ),
        local_index(variable) == function_locals(*old(function)).len(),
{
    let ghost text = name@;
    let variable = append_local(function, name, ty);
    let pointer = append_local_pointer(function, variable);
    push_store(function, pointer, value);
    proof {
        let what = stored(
            function_expressions(*old(function)).len() as int,
            function_locals(*old(function)).len() as int,
            expression_index(value),
            text,
            type_index(ty),
        );
        assert(function_expressions(*function) =~= function_expressions(*old(function))
            + what.expressions);
        assert(function_body(*function) =~= function_body(*old(function)) + what.statements);
        assert(function_locals(*function) =~= function_locals(*old(function)) + what.locals);
    }
    variable
}

/// The local variable that holds `register`.
pub fn variable_of(register_map: &HashMap<u32, naga::Handle<naga::LocalVariable>>, register: u32) -> (variable:
    naga::Handle<naga::LocalVariable>)
    requires
        register_map@.contains_key(register),
    ensures
        variable == register_map@[register],
{
    broadcast use vstd::std_specs::hash::group_hash_axioms;

    let found = register_map.get(&register);
    *found.unwrap()
}

} // verus!
