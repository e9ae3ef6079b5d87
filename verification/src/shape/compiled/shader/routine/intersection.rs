//! Intersection: the maximum of several distances, as a balanced binary
//! tree over their loads.

use std::collections::HashMap;
use vstd::prelude::*;

use crate::shape::compiled::shader::ir::{
    append_load, append_local_pointer, append_max, append_min, expression_count,
    expression_index, expression_indices, function_body, function_expressions, function_locals,
    local_index, push_emit_from, type_index, ExpressionModel, StatementModel,
};
use crate::shape::compiled::shader::routine::{
    emitted, expression_value, function_clean, lemma_clean_kept, lemma_emitted_then, local_name, store_result,
    stored, variable_of, Emitted, RoutineResult,
};
use crate::shape::instruction::Register;
use crate::shape::semantics::{greatest, least, max_of, min_of};

verus! {

/// Which extreme a tree computes.
#[derive(Clone, Copy, Debug, PartialEq, Eq, Structural)]
pub enum Extreme {
    Min,
    Max,
}

/// The combination of the expressions `left` and `right`.
pub open spec fn combined(extreme: Extreme, left: int, right: int) -> ExpressionModel {
    match extreme {
        Extreme::Min => ExpressionModel::Min { left, right },
        Extreme::Max => ExpressionModel::Max { left, right },
    }
}

/// The expressions of the balanced tree over `pointers`, appended to an
/// arena of `base` expressions: a single load for one pointer; otherwise
/// the tree of the first half (of `len / 2` pointers), then the tree of the
/// rest, then their combination. The last expression is the root.
pub open spec fn tree_expressions(pointers: Seq<int>, base: int, extreme: Extreme) -> Seq<
    ExpressionModel,
>
    decreases pointers.len(),
{
    if pointers.len() == 0 {
        Seq::empty()
    } else if pointers.len() == 1 {
        seq![ExpressionModel::Load { pointer: pointers[0] }]
    } else {
        let mid = pointers.len() as int / 2;
        let left = tree_expressions(pointers.subrange(0, mid), base, extreme);
        let right = tree_expressions(
            pointers.subrange(mid, pointers.len() as int),
            base + left.len(),
            extreme,
        );
        (left + right).push(
            combined(extreme, base + left.len() - 1, base + left.len() + right.len() - 1),
        )
    }
}

/// A tree over `n >= 1` pointers has `2 * n - 1` expressions, none of them
/// a local variable pointer or a call result.
pub proof fn lemma_tree_shape(pointers: Seq<int>, base: int, extreme: Extreme)
    requires
        pointers.len() >= 1,
    ensures
        tree_expressions(pointers, base, extreme).len() == 2 * pointers.len() - 1,
        forall|i: int|
            0 <= i < tree_expressions(pointers, base, extreme).len() ==> !((
            #[trigger] tree_expressions(pointers, base, extreme)[i]) is LocalVariable)
                && !(tree_expressions(pointers, base, extreme)[i] is CallResult),
    decreases pointers.len(),
{
    if pointers.len() > 1 {
        let mid = pointers.len() as int / 2;
        let left = tree_expressions(pointers.subrange(0, mid), base, extreme);
        lemma_tree_shape(pointers.subrange(0, mid), base, extreme);
        lemma_tree_shape(pointers.subrange(mid, pointers.len() as int), base + left.len(), extreme);
    }
}

/// The extreme of `values` that a tree computes.
pub open spec fn extreme_of(extreme: Extreme, values: Seq<int>) -> int {
    match extreme {
        Extreme::Min => least(values),
        Extreme::Max => greatest(values),
    }
}

/// The extreme of two values.
pub open spec fn extreme_of_two(extreme: Extreme, a: int, b: int) -> int {
    match extreme {
        Extreme::Min => min_of(a, b),
        Extreme::Max => max_of(a, b),
    }
}

/// The extreme of a concatenation is the extreme of the extremes.
pub proof fn lemma_extreme_concat(extreme: Extreme, a: Seq<int>, b: Seq<int>)
    requires
        a.len() >= 1,
        b.len() >= 1,
    ensures
        extreme_of(extreme, a + b) == extreme_of_two(
            extreme,
            extreme_of(extreme, a),
            extreme_of(extreme, b),
        ),
    decreases b.len(),
{
    let all = a + b;
    assert(all.drop_last() =~= a + b.drop_last());
    assert(all.last() == b.last());
    if b.len() == 1 {
        assert(a + b.drop_last() =~= a);
    } else {
        lemma_extreme_concat(extreme, a, b.drop_last());
    }
}

/// The values that loads through `pointers` yield.
pub open spec fn loaded_values(pointers: Seq<int>, loaded: spec_fn(int) -> int) -> Seq<int> {
    Seq::new(pointers.len(), |k: int| loaded(pointers[k]))
}

/// The root of a balanced tree holds the extreme of all its loads: the
/// maximum for an intersection, the minimum for a union.
pub proof fn law_tree_value(
    expressions: Seq<ExpressionModel>,
    pointers: Seq<int>,
    base: int,
    extreme: Extreme,
    loaded: spec_fn(int) -> int,
)
    requires
        pointers.len() >= 1,
        0 <= base,
        base + 2 * pointers.len() - 1 <= expressions.len(),
        expressions.subrange(base, base + 2 * pointers.len() - 1) == tree_expressions(
            pointers,
            base,
            extreme,
        ),
    ensures
        expression_value(expressions, base + 2 * pointers.len() - 2, loaded) == extreme_of(
            extreme,
            loaded_values(pointers, loaded),
        ),
    decreases pointers.len(),
{
    let n = pointers.len() as int;
    let tree = tree_expressions(pointers, base, extreme);
    let values = loaded_values(pointers, loaded);
    if n == 1 {
        assert(expressions[base] == expressions.subrange(base, base + 1)[0]);
        assert(values[0] == loaded(pointers[0]));
    } else {
        let mid = n / 2;
        let head = pointers.subrange(0, mid);
        let rest = pointers.subrange(mid, n);
        let left = tree_expressions(head, base, extreme);
        lemma_tree_shape(head, base, extreme);
        let right = tree_expressions(rest, base + left.len(), extreme);
        lemma_tree_shape(rest, base + left.len(), extreme);
        let root = base + 2 * n - 2;
        assert(tree == (left + right).push(
            combined(extreme, base + left.len() - 1, base + left.len() + right.len() - 1),
        ));
        assert forall|j: int| 0 <= j < 2 * n - 1 implies expressions[base + j] == tree[j] by {
            assert(expressions.subrange(base, base + 2 * n - 1)[j] == tree[j]);
        }
        assert(expressions.subrange(base, base + 2 * mid - 1) =~= left) by {
            assert forall|j: int| 0 <= j < left.len() implies expressions[base + j] == left[j] by {
                assert(tree[j] == left[j]);
            }
        }
        let second = base + 2 * mid - 1;
        assert(expressions.subrange(second, second + 2 * (n - mid) - 1) =~= right) by {
            assert forall|j: int| 0 <= j < right.len() implies expressions[second + j]
                == right[j] by {
                assert(tree[left.len() + j] == right[j]);
            }
        }
        law_tree_value(expressions, head, base, extreme, loaded);
        law_tree_value(expressions, rest, second, extreme, loaded);
        assert(expressions[root] == tree[2 * n - 2]);
        assert(loaded_values(head, loaded) + loaded_values(rest, loaded) =~= values);
        lemma_extreme_concat(extreme, loaded_values(head, loaded), loaded_values(rest, loaded));
    }
}

/// Appends the balanced tree over `pointers[lo..hi]` and returns its root.
pub fn build_tree(
    function: &mut naga::Function,
    pointers: &Vec<naga::Handle<naga::Expression>>,
    lo: usize,
    hi: usize,
    extreme: Extreme,
) -> (root: naga::Handle<naga::Expression>)
    requires
        lo < hi <= pointers@.len(),
        function_expressions(*old(function)).len() + 2 * (hi - lo) - 1 <= u32::MAX,
    ensures
        function_expressions(*final(function)) == function_expressions(*old(function))
            + tree_expressions(
            expression_indices(pointers@).subrange(lo as int, hi as int),
            function_expressions(*old(function)).len() as int,
            extreme,
        ),
        function_body(*final(function)) == function_body(*old(function)),
        function_locals(*final(function)) == function_locals(*old(function)),
        expression_index(root) == function_expressions(*old(function)).len() + 2 * (hi - lo) - 2,
    decreases hi - lo,
{
    let ghost base = function_expressions(*function).len() as int;
    let ghost range = expression_indices(pointers@).subrange(lo as int, hi as int);
    if hi - lo == 1 {
        let root = append_load(function, pointers[lo]);
        proof {
            assert(range[0] == expression_index(pointers@[lo as int]));
            assert(function_expressions(*function) =~= function_expressions(*old(function))
                + tree_expressions(range, base, extreme));
        }
        root
    } else {
        let mid = lo + (hi - lo) / 2;
        proof {
            assert(range.subrange(0, (mid - lo) as int) =~= expression_indices(
                pointers@,
            ).subrange(lo as int, mid as int));
            assert(range.subrange((mid - lo) as int, range.len() as int) =~= expression_indices(
                pointers@,
            ).subrange(mid as int, hi as int));
            assert(range.len() as int / 2 == mid - lo);
            lemma_tree_shape(range.subrange(0, (mid - lo) as int), base, extreme);
            lemma_tree_shape(
                range.subrange((mid - lo) as int, range.len() as int),
                base + 2 * (mid - lo) - 1,
                extreme,
            );
        }
        let left = build_tree(function, pointers, lo, mid, extreme);
        let right = build_tree(function, pointers, mid, hi, extreme);
        let root = match extreme {
            Extreme::Min => append_min(function, left, right),
            Extreme::Max => append_max(function, left, right),
        };
        proof {
            assert(function_expressions(*function) =~= function_expressions(*old(function))
                + tree_expressions(range, base, extreme));
        }
        root
    }
}

/// The pointers to the local variables `inputs`, in order.
pub open spec fn input_pointers(inputs: Seq<int>) -> Seq<ExpressionModel> {
    Seq::new(inputs.len(), |i: int| ExpressionModel::LocalVariable { variable: inputs[i] })
}

/// The arena indices `base, base + 1, .., base + count - 1`.
pub open spec fn consecutive(base: int, count: nat) -> Seq<int> {
    Seq::new(count, |i: int| base + i)
}

/// The local variables that hold `registers`, by index.
pub open spec fn input_locals(
    registers: Seq<Register>,
    register_map: Map<u32, naga::Handle<naga::LocalVariable>>,
) -> Seq<int> {
    Seq::new(registers.len(), |i: int| local_index(register_map[registers[i].0]))
}

/// What a tree routine appends to a function of `e` expressions and `l`
/// local variables: one pointer per input variable; the balanced tree over
/// their loads, emitted; and the store of its root in a fresh variable
/// named after `unique_id` and `suffix`.
pub open spec fn tree_emitted(
    inputs: Seq<int>,
    extreme: Extreme,
    e: int,
    l: int,
    unique_id: Seq<char>,
    suffix: Seq<char>,
    ty: int,
) -> Emitted {
    let n = inputs.len() as int;
    Emitted {
        expressions: input_pointers(inputs) + tree_expressions(
            consecutive(e, inputs.len()),
            e + n,
            extreme,
        ),
        statements: seq![StatementModel::Emit { start: e + n, end: e + 3 * n - 1 }],
        locals: Seq::empty(),
    }.followed_by(stored(e + 3 * n - 1, l, e + 3 * n - 2, unique_id + suffix, ty))
}

/// Emits the balanced tree over the values of `registers` into `function`
/// and stores its root in a fresh `i32` local variable.
pub fn compile_tree(
    registers: &Vec<Register>,
    extreme: Extreme,
    suffix: &str,
    function: &mut naga::Function,
    register_map: &HashMap<u32, naga::Handle<naga::LocalVariable>>,
    unique_id: &str,
    i32_type: naga::Handle<naga::Type>,
) -> (result: RoutineResult)
    requires
        registers@.len() > 0,
        forall|i: int|
            0 <= i < registers@.len() ==> register_map@.contains_key((#[trigger] registers@[i]).0),
        function_expressions(*old(function)).len() + 3 * registers@.len() <= u32::MAX,
        function_locals(*old(function)).len() < u32::MAX,
    ensures
        emitted(
            *old(function),
            *final(function),
            tree_emitted(
                input_locals(registers@, register_map@),
                extreme,
                function_expressions(*old(function)).len() as int,
                function_locals(*old(function)).len() as int,
                unique_id@,
                suffix@,
                type_index(i32_type),
            ),
        ),
        result.argument_len == 0,
        local_index(result.variable) == function_locals(*old(function)).len(),
        function_clean(*old(function)) ==> function_clean(*final(function)),
{
    let ghost e = function_expressions(*function).len() as int;
    let ghost l = function_locals(*function).len() as int;
    let ghost inputs = input_locals(registers@, register_map@);
    let n = registers.len();

    let mut var_ptrs: Vec<naga::Handle<naga::Expression>> = Vec::new();
    let mut i: usize = 0;
    while i < n
        invariant
            i <= n,
            n == registers@.len(),
            e == function_expressions(*old(function)).len(),
            e + 3 * n <= u32::MAX,
            inputs == input_locals(registers@, register_map@),
            forall|k: int|
                0 <= k < registers@.len() ==> register_map@.contains_key(
                    (#[trigger] registers@[k]).0,
                ),
            function_expressions(*function) == function_expressions(*old(function))
                + input_pointers(inputs).subrange(0, i as int),
            function_body(*function) == function_body(*old(function)),
            function_locals(*function) == function_locals(*old(function)),
            var_ptrs@.len() == i,
            expression_indices(var_ptrs@) == consecutive(e, i as nat),
        decreases n - i,
    {
        let ghost before = var_ptrs@;
        let ghost count = function_expressions(*function).len();
        let var = variable_of(register_map, registers[i].0);
        let pointer = append_local_pointer(function, var);
        var_ptrs.push(pointer);
        i += 1;
        proof {
            assert(count == e + i - 1);
            assert(function_expressions(*function) =~= function_expressions(*old(function))
                + input_pointers(inputs).subrange(0, i as int));
            assert forall|k: int| 0 <= k < i implies expression_indices(var_ptrs@)[k] == e + k by {
                if k < i - 1 {
                    assert(var_ptrs@[k] == before[k]);
                    assert(expression_indices(before)[k] == consecutive(e, (i - 1) as nat)[k]);
                }
            }
            assert(expression_indices(var_ptrs@) =~= consecutive(e, i as nat));
        }
    }
    proof {
        assert(input_pointers(inputs).subrange(0, n as int) =~= input_pointers(inputs));
        assert(expression_indices(var_ptrs@).subrange(0, n as int) =~= expression_indices(
            var_ptrs@,
        ));
        lemma_tree_shape(consecutive(e, n as nat), e + n, extreme);
    }

    let emit_start = expression_count(function);
    let root = build_tree(function, &var_ptrs, 0, n, extreme);
    push_emit_from(function, emit_start);
    let ghost middle = *function;
    let ghost value = Emitted {
        expressions: input_pointers(inputs) + tree_expressions(
            consecutive(e, n as nat),
            e + n,
            extreme,
        ),
        statements: seq![StatementModel::Emit { start: e + n, end: e + 3 * n - 1 }],
        locals: Seq::empty(),
    };
    proof {
        assert(function_expressions(middle) =~= function_expressions(*old(function))
            + value.expressions);
        assert(function_body(middle) =~= function_body(*old(function)) + value.statements);
        assert(function_locals(middle) =~= function_locals(*old(function)) + value.locals);
    }

    let name = local_name(unique_id, suffix);
    let result_var = store_result(function, root, name, i32_type);
    proof {
        let store = stored(e + 3 * n - 1, l, e + 3 * n - 2, unique_id@ + suffix@, type_index(i32_type));
        lemma_emitted_then(*old(function), middle, *function, value, store);
        if function_clean(*old(function)) {
            let tree = tree_expressions(consecutive(e, n as nat), e + n, extreme);
            let expressions = function_expressions(*function);
            assert forall|k: int| e + n <= k < e + 3 * n - 1 implies !((#[trigger] expressions[k])
                is LocalVariable) && !(expressions[k] is CallResult) by {
                assert(expressions[k] == tree[k - e - n]);
            }
            lemma_clean_kept(*old(function), *function, value.followed_by(store));
        }
    }
    RoutineResult { argument_len: 0, variable: result_var }
}

/// Emits the maximum of the values of `registers` into `function`, as a
/// balanced binary tree split at `len / 2`, left before right.
pub fn compile_intersection(
    registers: &Vec<Register>,
    function: &mut naga::Function,
    register_map: &HashMap<u32, naga::Handle<naga::LocalVariable>>,
    unique_id: &str,
    i32_type: naga::Handle<naga::Type>,
) -> (result: RoutineResult)
    requires
        registers@.len() > 0,
        forall|i: int|
            0 <= i < registers@.len() ==> register_map@.contains_key((#[trigger] registers@[i]).0),
        function_expressions(*old(function)).len() + 3 * registers@.len() <= u32::MAX,
        function_locals(*old(function)).len() < u32::MAX,
    ensures
        emitted(
            *old(function),
            *final(function),
            tree_emitted(
                input_locals(registers@, register_map@),
                Extreme::Max,
                function_expressions(*old(function)).len() as int,
                function_locals(*old(function)).len() as int,
                unique_id@,
                "__intersection_distance"@,
                type_index(i32_type),
            ),
        ),
        result.argument_len == 0,
        local_index(result.variable) == function_locals(*old(function)).len(),
        function_clean(*old(function)) ==> function_clean(*final(function)),
{
    compile_tree(
        registers,
        Extreme::Max,
        "__intersection_distance",
        function,
        register_map,
        unique_id,
        i32_type,
    )
}

} // verus!
