//! Union: the minimum of several distances, as a balanced binary tree over
//! their loads.

use std::collections::HashMap;
use vstd::prelude::*;

use crate::shape::compiled::shader::ir::{
    function_expressions, function_locals, local_index, type_index,
};
use crate::shape::compiled::shader::routine::intersection::{
    compile_tree, input_locals, tree_emitted, Extreme,
};
use crate::shape::compiled::shader::routine::{emitted, function_clean, RoutineResult};
use crate::shape::instruction::Register;

verus! {

/// Emits the minimum of the values of `registers` into `function`, as a
/// balanced binary tree split at `len / 2`, left before right.
pub fn compile_union(
    registers: &Vec<Register>,
    function: &mut naga::Function,
    register_map: &HashMap<u32, naga::Handle<naga::LocalVariable>>,
    unique_id: &str,
    i32_type: naga::Handle<naga::Type>,
) -> (result: RoutineResult)
    requires
        registers@.len() > 0,
        forall|i: int|
            0 <= i < registers@.len() ==> register_map@.contains_key((#[trigger] registers@[i]).0),
        function_expressions(*old(function)).len() + 3 * registers@.len() <= u32::MAX,
        function_locals(*old(function)).len() < u32::MAX,
    ensures
        emitted(
            *old(function),
            *final(function),
            tree_emitted(
                input_locals(registers@, register_map@),
                Extreme::Min,
                function_expressions(*old(function)).len() as int,
                function_locals(*old(function)).len() as int,
                unique_id@,
                "__union_distance"@,
                type_index(i32_type),
            ),
        ),
        result.argument_len == 0,
        local_index(result.variable) == function_locals(*old(function)).len(),
        function_clean(*old(function)) ==> function_clean(*final(function)),
{
    compile_tree(
        registers,
        Extreme::Min,
        "__union_distance",
        function,
        register_map,
        unique_id,
        i32_type,
    )
}

} // verus!
