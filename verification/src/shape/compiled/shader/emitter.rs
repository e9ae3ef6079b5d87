//! The routine emitter: lowers an instruction stream into the body of the
//! shader function `evaluate_sdf(sample, idx_ptr) -> i32`, one routine per
//! instruction, in stream order.

use std::collections::HashMap;
use vstd::prelude::*;
use vstd::string::*;

use crate::search::{first_match, lemma_first_match_is};
use crate::text::{decimal, decimal_text};
use crate::shape::compiled::shader::ir::{
    append_load, append_local_pointer, expression_count, fetch_function, function_body,
    function_expressions, function_index, function_locals, is_name, local_count, local_index,
    module_function_names, module_scalar_types, push_emit_from, push_return, scalar_types,
    type_index, ExpressionModel, ScalarKindModel, ScalarModel, StatementModel,
};
use crate::shape::compiled::shader::routine::dilate::{compile_dilate, dilate_emitted};
use crate::shape::compiled::shader::routine::edge::{compile_edge, edge_emitted};
use crate::shape::compiled::shader::routine::intersection::{
    compile_intersection, consecutive, input_locals, lemma_tree_shape, tree_emitted,
    tree_expressions, Extreme,
};
use crate::shape::compiled::shader::routine::invert::{compile_invert, invert_emitted};
use crate::shape::compiled::shader::routine::primitive::{
    boundary_emitted, compile_boundary, compile_primitive, policy_selector, primitive_emitted,
};
use crate::shape::compiled::shader::routine::subtract::{compile_subtract, subtract_emitted};
use crate::shape::compiled::shader::routine::union::compile_union;
use crate::shape::compiled::shader::routine::{
    emit_range_clean, emits_clean, emitted, function_clean, lemma_clean_kept,
    lemma_emitted_then, variable_of, Emitted, RoutineResult,
};
use crate::shape::instruction::{stream_wf, Register, SdfInstruction};

verus! {

/// The shader functions of the composed module that routines call.
pub struct OperatorFunctions {
    pub point: naga::Handle<naga::Function>,
    pub point_cloud: naga::Handle<naga::Function>,
    pub geodesic: naga::Handle<naga::Function>,
    pub vdg: naga::Handle<naga::Function>,
    pub contour_texture: naga::Handle<naga::Function>,
    pub dilate: naga::Handle<naga::Function>,
    pub boundary: naga::Handle<naga::Function>,
}

/// Whether `module` has a function of each name the routines call.
pub open spec fn has_operators(module: naga::Module) -> bool {
    let names = module_function_names(module);
    &&& first_match(names, is_name("point"@)) < names.len()
    &&& first_match(names, is_name("point_cloud"@)) < names.len()
    &&& first_match(names, is_name("geodesic"@)) < names.len()
    &&& first_match(names, is_name("vdg"@)) < names.len()
    &&& first_match(names, is_name("contour_texture"@)) < names.len()
    &&& first_match(names, is_name("dilate"@)) < names.len()
    &&& first_match(names, is_name("boundary"@)) < names.len()
}

impl OperatorFunctions {
    /// Whether each handle is that of the first function of its name in
    /// `module`.
    pub open spec fn found_in(&self, module: naga::Module) -> bool {
        let names = module_function_names(module);
        &&& function_index(self.point) == first_match(names, is_name("point"@))
        &&& function_index(self.point_cloud) == first_match(names, is_name("point_cloud"@))
        &&& function_index(self.geodesic) == first_match(names, is_name("geodesic"@))
        &&& function_index(self.vdg) == first_match(names, is_name("vdg"@))
        &&& function_index(self.contour_texture) == first_match(
            names,
            is_name("contour_texture"@),
        )
        &&& function_index(self.dilate) == first_match(names, is_name("dilate"@))
        &&& function_index(self.boundary) == first_match(names, is_name("boundary"@))
    }

    /// Looks up the shader functions the routines call, each by its name.
    /// Fails exactly when the module lacks one of them.
    pub fn find(module: &naga::Module) -> (found: Option<Self>)
        ensures
            match found {
                Some(operators) => has_operators(*module) && operators.found_in(*module),
                None => !has_operators(*module),
            },
    {
        let point = fetch_function(module, "point");
        let point_cloud = fetch_function(module, "point_cloud");
        let geodesic = fetch_function(module, "geodesic");
        let vdg = fetch_function(module, "vdg");
        let contour_texture = fetch_function(module, "contour_texture");
        let dilate = fetch_function(module, "dilate");
        let boundary = fetch_function(module, "boundary");
        match (point, point_cloud, geodesic, vdg, contour_texture, dilate, boundary) {
            (
                Some(point),
                Some(point_cloud),
                Some(geodesic),
                Some(vdg),
                Some(contour_texture),
                Some(dilate),
                Some(boundary),
            ) => Some(
                OperatorFunctions {
                    point,
                    point_cloud,
                    geodesic,
                    vdg,
                    contour_texture,
                    dilate,
                    boundary,
                },
            ),
            _ => None,
        }
    }
}

/// Whether a type is the 32-bit signed integer.
pub open spec fn is_i32() -> spec_fn(Option<ScalarModel>) -> bool {
    |scalar: Option<ScalarModel>|
        scalar == Some(ScalarModel { kind: ScalarKindModel::Sint, width: 4 })
}

/// The arena index of the first type of `module` that is the 32-bit signed
/// integer, or the number of its types if none is.
pub open spec fn i32_type_of(module: naga::Module) -> int {
    first_match(module_scalar_types(module), is_i32())
}

/// The type of every register's local variable: the first type of the
/// module that is the 32-bit signed integer, whatever its name. Fails
/// exactly when the module has no such type.
pub fn find_i32_type(module: &naga::Module) -> (found: Option<naga::Handle<naga::Type>>)
    ensures
        match found {
            Some(handle) => type_index(handle) == i32_type_of(*module) && i32_type_of(*module)
                < module_scalar_types(*module).len(),
            None => i32_type_of(*module) == module_scalar_types(*module).len(),
        },
{
    let entries = scalar_types(module);
    let ghost types = module_scalar_types(*module);
    let mut i: usize = 0;
    while i < entries.len()
        invariant
            i <= entries.len(),
            types == module_scalar_types(*module),
            entries@.len() == types.len(),
            forall|k: int|
                0 <= k < entries@.len() ==> type_index((#[trigger] entries@[k]).0) == k
                    && entries@[k].1 == types[k],
            forall|k: int| 0 <= k < i ==> !is_i32()(#[trigger] types[k]),
        decreases entries.len() - i,
    {
        let (handle, scalar) = entries[i];
        let found = match scalar {
            Some(scalar) => scalar.kind == ScalarKindModel::Sint && scalar.width == 4,
            None => false,
        };
        if found {
            proof {
                assert(entries@[i as int].1 == types[i as int]);
                lemma_first_match_is(types, is_i32(), i as int);
            }
            return Some(handle);
        }
        i += 1;
    }
    proof {
        lemma_first_match_is(types, is_i32(), i as int);
    }
    None
}

/// The prefix of the names of all local variables of instruction `index`.
pub open spec fn unique_id_of(index: nat) -> Seq<char> {
    "r"@ + decimal_text(index)
}

/// Computes [`unique_id_of`].
pub fn unique_id(index: usize) -> (id: String)
    ensures
        id@ == unique_id_of(index as nat),
{
    let mut id = String::from_str("r");
    let digits = decimal(index);
    id.append(digits.as_str());
    id
}

/// Whether `register_map` maps register `k` to the local variable of index
/// `l0 + k`.
pub open spec fn holds_register(
    register_map: Map<u32, naga::Handle<naga::LocalVariable>>,
    k: u32,
    l0: int,
) -> bool {
    register_map.contains_key(k) && local_index(register_map[k]) == l0 + k
}

/// How many argument handles an instruction consumes from the argument
/// buffer: one per primitive, two for a contour texture (header and
/// texels), one for the amount of a dilation, none otherwise.
pub open spec fn argument_len_of(instruction: SdfInstruction) -> u8 {
    match instruction {
        SdfInstruction::Point { .. } => 1,
        SdfInstruction::PointCloud { .. } => 1,
        SdfInstruction::Geodesic { .. } => 1,
        SdfInstruction::LoadVdg { .. } => 1,
        SdfInstruction::ContourTexture { .. } => 2,
        SdfInstruction::Dilate { .. } => 1,
        _ => 0,
    }
}

/// The indices of the local variables of `registers`, where the variable of
/// register `k` has index `l0 + k`.
pub open spec fn locals_of(registers: Seq<Register>, l0: int) -> Seq<int> {
    Seq::new(registers.len(), |i: int| l0 + registers[i].0)
}

/// What the routine of `instruction` appends to a function of `e`
/// expressions and `l` local variables, where the variable of register `k`
/// has index `l0 + k`.
pub open spec fn instruction_emitted(
    instruction: SdfInstruction,
    operators: OperatorFunctions,
    e: int,
    l: int,
    l0: int,
    id: Seq<char>,
    ty: int,
) -> Emitted {
    match instruction {
        SdfInstruction::Point { .. } => primitive_emitted(
            function_index(operators.point),
            e,
            l,
            id,
            "__point_distance"@,
            ty,
        ),
        SdfInstruction::PointCloud { .. } => primitive_emitted(
            function_index(operators.point_cloud),
            e,
            l,
            id,
            "__point_cloud_distance"@,
            ty,
        ),
        SdfInstruction::Geodesic { .. } => primitive_emitted(
            function_index(operators.geodesic),
            e,
            l,
            id,
            "__geodesic_distance"@,
            ty,
        ),
        SdfInstruction::LoadVdg { .. } => primitive_emitted(
            function_index(operators.vdg),
            e,
            l,
            id,
            "__vdg_distance"@,
            ty,
        ),
        SdfInstruction::ContourTexture { .. } => primitive_emitted(
            function_index(operators.contour_texture),
            e,
            l,
            id,
            "__contour_texture_distance"@,
            ty,
        ),
        SdfInstruction::Edge { input, .. } => edge_emitted(l0 + input.0, e, l, id, ty),
        SdfInstruction::Invert { input, .. } => invert_emitted(l0 + input.0, e, l, id, ty),
        SdfInstruction::Dilate { input, .. } => dilate_emitted(
            l0 + input.0,
            function_index(operators.dilate),
            e,
            l,
            id,
            ty,
        ),
        SdfInstruction::Union { shapes, .. } => tree_emitted(
            locals_of(shapes@, l0),
            Extreme::Min,
            e,
            l,
            id,
            "__union_distance"@,
            ty,
        ),
        SdfInstruction::Intersection { shapes, .. } => tree_emitted(
            locals_of(shapes@, l0),
            Extreme::Max,
            e,
            l,
            id,
            "__intersection_distance"@,
            ty,
        ),
        SdfInstruction::Subtract { left, right, .. } => subtract_emitted(
            l0 + left.0,
            l0 + right.0,
            e,
            l,
            id,
            ty,
        ),
        SdfInstruction::Boundary { inside, outside, resolution, .. } => boundary_emitted(
            l0 + inside.0,
            l0 + outside.0,
            policy_selector(resolution),
            function_index(operators.boundary),
            e,
            l,
            id,
            ty,
        ),
    }
}

/// What the routines of all of `stream` append, in order, to a function of
/// `e0` expressions and `l0` local variables.
pub open spec fn stream_emitted(
    stream: Seq<SdfInstruction>,
    operators: OperatorFunctions,
    e0: int,
    l0: int,
    ty: int,
) -> Emitted
    decreases stream.len(),
{
    if stream.len() == 0 {
        Emitted::nothing()
    } else {
        let before = stream_emitted(stream.drop_last(), operators, e0, l0, ty);
        before.followed_by(
            instruction_emitted(
                stream.last(),
                operators,
                e0 + before.expressions.len(),
                l0 + before.locals.len(),
                l0,
                unique_id_of((stream.len() - 1) as nat),
                ty,
            ),
        )
    }
}

/// What returning the value of the local variable `variable` appends to a
/// function of `e` expressions: a pointer to the variable, its load,
/// emitted, and the return of the load.
pub open spec fn return_emitted(variable: int, e: int) -> Emitted {
    Emitted {
        expressions: seq![
            ExpressionModel::LocalVariable { variable },
            ExpressionModel::Load { pointer: e },
        ],
        statements: seq![
            StatementModel::Emit { start: e + 1, end: e + 2 },
            StatementModel::Return { value: e + 1 },
        ],
        locals: Seq::empty(),
    }
}

/// The number of expressions the routine of `instruction` appends.
pub open spec fn expression_count_of(instruction: SdfInstruction) -> nat {
    match instruction {
        SdfInstruction::Edge { .. } => 4,
        SdfInstruction::Invert { .. } => 4,
        SdfInstruction::Dilate { .. } => 6,
        SdfInstruction::Subtract { .. } => 7,
        SdfInstruction::Boundary { .. } => 9,
        SdfInstruction::Union { shapes, .. } => 3 * shapes@.len(),
        SdfInstruction::Intersection { shapes, .. } => 3 * shapes@.len(),
        _ => 4,
    }
}

/// The number of expressions the routines of all of `stream` append.
pub open spec fn stream_expression_count(stream: Seq<SdfInstruction>) -> nat
    decreases stream.len(),
{
    if stream.len() == 0 {
        0
    } else {
        stream_expression_count(stream.drop_last()) + expression_count_of(stream.last())
    }
}

/// A prefix and the instruction after it append no more than the whole
/// stream.
proof fn lemma_count_prefix(stream: Seq<SdfInstruction>, i: int)
    requires
        0 <= i < stream.len(),
    ensures
        stream_expression_count(stream.subrange(0, i)) + expression_count_of(stream[i])
            <= stream_expression_count(stream),
    decreases stream.len(),
{
    if i == stream.len() - 1 {
        assert(stream.subrange(0, i) =~= stream.drop_last());
    } else {
        lemma_count_prefix(stream.drop_last(), i);
        assert(stream.drop_last().subrange(0, i) =~= stream.subrange(0, i));
    }
}

/// Emits the routine of `instruction`, the instruction of position `index`
/// of its stream, into `function`.
fn emit_instruction(
    instruction: &SdfInstruction,
    index: usize,
    function: &mut naga::Function,
    register_map: &HashMap<u32, naga::Handle<naga::LocalVariable>>,
    operators: &OperatorFunctions,
    i32_type: naga::Handle<naga::Type>,
    Ghost(l0): Ghost<int>,
) -> (result: RoutineResult)
    requires
        instruction.wf_at(index as int),
        forall|k: u32| k < index ==> #[trigger] holds_register(register_map@, k, l0),
        function_expressions(*old(function)).len() + expression_count_of(*instruction) <= u32::MAX,
        function_locals(*old(function)).len() < u32::MAX,
    ensures
        emitted(
            *old(function),
            *final(function),
            instruction_emitted(
                *instruction,
                *operators,
                function_expressions(*old(function)).len() as int,
                function_locals(*old(function)).len() as int,
                l0,
                unique_id_of(index as nat),
                type_index(i32_type),
            ),
        ),
        instruction_emitted(
            *instruction,
            *operators,
            function_expressions(*old(function)).len() as int,
            function_locals(*old(function)).len() as int,
            l0,
            unique_id_of(index as nat),
            type_index(i32_type),
        ).locals.len() == 1,
        result.argument_len == argument_len_of(*instruction),
        local_index(result.variable) == function_locals(*old(function)).len(),
        function_clean(*old(function)) ==> function_clean(*final(function)),
{
    let id = unique_id(index);
    let id = id.as_str();
    match instruction {
        SdfInstruction::Point { .. } => compile_primitive(
            operators.point,
            1,
            "__point_distance",
            function,
            id,
            i32_type,
        ),
        SdfInstruction::PointCloud { .. } => compile_primitive(
            operators.point_cloud,
            1,
            "__point_cloud_distance",
            function,
            id,
            i32_type,
        ),
        SdfInstruction::Geodesic { .. } => compile_primitive(
            operators.geodesic,
            1,
            "__geodesic_distance",
            function,
            id,
            i32_type,
        ),
        SdfInstruction::LoadVdg { .. } => compile_primitive(
            operators.vdg,
            1,
            "__vdg_distance",
            function,
            id,
            i32_type,
        ),
        SdfInstruction::ContourTexture { .. } => compile_primitive(
            operators.contour_texture,
            2,
            "__contour_texture_distance",
            function,
            id,
            i32_type,
        ),
        SdfInstruction::Edge { input, .. } => {
            assert(instruction.inputs()[0] == *input);
            assert(holds_register(register_map@, input.0, l0));
            compile_edge(*input, function, register_map, id, i32_type)
        },
        SdfInstruction::Invert { input, .. } => {
            assert(instruction.inputs()[0] == *input);
            assert(holds_register(register_map@, input.0, l0));
            compile_invert(*input, function, register_map, id, i32_type)
        },
        SdfInstruction::Dilate { input, .. } => {
            assert(instruction.inputs()[0] == *input);
            assert(holds_register(register_map@, input.0, l0));
            compile_dilate(*input, function, register_map, id, i32_type, operators.dilate)
        },
        SdfInstruction::Union { shapes, .. } => {
            proof {
                assert forall|i: int| 0 <= i < shapes@.len() implies register_map@.contains_key(
                    (#[trigger] shapes@[i]).0,
                ) && local_index(register_map@[shapes@[i].0]) == l0 + shapes@[i].0 by {
                    assert(instruction.inputs()[i] == shapes@[i]);
                    assert(holds_register(register_map@, shapes@[i].0, l0));
                }
                assert(input_locals(shapes@, register_map@) =~= locals_of(shapes@, l0));
            }
            compile_union(shapes, function, register_map, id, i32_type)
        },
        SdfInstruction::Intersection { shapes, .. } => {
            proof {
                assert forall|i: int| 0 <= i < shapes@.len() implies register_map@.contains_key(
                    (#[trigger] shapes@[i]).0,
                ) && local_index(register_map@[shapes@[i].0]) == l0 + shapes@[i].0 by {
                    assert(instruction.inputs()[i] == shapes@[i]);
                    assert(holds_register(register_map@, shapes@[i].0, l0));
                }
                assert(input_locals(shapes@, register_map@) =~= locals_of(shapes@, l0));
            }
            compile_intersection(shapes, function, register_map, id, i32_type)
        },
        SdfInstruction::Subtract { left, right, .. } => {
            assert(instruction.inputs()[0] == *left);
            assert(instruction.inputs()[1] == *right);
            assert(holds_register(register_map@, left.0, l0));
            assert(holds_register(register_map@, right.0, l0));
            compile_subtract(*left, *right, function, register_map, id, i32_type)
        },
        SdfInstruction::Boundary { inside, outside, resolution, .. } => {
            assert(instruction.inputs()[0] == *inside);
            assert(instruction.inputs()[1] == *outside);
            assert(holds_register(register_map@, inside.0, l0));
            assert(holds_register(register_map@, outside.0, l0));
            compile_boundary(
                *inside,
                *outside,
                *resolution,
                operators.boundary,
                function,
                register_map,
                id,
                i32_type,
            )
        },
    }
}

/// Whether the arenas of `function` have room for what the emitter appends
/// for `stream`: naga's handles are 32 bits wide.
pub open spec fn evaluate_sdf_fits(function: naga::Function, stream: Seq<SdfInstruction>) -> bool {
    &&& function_expressions(function).len() + stream_expression_count(stream) + 2 <= u32::MAX
    &&& function_locals(function).len() + stream.len() <= u32::MAX
}

/// Whether `after` is `before` with the body of `evaluate_sdf` for `stream`
/// appended: the routine of every instruction, in order, then the return of
/// the value of `result`; and `routines` tells, per instruction, the local
/// variable that holds its register and the number of argument handles it
/// consumes. No emit statement among what was appended covers a local
/// variable pointer or a call result.
pub open spec fn evaluate_sdf_emitted(
    before: naga::Function,
    after: naga::Function,
    stream: Seq<SdfInstruction>,
    result: Register,
    operators: OperatorFunctions,
    ty: int,
    routines: Seq<RoutineResult>,
) -> bool {
    let e0 = function_expressions(before).len() as int;
    let l0 = function_locals(before).len() as int;
    let body = stream_emitted(stream, operators, e0, l0, ty);
    &&& emitted(
        before,
        after,
        body.followed_by(return_emitted(l0 + result.0, e0 + body.expressions.len())),
    )
    &&& routines.len() == stream.len()
    &&& forall|k: int|
        0 <= k < routines.len() ==> (#[trigger] routines[k]).argument_len == argument_len_of(
            stream[k],
        ) && local_index(routines[k].variable) == l0 + k
    &&& function_clean(before) ==> function_clean(after)
    &&& emits_clean(
        function_expressions(after),
        function_body(after).subrange(
            function_body(before).len() as int,
            function_body(after).len() as int,
        ),
    )
}

/// The number of expressions the routine of `instruction` appends, if it
/// is at most `limit`.
fn count_of(instruction: &SdfInstruction, limit: usize) -> (count: Option<usize>)
    requires
        limit >= 9,
    ensures
        match count {
            Some(count) => count == expression_count_of(*instruction) && count <= limit,
            None => expression_count_of(*instruction) > limit,
        },
{
    match instruction {
        SdfInstruction::Edge { .. } => Some(4),
        SdfInstruction::Invert { .. } => Some(4),
        SdfInstruction::Dilate { .. } => Some(6),
        SdfInstruction::Subtract { .. } => Some(7),
        SdfInstruction::Boundary { .. } => Some(9),
        SdfInstruction::Union { shapes, .. } => {
            if shapes.len() > limit / 3 {
                None
            } else {
                Some(3 * shapes.len())
            }
        },
        SdfInstruction::Intersection { shapes, .. } => {
            if shapes.len() > limit / 3 {
                None
            } else {
                Some(3 * shapes.len())
            }
        },
        _ => Some(4),
    }
}

/// The number of expressions the routines of all of `instructions` append,
/// if it is at most `limit`.
fn count_expressions(instructions: &Vec<SdfInstruction>, limit: usize) -> (count: Option<usize>)
    requires
        limit >= 9,
    ensures
        match count {
            Some(count) => count == stream_expression_count(instructions@) && count <= limit,
            None => stream_expression_count(instructions@) > limit,
        },
{
    let mut total: usize = 0;
    let mut i: usize = 0;
    assert(instructions@.subrange(0, 0) =~= Seq::<SdfInstruction>::empty());
    while i < instructions.len()
        invariant
            i <= instructions.len(),
            limit >= 9,
            total == stream_expression_count(instructions@.subrange(0, i as int)),
            total <= limit,
        decreases instructions.len() - i,
    {
        proof {
            lemma_count_prefix(instructions@, i as int);
            let next = instructions@.subrange(0, i + 1);
            assert(next.drop_last() =~= instructions@.subrange(0, i as int));
            assert(next.last() == instructions@[i as int]);
        }
        match count_of(&instructions[i], limit) {
            Some(count) => {
                if count > limit - total {
                    return None;
                }
                total = total + count;
            },
            None => {
                return None;
            },
        }
        i += 1;
    }
    assert(instructions@.subrange(0, instructions@.len() as int) =~= instructions@);
    Some(total)
}

/// Emits the body of `evaluate_sdf` as [`emit_evaluate_sdf`] does, if the
/// arenas of `function` have room for it; else leaves `function` as it is.
pub fn try_emit_evaluate_sdf(
    instructions: &Vec<SdfInstruction>,
    result: Register,
    function: &mut naga::Function,
    operators: &OperatorFunctions,
    i32_type: naga::Handle<naga::Type>,
) -> (routines: Option<Vec<RoutineResult>>)
    requires
        stream_wf(instructions@),
        result.0 < instructions@.len(),
    ensures
        match routines {
            Some(routines) => {
                &&& evaluate_sdf_fits(*old(function), instructions@)
                &&& evaluate_sdf_emitted(
                    *old(function),
                    *final(function),
                    instructions@,
                    result,
                    *operators,
                    type_index(i32_type),
                    routines@,
                )
            },
            None => {
                &&& !evaluate_sdf_fits(*old(function), instructions@)
                &&& *final(function) == *old(function)
            },
        },
{
    let expressions = expression_count(function);
    let locals = local_count(function);
    if expressions > 0xffff_fffd || locals > 0xffff_ffff || instructions.len() > 0xffff_ffff
        - locals {
        return None;
    }
    match count_expressions(instructions, 0xffff_fffd) {
        Some(count) => {
            if count > 0xffff_fffd - expressions {
                return None;
            }
        },
        None => {
            return None;
        },
    }
    Some(emit_evaluate_sdf(instructions, result, function, operators, i32_type))
}

/// Emits the body of `evaluate_sdf` into `function`: the routine of every
/// instruction of `instructions`, in order, then the return of the value of
/// `result`. Returns, per instruction, the local variable that holds its
/// register and the number of argument handles it consumes.
///
/// No emit statement the emitter adds covers a local variable pointer or a
/// call result.
pub fn emit_evaluate_sdf(
    instructions: &Vec<SdfInstruction>,
    result: Register,
    function: &mut naga::Function,
    operators: &OperatorFunctions,
    i32_type: naga::Handle<naga::Type>,
) -> (routines: Vec<RoutineResult>)
    requires
        stream_wf(instructions@),
        result.0 < instructions@.len(),
        evaluate_sdf_fits(*old(function), instructions@),
    ensures
        evaluate_sdf_emitted(
            *old(function),
            *final(function),
            instructions@,
            result,
            *operators,
            type_index(i32_type),
            routines@,
        ),
{
    broadcast use vstd::std_specs::hash::group_hash_axioms;

    let ghost e0 = function_expressions(*function).len() as int;
    let ghost l0 = function_locals(*function).len() as int;
    let ghost ty = type_index(i32_type);
    let mut register_map: HashMap<u32, naga::Handle<naga::LocalVariable>> = HashMap::new();
    let mut routines: Vec<RoutineResult> = Vec::new();
    let n = instructions.len();
    let mut i: usize = 0;
    proof {
        assert(instructions@.subrange(0, 0) =~= Seq::<SdfInstruction>::empty());
        let nothing = stream_emitted(instructions@.subrange(0, 0), *operators, e0, l0, ty);
        assert(function_expressions(*function) =~= function_expressions(*old(function))
            + nothing.expressions);
        assert(function_body(*function) =~= function_body(*old(function)) + nothing.statements);
        assert(function_locals(*function) =~= function_locals(*old(function)) + nothing.locals);
    }
    while i < n
        invariant
            i <= n,
            n == instructions@.len(),
            stream_wf(instructions@),
            e0 == function_expressions(*old(function)).len(),
            l0 == function_locals(*old(function)).len(),
            ty == type_index(i32_type),
            e0 + stream_expression_count(instructions@) + 2 <= u32::MAX,
            l0 + n <= u32::MAX,
            emitted(
                *old(function),
                *function,
                stream_emitted(instructions@.subrange(0, i as int), *operators, e0, l0, ty),
            ),
            stream_emitted(
                instructions@.subrange(0, i as int),
                *operators,
                e0,
                l0,
                ty,
            ).expressions.len() == stream_expression_count(instructions@.subrange(0, i as int)),
            stream_emitted(instructions@.subrange(0, i as int), *operators, e0, l0, ty).locals.len()
                == i,
            forall|k: u32| k < i ==> #[trigger] holds_register(register_map@, k, l0),
            routines@.len() == i,
            forall|k: int|
                0 <= k < i ==> (#[trigger] routines@[k]).argument_len == argument_len_of(
                    instructions@[k],
                ) && local_index(routines@[k].variable) == l0 + k,
            function_clean(*old(function)) ==> function_clean(*function),
        decreases n - i,
    {
        let ghost before = *function;
        let ghost done = stream_emitted(instructions@.subrange(0, i as int), *operators, e0, l0, ty);
        proof {
            lemma_count_prefix(instructions@, i as int);
            assert(instructions@[i as int].wf_at(i as int));
        }
        let routine = emit_instruction(
            &instructions[i],
            i,
            function,
            &register_map,
            operators,
            i32_type,
            Ghost(l0),
        );
        let ghost old_map = register_map@;
        register_map.insert(i as u32, routine.variable);
        proof {
            assert forall|k: u32| k < i + 1 implies #[trigger] holds_register(
                register_map@,
                k,
                l0,
            ) by {
                if k < i {
                    assert(holds_register(old_map, k, l0));
                }
            }
            let next = instructions@.subrange(0, i + 1);
            assert(next.drop_last() =~= instructions@.subrange(0, i as int));
            assert(next.last() == instructions@[i as int]);
            let step = instruction_emitted(
                instructions@[i as int],
                *operators,
                e0 + done.expressions.len(),
                l0 + done.locals.len(),
                l0,
                unique_id_of(i as nat),
                ty,
            );
            lemma_emitted_then(*old(function), before, *function, done, step);
            lemma_step_size(
                instructions@[i as int],
                i as int,
                *operators,
                e0 + done.expressions.len(),
                l0 + done.locals.len(),
                l0,
                unique_id_of(i as nat),
                ty,
            );
        }
        routines.push(routine);
        i += 1;
    }
    proof {
        assert(instructions@.subrange(0, n as int) =~= instructions@);
    }
    let ghost middle = *function;
    let ghost body = stream_emitted(instructions@, *operators, e0, l0, ty);
    assert(holds_register(register_map@, result.0, l0));
    let variable = variable_of(&register_map, result.0);
    let pointer = append_local_pointer(function, variable);
    let emit_start = expression_count(function);
    let value = append_load(function, pointer);
    push_emit_from(function, emit_start);
    push_return(function, value);
    proof {
        let tail = return_emitted(l0 + result.0, e0 + body.expressions.len());
        assert(function_expressions(*function) =~= function_expressions(middle)
            + tail.expressions);
        assert(function_body(*function) =~= function_body(middle) + tail.statements);
        assert(function_locals(*function) =~= function_locals(middle) + tail.locals);
        lemma_emitted_then(*old(function), middle, *function, body, tail);
        if function_clean(*old(function)) {
            lemma_clean_kept(middle, *function, tail);
        }
        law_emitter_locality(
            instructions@,
            result,
            *operators,
            function_expressions(*old(function)),
            l0,
            ty,
        );
        let whole = body.followed_by(tail);
        assert(function_body(*function).subrange(
            function_body(*old(function)).len() as int,
            function_body(*function).len() as int,
        ) =~= whole.statements);
    }
    routines
}

/// The routine of an instruction appends one local variable and
/// [`expression_count_of`] expressions.
proof fn lemma_step_size(
    instruction: SdfInstruction,
    index: int,
    operators: OperatorFunctions,
    e: int,
    l: int,
    l0: int,
    id: Seq<char>,
    ty: int,
)
    requires
        instruction.wf_at(index),
    ensures
        instruction_emitted(instruction, operators, e, l, l0, id, ty).expressions.len()
            == expression_count_of(instruction),
        instruction_emitted(instruction, operators, e, l, l0, id, ty).locals.len() == 1,
{
    match instruction {
        SdfInstruction::Union { shapes, .. } => {
            lemma_tree_shape(consecutive(e, shapes@.len()), e + shapes@.len(), Extreme::Min);
        },
        SdfInstruction::Intersection { shapes, .. } => {
            lemma_tree_shape(consecutive(e, shapes@.len()), e + shapes@.len(), Extreme::Max);
        },
        _ => {},
    }
}

/// Statements that are clean over a list of expressions stay clean when
/// expressions are appended, and may be followed by statements that are
/// clean over the longer list.
pub proof fn lemma_clean_join(
    expressions: Seq<ExpressionModel>,
    added: Seq<ExpressionModel>,
    first: Seq<StatementModel>,
    second: Seq<StatementModel>,
)
    requires
        emits_clean(expressions, first),
        emits_clean(expressions + added, second),
    ensures
        emits_clean(expressions + added, first + second),
{
    let all = expressions + added;
    let body = first + second;
    assert forall|k: int| 0 <= k < body.len() implies ((#[trigger] body[k]) matches StatementModel::Emit {
        start,
        end,
    } ==> emit_range_clean(all, start, end)) by {
        if k < first.len() {
            assert(body[k] == first[k]);
            if let StatementModel::Emit { start, end } = first[k] {
                assert(emit_range_clean(expressions, start, end));
                assert forall|i: int| start <= i < end implies !((#[trigger] all[i])
                    is LocalVariable) && !(all[i] is CallResult) by {
                    assert(all[i] == expressions[i]);
                }
            }
        } else {
            assert(body[k] == second[k - first.len()]);
        }
    }
}

/// The routine of a well-formed instruction emits only value expressions,
/// whatever expressions precede it.
pub proof fn lemma_step_clean(
    instruction: SdfInstruction,
    index: int,
    operators: OperatorFunctions,
    before: Seq<ExpressionModel>,
    l: int,
    l0: int,
    id: Seq<char>,
    ty: int,
)
    requires
        instruction.wf_at(index),
    ensures
        emits_clean(
            before + instruction_emitted(
                instruction,
                operators,
                before.len() as int,
                l,
                l0,
                id,
                ty,
            ).expressions,
            instruction_emitted(instruction, operators, before.len() as int, l, l0, id, ty).statements,
        ),
{
    let e = before.len() as int;
    let step = instruction_emitted(instruction, operators, e, l, l0, id, ty);
    let all = before + step.expressions;
    assert forall|i: int| 0 <= i < step.expressions.len() implies all[e + i] == step.expressions[i] by {}
    match instruction {
        SdfInstruction::Union { shapes, .. } => {
            let n = shapes@.len() as int;
            let tree = tree_expressions(consecutive(e, shapes@.len()), e + n, Extreme::Min);
            lemma_tree_shape(consecutive(e, shapes@.len()), e + n, Extreme::Min);
            assert forall|i: int| e + n <= i < e + 3 * n - 1 implies !((#[trigger] all[i])
                is LocalVariable) && !(all[i] is CallResult) by {
                assert(all[i] == step.expressions[i - e]);
                assert(step.expressions[i - e] == tree[i - e - n]);
            }
            assert(emit_range_clean(all, e + n, e + 3 * n - 1));
        },
        SdfInstruction::Intersection { shapes, .. } => {
            let n = shapes@.len() as int;
            let tree = tree_expressions(consecutive(e, shapes@.len()), e + n, Extreme::Max);
            lemma_tree_shape(consecutive(e, shapes@.len()), e + n, Extreme::Max);
            assert forall|i: int| e + n <= i < e + 3 * n - 1 implies !((#[trigger] all[i])
                is LocalVariable) && !(all[i] is CallResult) by {
                assert(all[i] == step.expressions[i - e]);
                assert(step.expressions[i - e] == tree[i - e - n]);
            }
            assert(emit_range_clean(all, e + n, e + 3 * n - 1));
        },
        SdfInstruction::Edge { .. } => {
            assert(all[e + 1] == step.expressions[1]);
            assert(all[e + 2] == step.expressions[2]);
        },
        SdfInstruction::Invert { .. } => {
            assert(all[e + 1] == step.expressions[1]);
            assert(all[e + 2] == step.expressions[2]);
        },
        SdfInstruction::Dilate { .. } => {
            assert(all[e + 1] == step.expressions[1]);
        },
        SdfInstruction::Subtract { .. } => {
            assert(all[e + 2] == step.expressions[2]);
            assert(all[e + 3] == step.expressions[3]);
            assert(all[e + 4] == step.expressions[4]);
            assert(all[e + 5] == step.expressions[5]);
        },
        SdfInstruction::Boundary { .. } => {
            assert(all[e + 2] == step.expressions[2]);
            assert(all[e + 3] == step.expressions[3]);
        },
        _ => {},
    }
}

/// No emit statement that the emitter produces covers a local variable
/// pointer or a call result: every emit range holds value expressions of
/// its own instruction only, whatever the function held before.
pub proof fn law_emitter_locality(
    stream: Seq<SdfInstruction>,
    result: Register,
    operators: OperatorFunctions,
    before: Seq<ExpressionModel>,
    l0: int,
    ty: int,
)
    requires
        stream_wf(stream),
    ensures
        ({
            let body = stream_emitted(stream, operators, before.len() as int, l0, ty);
            let whole = body.followed_by(
                return_emitted(l0 + result.0, (before.len() + body.expressions.len()) as int),
            );
            &&& emits_clean(before + body.expressions, body.statements)
            &&& emits_clean(before + whole.expressions, whole.statements)
        }),
    decreases stream.len(),
{
    let e0 = before.len() as int;
    let body = stream_emitted(stream, operators, e0, l0, ty);
    if stream.len() > 0 {
        let shorter = stream.drop_last();
        let done = stream_emitted(shorter, operators, e0, l0, ty);
        assert(stream_wf(shorter)) by {
            assert forall|i: int| 0 <= i < shorter.len() implies (#[trigger] shorter[i]).wf_at(
                i,
            ) by {
                assert(shorter[i] == stream[i]);
            }
        }
        law_emitter_locality(shorter, result, operators, before, l0, ty);
        let step = instruction_emitted(
            stream.last(),
            operators,
            e0 + done.expressions.len(),
            l0 + done.locals.len(),
            l0,
            unique_id_of((stream.len() - 1) as nat),
            ty,
        );
        assert(stream.last().wf_at(stream.len() - 1));
        lemma_step_clean(
            stream.last(),
            stream.len() - 1,
            operators,
            before + done.expressions,
            l0 + done.locals.len(),
            l0,
            unique_id_of((stream.len() - 1) as nat),
            ty,
        );
        lemma_clean_join(before + done.expressions, step.expressions, done.statements, step.statements);
        assert((before + done.expressions) + step.expressions =~= before + body.expressions);
    }
    let tail = return_emitted(l0 + result.0, e0 + body.expressions.len());
    let all = (before + body.expressions) + tail.expressions;
    assert(emits_clean(all, tail.statements)) by {
        let e = e0 + body.expressions.len();
        assert(all[e + 1] == tail.expressions[1]);
        assert(emit_range_clean(all, e + 1, e + 2));
    }
    lemma_clean_join(before + body.expressions, tail.expressions, body.statements, tail.statements);
    let whole = body.followed_by(tail);
    assert(before + whole.expressions =~= all);
}

} // verus!
