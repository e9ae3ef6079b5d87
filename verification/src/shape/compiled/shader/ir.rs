//! The shader IR under construction, as this crate sees it.
//!
//! The IR itself is naga's. Everything here is a statement about naga that
//! the verifier takes on trust: the types are opaque, their contents are
//! named by uninterpreted functions, and each wrapper calls into naga and
//! says what the call does to the named contents.

use vstd::prelude::*;

use crate::search::first_match;
use crate::text::is_named;

verus! {

/// naga's `Module`: the arenas of a whole shader, its functions and types
/// among them.
#[verifier::external_type_specification]
#[verifier::external_body]
pub struct ExModule(naga::Module);

/// naga's `Function`: arenas of expressions and local variables and a body
/// of statements.
#[verifier::external_type_specification]
#[verifier::external_body]
pub struct ExFunction(naga::Function);

/// naga's `Expression`.
#[verifier::external_type_specification]
#[verifier::external_body]
pub struct ExExpression(naga::Expression);

/// naga's `LocalVariable`.
#[verifier::external_type_specification]
#[verifier::external_body]
pub struct ExLocalVariable(naga::LocalVariable);

/// naga's `Type`.
#[verifier::external_type_specification]
#[verifier::external_body]
pub struct ExType(naga::Type);

/// naga's `Handle`, a typed index into an arena.
#[verifier::external_type_specification]
#[verifier::external_body]
#[verifier::reject_recursive_types(T)]
pub struct ExHandle<T>(naga::Handle<T>);

/// The expressions this crate emits, by arena index. `Other` stands for
/// every expression this crate never emits.
pub enum ExpressionModel {
    /// A pointer to a local variable.
    LocalVariable { variable: int },
    /// The value behind a pointer.
    Load { pointer: int },
    /// Arithmetic negation.
    Negate { expr: int },
    /// `abs(arg)`.
    Abs { arg: int },
    /// `min(left, right)`.
    Min { left: int, right: int },
    /// `max(left, right)`.
    Max { left: int, right: int },
    /// The function's argument of that position.
    FunctionArgument { index: u32 },
    /// An unsigned 32-bit literal.
    Literal { value: u32 },
    /// The result of a call statement to that function.
    CallResult { function: int },
    Other,
}

/// The statements this crate emits. `Other` stands for every statement this
/// crate never emits.
pub enum StatementModel {
    /// Evaluates the expressions `start..end`.
    Emit { start: int, end: int },
    /// Writes `value` through `pointer`.
    Store { pointer: int, value: int },
    /// Calls `function` and binds its result to the expression `result`.
    Call { function: int, arguments: Seq<int>, result: int },
    /// Returns the value of an expression.
    Return { value: int },
    Other,
}

/// A local variable without initial value: its name and the index of its
/// type.
pub struct LocalModel {
    pub name: Seq<char>,
    pub ty: int,
}

/// The expression arena of a function, in handle order.
pub uninterp spec fn function_expressions(function: naga::Function) -> Seq<ExpressionModel>;

/// The top-level statements of a function's body, in order.
pub uninterp spec fn function_body(function: naga::Function) -> Seq<StatementModel>;

/// The local variables of a function, in handle order.
pub uninterp spec fn function_locals(function: naga::Function) -> Seq<LocalModel>;

/// The arena index of an expression handle.
pub uninterp spec fn expression_index(handle: naga::Handle<naga::Expression>) -> int;

/// The arena index of a local variable handle.
pub uninterp spec fn local_index(handle: naga::Handle<naga::LocalVariable>) -> int;

/// The arena index of a function handle.
pub uninterp spec fn function_index(handle: naga::Handle<naga::Function>) -> int;

/// The arena index of a type handle.
pub uninterp spec fn type_index(handle: naga::Handle<naga::Type>) -> int;

/// The names of the functions of a module, in handle order; `None` for a
/// function without a name.
pub uninterp spec fn module_function_names(module: naga::Module) -> Seq<Option<Seq<char>>>;

/// Selects the names that are `wanted`.
pub open spec fn is_name(wanted: Seq<char>) -> spec_fn(Option<Seq<char>>) -> bool {
    |candidate: Option<Seq<char>>| candidate == Some(wanted)
}

/// `Arena::fetch_if` on the module's functions: the handle of the first
/// function called `name`, if there is one.
#[verifier::external_body]
pub(crate) fn fetch_function(module: &naga::Module, name: &str) -> (found: Option<
    naga::Handle<naga::Function>,
>)
    ensures
        match found {
            Some(handle) => function_index(handle) == first_match(
                module_function_names(*module),
                is_name(name@),
            ) && function_index(handle) < module_function_names(*module).len(),
            None => first_match(module_function_names(*module), is_name(name@))
                == module_function_names(*module).len(),
        },
{
    module.functions.fetch_if(|function| is_named(&function.name, name))
}

/// How the bits of a scalar are read.
#[derive(Clone, Copy, Debug, PartialEq, Eq, Structural)]
pub enum ScalarKindModel {
    Sint,
    Uint,
    Float,
    Bool,
    AbstractInt,
    AbstractFloat,
}

/// A scalar type: how its bits are read, and its width in bytes.
#[derive(Clone, Copy, Debug, PartialEq, Eq, Structural)]
pub struct ScalarModel {
    pub kind: ScalarKindModel,
    pub width: u8,
}

/// The types of a module, in arena order: for each, its scalar if the
/// type is a scalar.
pub uninterp spec fn module_scalar_types(module: naga::Module) -> Seq<Option<ScalarModel>>;

/// `UniqueArena::iter` on the module's types: every handle, in arena
/// order, with the scalar of its type if the type is one.
#[verifier::external_body]
pub(crate) fn scalar_types(module: &naga::Module) -> (entries: Vec<
    (naga::Handle<naga::Type>, Option<ScalarModel>),
>)
    ensures
        entries@.len() == module_scalar_types(*module).len(),
        forall|k: int|
            0 <= k < entries@.len() ==> type_index((#[trigger] entries@[k]).0) == k
                && entries@[k].1 == module_scalar_types(*module)[k],
{
    module.types.iter().map(|(handle, ty)| (handle, match ty.inner {
        naga::TypeInner::Scalar(naga::Scalar { kind, width }) => Some(ScalarModel { kind: match kind {
            naga::ScalarKind::Sint => ScalarKindModel::Sint,
            naga::ScalarKind::Uint => ScalarKindModel::Uint,
            naga::ScalarKind::Float => ScalarKindModel::Float,
            naga::ScalarKind::Bool => ScalarKindModel::Bool,
            naga::ScalarKind::AbstractInt => ScalarKindModel::AbstractInt,
            naga::ScalarKind::AbstractFloat => ScalarKindModel::AbstractFloat,
        }, width }),
        _ => None,
    })).collect()
}

/// The arena indices of a list of expression handles.
pub open spec fn expression_indices(handles: Seq<naga::Handle<naga::Expression>>) -> Seq<int> {
    Seq::new(handles.len(), |i: int| expression_index(handles[i]))
}

/// Whether `after` is `before` with `expression` appended to its arena and
/// nothing else changed.
pub open spec fn appended_expression(
    before: naga::Function,
    after: naga::Function,
    expression: ExpressionModel,
) -> bool {
    &&& function_expressions(after) == function_expressions(before).push(expression)
    &&& function_body(after) == function_body(before)
    &&& function_locals(after) == function_locals(before)
}

/// Whether `after` is `before` with `statement` appended to its body and
/// nothing else changed.
pub open spec fn appended_statement(
    before: naga::Function,
    after: naga::Function,
    statement: StatementModel,
) -> bool {
    &&& function_expressions(after) == function_expressions(before)
    &&& function_body(after) == function_body(before).push(statement)
    &&& function_locals(after) == function_locals(before)
}

/// `Arena::len` of the function's expressions.
#[verifier::external_body]
pub(crate) fn expression_count(function: &naga::Function) -> (count: usize)
    ensures
        count == function_expressions(*function).len(),
{
    function.expressions.len()
}

/// `Arena::len` of the function's local variables.
#[verifier::external_body]
pub(crate) fn local_count(function: &naga::Function) -> (count: usize)
    ensures
        count == function_locals(*function).len(),
{
    function.local_variables.len()
}

/// `Arena::append` of `Expression::LocalVariable`. The arena gains the
/// expression at its end and hands out the handle of that index; it panics
/// only where the index does not fit a handle, which `requires` excludes.
#[verifier::external_body]
pub(crate) fn append_local_pointer(
    function: &mut naga::Function,
    variable: naga::Handle<naga::LocalVariable>,
) -> (handle: naga::Handle<naga::Expression>)
    requires
        function_expressions(*old(function)).len() < u32::MAX,
    ensures
        appended_expression(
            *old(function),
            *final(function),
            ExpressionModel::LocalVariable { variable: local_index(variable) },
        ),
        expression_index(handle) == function_expressions(*old(function)).len(),
{
    function.expressions.append(naga::Expression::LocalVariable(variable), naga::Span::UNDEFINED)
}

/// `Arena::append` of `Expression::Load`.
#[verifier::external_body]
pub(crate) fn append_load(
    function: &mut naga::Function,
    pointer: naga::Handle<naga::Expression>,
) -> (handle: naga::Handle<naga::Expression>)
    requires
        function_expressions(*old(function)).len() < u32::MAX,
    ensures
        appended_expression(
            *old(function),
            *final(function),
            ExpressionModel::Load { pointer: expression_index(pointer) },
        ),
        expression_index(handle) == function_expressions(*old(function)).len(),
{
    function.expressions.append(naga::Expression::Load { pointer }, naga::Span::UNDEFINED)
}

/// `Arena::append` of `Expression::Unary` with `UnaryOperator::Negate`.
#[verifier::external_body]
pub(crate) fn append_negate(
    function: &mut naga::Function,
    expr: naga::Handle<naga::Expression>,
) -> (handle: naga::Handle<naga::Expression>)
    requires
        function_expressions(*old(function)).len() < u32::MAX,
    ensures
        appended_expression(
            *old(function),
            *final(function),
            ExpressionModel::Negate { expr: expression_index(expr) },
        ),
        expression_index(handle) == function_expressions(*old(function)).len(),
{
    function.expressions.append(
        naga::Expression::Unary { op: naga::UnaryOperator::Negate, expr },
        naga::Span::UNDEFINED,
    )
}

/// `Arena::append` of `Expression::Math` with `MathFunction::Abs`.
#[verifier::external_body]
pub(crate) fn append_abs(
    function: &mut naga::Function,
    arg: naga::Handle<naga::Expression>,
) -> (handle: naga::Handle<naga::Expression>)
    requires
        function_expressions(*old(function)).len() < u32::MAX,
    ensures
        appended_expression(
            *old(function),
            *final(function),
            ExpressionModel::Abs { arg: expression_index(arg) },
        ),
        expression_index(handle) == function_expressions(*old(function)).len(),
{
    function.expressions.append(
        naga::Expression::Math {
            fun: naga::MathFunction::Abs,
            arg,
            arg1: None,
            arg2: None,
            arg3: None,
        },
        naga::Span::UNDEFINED,
    )
}

/// `Arena::append` of `Expression::Math` with `MathFunction::Max`.
#[verifier::external_body]
pub(crate) fn append_max(
    function: &mut naga::Function,
    left: naga::Handle<naga::Expression>,
    right: naga::Handle<naga::Expression>,
) -> (handle: naga::Handle<naga::Expression>)
    requires
        function_expressions(*old(function)).len() < u32::MAX,
    ensures
        appended_expression(
            *old(function),
            *final(function),
            ExpressionModel::Max {
                left: expression_index(left),
                right: expression_index(right),
            },
        ),
        expression_index(handle) == function_expressions(*old(function)).len(),
{
    function.expressions.append(
        naga::Expression::Math {
            fun: naga::MathFunction::Max,
            arg: left,
            arg1: Some(right),
            arg2: None,
            arg3: None,
        },
        naga::Span::UNDEFINED,
    )
}

/// `Arena::append` of `Expression::Math` with `MathFunction::Min`.
#[verifier::external_body]
pub(crate) fn append_min(
    function: &mut naga::Function,
    left: naga::Handle<naga::Expression>,
    right: naga::Handle<naga::Expression>,
) -> (handle: naga::Handle<naga::Expression>)
    requires
        function_expressions(*old(function)).len() < u32::MAX,
    ensures
        appended_expression(
            *old(function),
            *final(function),
            ExpressionModel::Min {
                left: expression_index(left),
                right: expression_index(right),
            },
        ),
        expression_index(handle) == function_expressions(*old(function)).len(),
{
    function.expressions.append(
        naga::Expression::Math {
            fun: naga::MathFunction::Min,
            arg: left,
            arg1: Some(right),
            arg2: None,
            arg3: None,
        },
        naga::Span::UNDEFINED,
    )
}

/// `Arena::append` of `Expression::FunctionArgument`.
#[verifier::external_body]
pub(crate) fn append_function_argument(function: &mut naga::Function, index: u32) -> (handle:
    naga::Handle<naga::Expression>)
    requires
        function_expressions(*old(function)).len() < u32::MAX,
    ensures
        appended_expression(
            *old(function),
            *final(function),
            ExpressionModel::FunctionArgument { index },
        ),
        expression_index(handle) == function_expressions(*old(function)).len(),
{
    function.expressions.append(naga::Expression::FunctionArgument(index), naga::Span::UNDEFINED)
}

/// `Arena::append` of `Expression::Literal` with `Literal::U32`.
#[verifier::external_body]
pub(crate) fn append_literal(function: &mut naga::Function, value: u32) -> (handle: naga::Handle<
    naga::Expression,
>)
    requires
        function_expressions(*old(function)).len() < u32::MAX,
    ensures
        appended_expression(
            *old(function),
            *final(function),
            ExpressionModel::Literal { value },
        ),
        expression_index(handle) == function_expressions(*old(function)).len(),
{
    function.expressions.append(
        naga::Expression::Literal(naga::Literal::U32(value)),
        naga::Span::UNDEFINED,
    )
}

/// `Arena::append` of `Expression::CallResult`.
#[verifier::external_body]
pub(crate) fn append_call_result(
    function: &mut naga::Function,
    callee: naga::Handle<naga::Function>,
) -> (handle: naga::Handle<naga::Expression>)
    requires
        function_expressions(*old(function)).len() < u32::MAX,
    ensures
        appended_expression(
            *old(function),
            *final(function),
            ExpressionModel::CallResult { function: function_index(callee) },
        ),
        expression_index(handle) == function_expressions(*old(function)).len(),
{
    function.expressions.append(naga::Expression::CallResult(callee), naga::Span::UNDEFINED)
}

/// `Arena::append` of a `LocalVariable` named `name`, of type `ty` and
/// without initial value.
#[verifier::external_body]
pub(crate) fn append_local(
    function: &mut naga::Function,
    name: String,
    ty: naga::Handle<naga::Type>,
) -> (handle: naga::Handle<naga::LocalVariable>)
    requires
        function_locals(*old(function)).len() < u32::MAX,
    ensures
        function_locals(*final(function)) == function_locals(*old(function)).push(
            LocalModel { name: name@, ty: type_index(ty) },
        ),
        function_expressions(*final(function)) == function_expressions(*old(function)),
        function_body(*final(function)) == function_body(*old(function)),
        local_index(handle) == function_locals(*old(function)).len(),
{
    function.local_variables.append(
        naga::LocalVariable { name: Some(name), ty, init: None },
        naga::Span::UNDEFINED,
    )
}

/// `Arena::range_from` and `Block::push` of `Statement::Emit`: the body
/// gains an emit of every expression from index `start` to the end of the
/// arena. `range_from` panics where `start` lies beyond the end or the end
/// does not fit 32 bits, which `requires` excludes.
#[verifier::external_body]
pub(crate) fn push_emit_from(function: &mut naga::Function, start: usize)
    requires
        start <= function_expressions(*old(function)).len() <= u32::MAX,
    ensures
        appended_statement(
            *old(function),
            *final(function),
            StatementModel::Emit {
                start: start as int,
                end: function_expressions(*old(function)).len() as int,
            },
        ),
{
    let range = function.expressions.range_from(start);
    function.body.push(naga::Statement::Emit(range), naga::Span::UNDEFINED);
}

/// `Block::push` of `Statement::Store`.
#[verifier::external_body]
pub(crate) fn push_store(
    function: &mut naga::Function,
    pointer: naga::Handle<naga::Expression>,
    value: naga::Handle<naga::Expression>,
)
    ensures
        appended_statement(
            *old(function),
            *final(function),
            StatementModel::Store {
                pointer: expression_index(pointer),
                value: expression_index(value),
            },
        ),
{
    function.body.push(naga::Statement::Store { pointer, value }, naga::Span::UNDEFINED);
}

/// `Block::push` of `Statement::Call` with a result.
#[verifier::external_body]
pub(crate) fn push_call(
    function: &mut naga::Function,
    callee: naga::Handle<naga::Function>,
    arguments: Vec<naga::Handle<naga::Expression>>,
    result: naga::Handle<naga::Expression>,
)
    ensures
        appended_statement(
            *old(function),
            *final(function),
            StatementModel::Call {
                function: function_index(callee),
                arguments: expression_indices(arguments@),
                result: expression_index(result),
            },
        ),
{
    function.body.push(
        naga::Statement::Call { function: callee, arguments, result: Some(result) },
        naga::Span::UNDEFINED,
    );
}

/// `Block::push` of `Statement::Return` with a value.
#[verifier::external_body]
pub(crate) fn push_return(function: &mut naga::Function, value: naga::Handle<naga::Expression>)
    ensures
        appended_statement(
            *old(function),
            *final(function),
            StatementModel::Return { value: expression_index(value) },
        ),
{
    function.body.push(naga::Statement::Return { value: Some(value) }, naga::Span::UNDEFINED);
}

} // verus!
