//! The expression compiler: a stateful builder that turns shape
//! constructors into an instruction stream, one fresh register each.

use vstd::prelude::*;

use crate::hide_and_seek::question::{ShapeError, ShapeErrorClass};
use crate::shape::bvh::{PointBvh, MAX_POINTS};
use crate::shape::instruction::{
    appends, describes, stream_wf, BoundaryOverlapResolution, ContourTexture, DiagramHandle,
    Operation, Register, SdfInstruction,
};
use crate::shape::types::{Centimeters, Position};

verus! {

/// Whether `after` is `before` with instructions appended.
pub open spec fn extends(after: Seq<SdfInstruction>, before: Seq<SdfInstruction>) -> bool {
    &&& before.len() <= after.len()
    &&& after.subrange(0, before.len() as int) == before
}

/// Whether every register of `registers` is written by one of the first
/// `len` instructions.
pub open spec fn all_defined(registers: Seq<Register>, len: nat) -> bool {
    forall|k: int| 0 <= k < registers.len() ==> (#[trigger] registers[k]).0 < len
}

/// The message of the error for a union of nothing.
pub open spec fn empty_union_message() -> Seq<char> {
    "A union needs at least one shape."@
}

/// The message of the error for an intersection of nothing.
pub open spec fn empty_intersection_message() -> Seq<char> {
    "An intersection needs at least one shape."@
}

/// A value that can append itself to an instruction stream.
pub trait Shape {
    /// What must hold of the shape for it to be built.
    spec fn buildable(&self) -> bool;

    /// The operations the shape appends to a stream of `base` instructions,
    /// in order. The last one computes the shape's distance.
    spec fn operations(&self, base: nat) -> Seq<Operation>;

    /// Appends the shape's instructions and returns the register that holds
    /// its distance.
    fn build_into(&self, compiler: &mut SdfCompiler) -> (result: Register)
        requires
            old(compiler).wf(),
            self.buildable(),
            old(compiler)@.len() + self.operations(old(compiler)@.len()).len() <= u32::MAX,
        ensures
            final(compiler).wf(),
            appends(old(compiler)@, final(compiler)@, self.operations(old(compiler)@.len())),
            result.0 + 1 == final(compiler)@.len(),
            final(compiler)@.len() > old(compiler)@.len(),
    ;
}

/// The builder of one compilation session. Registers are numbered from
/// zero in the order their instructions are appended and are never reused.
pub struct SdfCompiler {
    instructions: Vec<SdfInstruction>,
}

impl View for SdfCompiler {
    type V = Seq<SdfInstruction>;

    closed spec fn view(&self) -> Seq<SdfInstruction> {
        self.instructions@
    }
}

impl SdfCompiler {
    /// Whether the stream built so far is in static single assignment.
    pub open spec fn wf(&self) -> bool {
        &&& stream_wf(self@)
        &&& self@.len() <= u32::MAX
    }

    /// Whether `register` was returned by this compiler.
    pub open spec fn defines(&self, register: Register) -> bool {
        register.0 < self@.len()
    }

    pub fn new() -> (compiler: Self)
        ensures
            compiler@ == Seq::<SdfInstruction>::empty(),
            compiler.wf(),
    {
        SdfCompiler { instructions: Vec::new() }
    }

    /// The instructions appended so far.
    pub fn instructions(&self) -> (stream: &Vec<SdfInstruction>)
        ensures
            stream@ == self@,
    {
        &self.instructions
    }

    /// Ends the session and hands out its instruction stream.
    pub fn into_instructions(self) -> (stream: Vec<SdfInstruction>)
        ensures
            stream@ == self@,
    {
        self.instructions
    }

    /// The number of registers allocated so far.
    pub fn register_count(&self) -> (count: usize)
        ensures
            count == self@.len(),
    {
        self.instructions.len()
    }

    /// The register the next instruction will write.
    fn next_register(&self) -> (register: Register)
        requires
            self@.len() < u32::MAX,
        ensures
            register.0 == self@.len(),
    {
        Register(self.instructions.len() as u32)
    }

    /// Appends an instruction that is well-formed at the end of the stream.
    fn emit(&mut self, instruction: SdfInstruction, Ghost(operation): Ghost<Operation>)
        requires
            old(self).wf(),
            old(self)@.len() < u32::MAX,
            instruction.wf_at(old(self)@.len() as int),
            describes(instruction, operation),
        ensures
            final(self).wf(),
            final(self)@ == old(self)@.push(instruction),
            extends(final(self)@, old(self)@),
            appends(old(self)@, final(self)@, seq![operation]),
    {
        self.instructions.push(instruction);
        assert(self@.subrange(0, old(self)@.len() as int) =~= old(self)@);
    }

    /// Distance to `position`.
    pub fn point(&mut self, position: Position) -> (result: Register)
        requires
            old(self).wf(),
            old(self)@.len() < u32::MAX,
        ensures
            final(self).wf(),
            appends(old(self)@, final(self)@, seq![Operation::Point { position }]),
            result.0 == old(self)@.len(),
            final(self)@ == old(self)@.push(SdfInstruction::Point { position, output: result }),
    {
        let output = self.next_register();
        self.emit(
            SdfInstruction::Point { position, output },
            Ghost(Operation::Point { position }),
        );
        output
    }

    /// Least distance to any of `points`, through a hierarchy built over
    /// them.
    pub fn point_cloud(&mut self, points: Vec<Position>) -> (result: Register)
        requires
            old(self).wf(),
            old(self)@.len() < u32::MAX,
            points@.len() <= MAX_POINTS,
        ensures
            final(self).wf(),
            appends(old(self)@, final(self)@, seq![Operation::PointCloud { points: points@ }]),
            result.0 == old(self)@.len(),
            extends(final(self)@, old(self)@),
    {
        let output = self.next_register();
        let bvh = PointBvh::build(points.as_slice());
        self.emit(
            SdfInstruction::PointCloud { bvh, output },
            Ghost(Operation::PointCloud { points: points@ }),
        );
        output
    }

    /// Distance to the great-circle polyline through `positions`.
    pub fn geodesic_string(&mut self, positions: Vec<Position>) -> (result: Register)
        requires
            old(self).wf(),
            old(self)@.len() < u32::MAX,
        ensures
            final(self).wf(),
            appends(old(self)@, final(self)@, seq![Operation::Geodesic { path: positions@ }]),
            result.0 == old(self)@.len(),
            final(self)@ == old(self)@.push(
                SdfInstruction::Geodesic { path: positions, output: result },
            ),
    {
        let output = self.next_register();
        let ghost path = positions@;
        self.emit(
            SdfInstruction::Geodesic { path: positions, output },
            Ghost(Operation::Geodesic { path }),
        );
        output
    }

    /// The distance of any shape: whatever the shape appends.
    pub fn with<S: Shape>(&mut self, shape: &S) -> (result: Register)
        requires
            old(self).wf(),
            shape.buildable(),
            old(self)@.len() + shape.operations(old(self)@.len()).len() <= u32::MAX,
        ensures
            final(self).wf(),
            appends(old(self)@, final(self)@, shape.operations(old(self)@.len())),
            result.0 + 1 == final(self)@.len(),
            final(self)@.len() > old(self)@.len(),
    {
        shape.build_into(self)
    }

    /// Signed distance to the polygon set of `diagram`.
    pub fn with_vdg(&mut self, diagram: DiagramHandle) -> (result: Register)
        requires
            old(self).wf(),
            old(self)@.len() < u32::MAX,
        ensures
            final(self).wf(),
            appends(old(self)@, final(self)@, seq![Operation::LoadVdg { diagram }]),
            result.0 == old(self)@.len(),
            final(self)@ == old(self)@.push(SdfInstruction::LoadVdg { diagram, output: result }),
    {
        let output = self.next_register();
        self.emit(
            SdfInstruction::LoadVdg { diagram, output },
            Ghost(Operation::LoadVdg { diagram }),
        );
        output
    }

    /// The sample of `texture` less `zero`.
    pub fn with_contour_texture(&mut self, texture: ContourTexture, zero: Centimeters) -> (result:
        Register)
        requires
            old(self).wf(),
            old(self)@.len() < u32::MAX,
            texture.wf(),
        ensures
            final(self).wf(),
            appends(old(self)@, final(self)@, seq![Operation::ContourTexture { texture, zero }]),
            result.0 == old(self)@.len(),
            final(self)@ == old(self)@.push(
                SdfInstruction::ContourTexture { texture, zero, output: result },
            ),
    {
        let output = self.next_register();
        let ghost operation = Operation::ContourTexture { texture, zero };
        self.emit(SdfInstruction::ContourTexture { texture, zero, output }, Ghost(operation));
        output
    }

    /// Distance to the boundary of `input`.
    pub fn edge(&mut self, input: Register) -> (result: Register)
        requires
            old(self).wf(),
            old(self)@.len() < u32::MAX,
            old(self).defines(input),
        ensures
            final(self).wf(),
            appends(old(self)@, final(self)@, seq![Operation::Edge { input }]),
            result.0 == old(self)@.len(),
            final(self)@ == old(self)@.push(SdfInstruction::Edge { input, output: result }),
    {
        let output = self.next_register();
        self.emit(SdfInstruction::Edge { input, output }, Ghost(Operation::Edge { input }));
        output
    }

    /// The complement of `input`.
    pub fn invert(&mut self, input: Register) -> (result: Register)
        requires
            old(self).wf(),
            old(self)@.len() < u32::MAX,
            old(self).defines(input),
        ensures
            final(self).wf(),
            appends(old(self)@, final(self)@, seq![Operation::Invert { input }]),
            result.0 == old(self)@.len(),
            final(self)@ == old(self)@.push(SdfInstruction::Invert { input, output: result }),
    {
        let output = self.next_register();
        self.emit(SdfInstruction::Invert { input, output }, Ghost(Operation::Invert { input }));
        output
    }

    /// `input` grown by the non-negative distance `amount`.
    pub fn dilate(&mut self, input: Register, amount: Centimeters) -> (result: Register)
        requires
            old(self).wf(),
            old(self)@.len() < u32::MAX,
            old(self).defines(input),
            amount@ >= 0,
        ensures
            final(self).wf(),
            appends(old(self)@, final(self)@, seq![Operation::Dilate { input, amount }]),
            result.0 == old(self)@.len(),
            final(self)@ == old(self)@.push(
                SdfInstruction::Dilate { input, amount, output: result },
            ),
    {
        let output = self.next_register();
        self.emit(
            SdfInstruction::Dilate { input, amount, output },
            Ghost(Operation::Dilate { input, amount }),
        );
        output
    }

    /// The union of `shapes`; fails on an empty list and appends nothing.
    pub fn union(&mut self, shapes: Vec<Register>) -> (result: Result<Register, ShapeError>)
        requires
            old(self).wf(),
            old(self)@.len() < u32::MAX,
            all_defined(shapes@, old(self)@.len()),
        ensures
            final(self).wf(),
            shapes@.len() == 0 <==> result is Err,
            match result {
                Ok(register) => {
                    &&& register.0 == old(self)@.len()
                    &&& final(self)@ == old(self)@.push(
                        SdfInstruction::Union { shapes, output: register },
                    )
                    &&& appends(
                        old(self)@,
                        final(self)@,
                        seq![Operation::Union { shapes: shapes@ }],
                    )
                },
                Err(error) => {
                    &&& final(self)@ == old(self)@
                    &&& error.is(ShapeErrorClass::InvalidParameters, empty_union_message(), None)
                },
            },
    {
        if shapes.len() == 0 {
            return Err(ShapeError::invalid_parameters("A union needs at least one shape."));
        }
        let output = self.next_register();
        let ghost operation = Operation::Union { shapes: shapes@ };
        self.emit(SdfInstruction::Union { shapes, output }, Ghost(operation));
        Ok(output)
    }

    /// The intersection of `shapes`; fails on an empty list and appends
    /// nothing.
    pub fn intersection(&mut self, shapes: Vec<Register>) -> (result: Result<Register, ShapeError>)
        requires
            old(self).wf(),
            old(self)@.len() < u32::MAX,
            all_defined(shapes@, old(self)@.len()),
        ensures
            final(self).wf(),
            shapes@.len() == 0 <==> result is Err,
            match result {
                Ok(register) => {
                    &&& register.0 == old(self)@.len()
                    &&& final(self)@ == old(self)@.push(
                        SdfInstruction::Intersection { shapes, output: register },
                    )
                    &&& appends(
                        old(self)@,
                        final(self)@,
                        seq![Operation::Intersection { shapes: shapes@ }],
                    )
                },
                Err(error) => {
                    &&& final(self)@ == old(self)@
                    &&& error.is(
                        ShapeErrorClass::InvalidParameters,
                        empty_intersection_message(),
                        None,
                    )
                },
            },
    {
        if shapes.len() == 0 {
            return Err(
                ShapeError::invalid_parameters("An intersection needs at least one shape."),
            );
        }
        let output = self.next_register();
        let ghost operation = Operation::Intersection { shapes: shapes@ };
        self.emit(SdfInstruction::Intersection { shapes, output }, Ghost(operation));
        Ok(output)
    }

    /// `left` without `right`.
    pub fn subtract(&mut self, left: Register, right: Register) -> (result: Register)
        requires
            old(self).wf(),
            old(self)@.len() < u32::MAX,
            old(self).defines(left),
            old(self).defines(right),
        ensures
            final(self).wf(),
            appends(old(self)@, final(self)@, seq![Operation::Subtract { left, right }]),
            result.0 == old(self)@.len(),
            final(self)@ == old(self)@.push(
                SdfInstruction::Subtract { left, right, output: result },
            ),
    {
        let output = self.next_register();
        self.emit(
            SdfInstruction::Subtract { left, right, output },
            Ghost(Operation::Subtract { left, right }),
        );
        output
    }

    /// The region nearer to `inside` than to `outside`.
    pub fn boundary(
        &mut self,
        inside: Register,
        outside: Register,
        resolution: BoundaryOverlapResolution,
    ) -> (result: Register)
        requires
            old(self).wf(),
            old(self)@.len() < u32::MAX,
            old(self).defines(inside),
            old(self).defines(outside),
        ensures
            final(self).wf(),
            appends(old(self)@, final(self)@, seq![Operation::Boundary { inside, outside, resolution }]),
            result.0 == old(self)@.len(),
            final(self)@ == old(self)@.push(
                SdfInstruction::Boundary { inside, outside, resolution, output: result },
            ),
    {
        let output = self.next_register();
        self.emit(
            SdfInstruction::Boundary { inside, outside, resolution, output },
            Ghost(Operation::Boundary { inside, outside, resolution }),
        );
        output
    }
}

} // verus!
