//! The instruction stream: a flat, register-based form of a signed distance
//! field expression in static single assignment.

use vstd::prelude::*;

use crate::shape::bvh::{arranged, built_order, coordinate_pairs, PointBvh};
use crate::shape::types::{Centimeters, Position};

verus! {

/// The handle of one signed distance value within a compilation session.
#[derive(Clone, Copy, Debug, PartialEq, Eq, Hash, Structural)]
pub struct Register(pub u32);

/// Which side wins where the two inputs of a boundary overlap.
#[derive(Clone, Copy, Debug, PartialEq, Eq, Structural)]
pub enum BoundaryOverlapResolution {
    Inside,
    Outside,
}

/// A Voronoi diagram of a polygon set, held by whoever owns the geographic
/// data and named here by its handle.
#[derive(Clone, Copy, Debug, PartialEq, Eq, Hash, Structural)]
pub struct DiagramHandle(pub u32);

/// A raster of a scalar field over a latitude/longitude rectangle.
///
/// `texels` holds `width * height` samples, row by row, each as the bit
/// pattern of a 32-bit float.
#[derive(Clone, Debug)]
pub struct ContourTexture {
    pub width: u32,
    pub height: u32,
    pub min_lat: i32,
    pub max_lat: i32,
    pub min_lon: i32,
    pub max_lon: i32,
    pub texels: Vec<u32>,
}

impl ContourTexture {
    /// Whether there is exactly one sample per texel.
    pub open spec fn wf(&self) -> bool {
        self.texels@.len() == self.width * self.height
    }

    /// Whether the two textures have the same extent and samples.
    pub open spec fn same_as(&self, other: &ContourTexture) -> bool {
        &&& self.width == other.width
        &&& self.height == other.height
        &&& self.min_lat == other.min_lat
        &&& self.max_lat == other.max_lat
        &&& self.min_lon == other.min_lon
        &&& self.max_lon == other.max_lon
        &&& self.texels@ == other.texels@
    }

    /// A copy of the texture.
    pub fn duplicate(&self) -> (copy: Self)
        ensures
            copy.same_as(self),
    {
        let texels = self.texels.clone();
        assert(texels@ =~= self.texels@);
        ContourTexture {
            width: self.width,
            height: self.height,
            min_lat: self.min_lat,
            max_lat: self.max_lat,
            min_lon: self.min_lon,
            max_lon: self.max_lon,
            texels,
        }
    }
}

/// One step of a signed distance field program. Every instruction writes
/// the register `output`; its other registers are read.
#[derive(Debug)]
pub enum SdfInstruction {
    /// Distance to a single position.
    Point { position: Position, output: Register },
    /// Least distance to any point of a hierarchy.
    PointCloud { bvh: PointBvh, output: Register },
    /// Distance to a great-circle polyline.
    Geodesic { path: Vec<Position>, output: Register },
    /// Signed distance to a polygon set; negative inside.
    LoadVdg { diagram: DiagramHandle, output: Register },
    /// A texture sample less `zero`.
    ContourTexture { texture: ContourTexture, zero: Centimeters, output: Register },
    /// Absolute value: distance to the boundary.
    Edge { input: Register, output: Register },
    /// Negation: swaps inside and outside.
    Invert { input: Register, output: Register },
    /// The input less `amount`.
    Dilate { input: Register, amount: Centimeters, output: Register },
    /// Minimum of the inputs.
    Union { shapes: Vec<Register>, output: Register },
    /// Maximum of the inputs.
    Intersection { shapes: Vec<Register>, output: Register },
    /// `left` without `right`.
    Subtract { left: Register, right: Register, output: Register },
    /// The region nearer to `inside` than to `outside`.
    Boundary {
        inside: Register,
        outside: Register,
        resolution: BoundaryOverlapResolution,
        output: Register,
    },
}

impl SdfInstruction {
    /// The register the instruction writes.
    pub open spec fn output(&self) -> Register {
        match *self {
            SdfInstruction::Point { output, .. } => output,
            SdfInstruction::PointCloud { output, .. } => output,
            SdfInstruction::Geodesic { output, .. } => output,
            SdfInstruction::LoadVdg { output, .. } => output,
            SdfInstruction::ContourTexture { output, .. } => output,
            SdfInstruction::Edge { output, .. } => output,
            SdfInstruction::Invert { output, .. } => output,
            SdfInstruction::Dilate { output, .. } => output,
            SdfInstruction::Union { output, .. } => output,
            SdfInstruction::Intersection { output, .. } => output,
            SdfInstruction::Subtract { output, .. } => output,
            SdfInstruction::Boundary { output, .. } => output,
        }
    }

    /// The registers the instruction reads, in order.
    pub open spec fn inputs(&self) -> Seq<Register> {
        match *self {
            SdfInstruction::Edge { input, .. } => seq![input],
            SdfInstruction::Invert { input, .. } => seq![input],
            SdfInstruction::Dilate { input, .. } => seq![input],
            SdfInstruction::Union { shapes, .. } => shapes@,
            SdfInstruction::Intersection { shapes, .. } => shapes@,
            SdfInstruction::Subtract { left, right, .. } => seq![left, right],
            SdfInstruction::Boundary { inside, outside, .. } => seq![inside, outside],
            _ => Seq::empty(),
        }
    }

    /// Whether the instruction may stand at position `index` of a stream:
    /// it writes register `index`, reads only earlier registers, combines at
    /// least one input, dilates by a non-negative amount and carries
    /// well-formed data.
    pub open spec fn wf_at(&self, index: int) -> bool {
        &&& self.output().0 == index
        &&& forall|k: int| 0 <= k < self.inputs().len() ==> (#[trigger] self.inputs()[k]).0 < index
        &&& match *self {
            SdfInstruction::Union { shapes, .. } => shapes@.len() > 0,
            SdfInstruction::Intersection { shapes, .. } => shapes@.len() > 0,
            SdfInstruction::Dilate { amount, .. } => amount@ >= 0,
            SdfInstruction::PointCloud { bvh, .. } => bvh.wf(),
            SdfInstruction::ContourTexture { texture, .. } => texture.wf(),
            _ => true,
        }
    }
}

/// What an instruction computes, apart from the register it writes: the
/// mathematical form of one node of a signed distance field expression.
pub enum Operation {
    Point { position: Position },
    /// The point cloud over `points`, in the order the hierarchy arranges
    /// them.
    PointCloud { points: Seq<Position> },
    Geodesic { path: Seq<Position> },
    LoadVdg { diagram: DiagramHandle },
    ContourTexture { texture: ContourTexture, zero: Centimeters },
    Edge { input: Register },
    Invert { input: Register },
    Dilate { input: Register, amount: Centimeters },
    Union { shapes: Seq<Register> },
    Intersection { shapes: Seq<Register> },
    Subtract { left: Register, right: Register },
    Boundary { inside: Register, outside: Register, resolution: BoundaryOverlapResolution },
}

/// Whether `instruction` computes `operation`.
pub open spec fn describes(instruction: SdfInstruction, operation: Operation) -> bool {
    match operation {
        Operation::Point { position } => instruction matches SdfInstruction::Point {
            position: p,
            ..
        } && p == position,
        Operation::PointCloud { points } => instruction matches SdfInstruction::PointCloud {
            bvh,
            ..
        } && bvh.wf() && bvh.points@ == arranged(
            coordinate_pairs(points),
            built_order(coordinate_pairs(points)),
        ),
        Operation::Geodesic { path } => instruction matches SdfInstruction::Geodesic {
            path: p,
            ..
        } && p@ == path,
        Operation::LoadVdg { diagram } => instruction matches SdfInstruction::LoadVdg {
            diagram: d,
            ..
        } && d == diagram,
        Operation::ContourTexture {
            texture,
            zero,
        } => instruction matches SdfInstruction::ContourTexture { texture: t, zero: z, .. }
            && t.same_as(&texture) && z == zero,
        Operation::Edge { input } => instruction matches SdfInstruction::Edge { input: i, .. }
            && i == input,
        Operation::Invert { input } => instruction matches SdfInstruction::Invert {
            input: i,
            ..
        } && i == input,
        Operation::Dilate { input, amount } => instruction matches SdfInstruction::Dilate {
            input: i,
            amount: a,
            ..
        } && i == input && a == amount,
        Operation::Union { shapes } => instruction matches SdfInstruction::Union {
            shapes: s,
            ..
        } && s@ == shapes,
        Operation::Intersection {
            shapes,
        } => instruction matches SdfInstruction::Intersection { shapes: s, .. } && s@ == shapes,
        Operation::Subtract { left, right } => instruction matches SdfInstruction::Subtract {
            left: l,
            right: r,
            ..
        } && l == left && r == right,
        Operation::Boundary {
            inside,
            outside,
            resolution,
        } => instruction matches SdfInstruction::Boundary {
            inside: i,
            outside: o,
            resolution: p,
            ..
        } && i == inside && o == outside && p == resolution,
    }
}

/// Whether `after` is `before` followed by one instruction for each of
/// `operations`, in order.
pub open spec fn appends(
    before: Seq<SdfInstruction>,
    after: Seq<SdfInstruction>,
    operations: Seq<Operation>,
) -> bool {
    &&& after.len() == before.len() + operations.len()
    &&& after.subrange(0, before.len() as int) == before
    &&& forall|k: int|
        0 <= k < operations.len() ==> describes(after[before.len() + k], #[trigger] operations[k])
}

/// Appending in two steps appends the concatenation.
pub proof fn lemma_appends_then(
    a: Seq<SdfInstruction>,
    b: Seq<SdfInstruction>,
    c: Seq<SdfInstruction>,
    first: Seq<Operation>,
    second: Seq<Operation>,
)
    requires
        appends(a, b, first),
        appends(b, c, second),
    ensures
        appends(a, c, first + second),
{
    let all = first + second;
    assert(c.subrange(0, a.len() as int) =~= b.subrange(0, a.len() as int)) by {
        assert forall|i: int| 0 <= i < a.len() implies c[i] == b[i] by {
            assert(c.subrange(0, b.len() as int)[i] == b[i]);
        }
    }
    assert forall|k: int| 0 <= k < all.len() implies describes(
        c[a.len() + k],
        #[trigger] all[k],
    ) by {
        if k < first.len() {
            assert(all[k] == first[k]);
            assert(c.subrange(0, b.len() as int)[a.len() + k] == b[a.len() + k]);
        } else {
            assert(all[k] == second[k - first.len()]);
            assert(c[b.len() + (k - first.len())] == c[a.len() + k]);
        }
    }
}

/// Appending nothing leaves the stream as it is.
pub proof fn lemma_appends_nothing(a: Seq<SdfInstruction>)
    ensures
        appends(a, a, Seq::empty()),
{
    assert(a.subrange(0, a.len() as int) =~= a);
}

/// Whether `stream` is in static single assignment with every register
/// defined before it is read.
pub open spec fn stream_wf(stream: Seq<SdfInstruction>) -> bool {
    forall|i: int| 0 <= i < stream.len() ==> (#[trigger] stream[i]).wf_at(i)
}

/// Each register of a well-formed stream is written by exactly one
/// instruction, and every register an instruction reads was written by an
/// earlier one.
pub proof fn law_static_single_assignment(stream: Seq<SdfInstruction>)
    requires
        stream_wf(stream),
    ensures
        forall|i: int, j: int|
            0 <= i < stream.len() && 0 <= j < stream.len() && i != j ==> (#[trigger] stream[i]).output()
                != (#[trigger] stream[j]).output(),
        forall|i: int, k: int|
            0 <= i < stream.len() && 0 <= k < stream[i].inputs().len() ==> {
                let source = (#[trigger] stream[i].inputs()[k]).0 as int;
                &&& 0 <= source < i
                &&& stream[source].output() == stream[i].inputs()[k]
            },
{
    assert forall|i: int, k: int|
        0 <= i < stream.len() && 0 <= k < stream[i].inputs().len() implies {
        let source = (#[trigger] stream[i].inputs()[k]).0 as int;
        &&& 0 <= source < i
        &&& stream[source].output() == stream[i].inputs()[k]
    } by {
        assert(stream[i].wf_at(i));
        let source = stream[i].inputs()[k].0 as int;
        assert(stream[source].wf_at(source));
    }
}

/// What appending to a stream keeps and adds: where a well-formed stream
/// `after` is `before` with instructions appended, `before` stands
/// unchanged at its front, no appended instruction writes a register that
/// another instruction of `after` writes, every register an appended
/// instruction reads was written earlier in `after`, and the last
/// instruction writes the register numbered after all others.
pub proof fn law_appended_registers_are_fresh(
    before: Seq<SdfInstruction>,
    after: Seq<SdfInstruction>,
    operations: Seq<Operation>,
)
    requires
        stream_wf(after),
        appends(before, after, operations),
    ensures
        after.subrange(0, before.len() as int) == before,
        forall|i: int, j: int|
            0 <= i < after.len() && before.len() <= j < after.len() && i != j ==> (
            #[trigger] after[i]).output() != (#[trigger] after[j]).output(),
        forall|j: int, k: int|
            before.len() <= j < after.len() && 0 <= k < after[j].inputs().len() ==> {
                let source = (#[trigger] after[j].inputs()[k]).0 as int;
                &&& 0 <= source < j
                &&& after[source].output() == after[j].inputs()[k]
            },
        after.len() > 0 ==> after.last().output().0 + 1 == after.len(),
{
    law_static_single_assignment(after);
    if after.len() > 0 {
        assert(after[after.len() - 1].wf_at(after.len() - 1));
    }
}

} // verus!
