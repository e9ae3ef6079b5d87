//! What an instruction stream means: the signed distance each register
//! holds at one sample, and the algebraic laws that follow.

use vstd::prelude::*;

use crate::shape::compiler::extends;
use crate::shape::instruction::{Register, SdfInstruction};
use crate::shape::types::Centimeters;

verus! {

pub open spec fn min_of(a: int, b: int) -> int {
    if a <= b {
        a
    } else {
        b
    }
}

pub open spec fn max_of(a: int, b: int) -> int {
    if a >= b {
        a
    } else {
        b
    }
}

pub open spec fn abs_of(a: int) -> int {
    if a >= 0 {
        a
    } else {
        -a
    }
}

/// The least of `values`; zero for none.
pub open spec fn least(values: Seq<int>) -> int
    decreases values.len(),
{
    if values.len() == 0 {
        0
    } else if values.len() == 1 {
        values[0]
    } else {
        min_of(least(values.drop_last()), values.last())
    }
}

/// The greatest of `values`; zero for none.
pub open spec fn greatest(values: Seq<int>) -> int
    decreases values.len(),
{
    if values.len() == 0 {
        0
    } else if values.len() == 1 {
        values[0]
    } else {
        max_of(greatest(values.drop_last()), values.last())
    }
}

/// The values of the registers `shapes`, as read by instruction `r`.
pub open spec fn input_values(
    stream: Seq<SdfInstruction>,
    shapes: Seq<Register>,
    r: int,
    leaf: spec_fn(int) -> int,
) -> Seq<int>
    decreases r, 0int,
{
    Seq::new(
        shapes.len(),
        |k: int|
            if shapes[k].0 < r {
                value_at(stream, shapes[k].0 as int, leaf)
            } else {
                0
            },
    )
}

/// The signed distance that register `r` of `stream` holds at one sample,
/// where `leaf(i)` is what the primitive at instruction `i` measures there.
/// Negative means a possible hider location.
pub open spec fn value_at(stream: Seq<SdfInstruction>, r: int, leaf: spec_fn(int) -> int) -> int
    decreases r, 1int,
{
    if r < 0 || r >= stream.len() {
        0
    } else {
        match stream[r] {
            SdfInstruction::Point { .. } => leaf(r),
            SdfInstruction::PointCloud { .. } => leaf(r),
            SdfInstruction::Geodesic { .. } => leaf(r),
            SdfInstruction::LoadVdg { .. } => leaf(r),
            SdfInstruction::ContourTexture { zero, .. } => leaf(r) - zero@,
            SdfInstruction::Edge { input, .. } => abs_of(
                if input.0 < r {
                    value_at(stream, input.0 as int, leaf)
                } else {
                    0
                },
            ),
            SdfInstruction::Invert { input, .. } => -(if input.0 < r {
                value_at(stream, input.0 as int, leaf)
            } else {
                0
            }),
            SdfInstruction::Dilate { input, amount, .. } => (if input.0 < r {
                value_at(stream, input.0 as int, leaf)
            } else {
                0
            }) - amount@,
            SdfInstruction::Union { shapes, .. } => least(input_values(stream, shapes@, r, leaf)),
            SdfInstruction::Intersection { shapes, .. } => greatest(
                input_values(stream, shapes@, r, leaf),
            ),
            SdfInstruction::Subtract { left, right, .. } => max_of(
                if left.0 < r {
                    value_at(stream, left.0 as int, leaf)
                } else {
                    0
                },
                -(if right.0 < r {
                    value_at(stream, right.0 as int, leaf)
                } else {
                    0
                }),
            ),
            SdfInstruction::Boundary { inside, outside, .. } => max_of(
                if inside.0 < r {
                    value_at(stream, inside.0 as int, leaf)
                } else {
                    0
                },
                -(if outside.0 < r {
                    value_at(stream, outside.0 as int, leaf)
                } else {
                    0
                }),
            ),
        }
    }
}

/// Appending instructions changes no value already computed.
pub proof fn lemma_value_stable(
    before: Seq<SdfInstruction>,
    after: Seq<SdfInstruction>,
    r: int,
    leaf: spec_fn(int) -> int,
)
    requires
        extends(after, before),
        0 <= r < before.len(),
    ensures
        value_at(after, r, leaf) == value_at(before, r, leaf),
    decreases r,
{
    assert(after[r] == after.subrange(0, before.len() as int)[r]);
    assert(after[r] == before[r]);
    match before[r] {
        SdfInstruction::Edge { input, .. } => {
            if input.0 < r {
                lemma_value_stable(before, after, input.0 as int, leaf);
            }
        },
        SdfInstruction::Invert { input, .. } => {
            if input.0 < r {
                lemma_value_stable(before, after, input.0 as int, leaf);
            }
        },
        SdfInstruction::Dilate { input, .. } => {
            if input.0 < r {
                lemma_value_stable(before, after, input.0 as int, leaf);
            }
        },
        SdfInstruction::Union { shapes, .. } => {
            let a = input_values(after, shapes@, r, leaf);
            let b = input_values(before, shapes@, r, leaf);
            assert forall|k: int| 0 <= k < shapes@.len() implies a[k] == b[k] by {
                if shapes@[k].0 < r {
                    lemma_value_stable(before, after, shapes@[k].0 as int, leaf);
                }
            }
            assert(a =~= b);
        },
        SdfInstruction::Intersection { shapes, .. } => {
            let a = input_values(after, shapes@, r, leaf);
            let b = input_values(before, shapes@, r, leaf);
            assert forall|k: int| 0 <= k < shapes@.len() implies a[k] == b[k] by {
                if shapes@[k].0 < r {
                    lemma_value_stable(before, after, shapes@[k].0 as int, leaf);
                }
            }
            assert(a =~= b);
        },
        SdfInstruction::Subtract { left, right, .. } => {
            if left.0 < r {
                lemma_value_stable(before, after, left.0 as int, leaf);
            }
            if right.0 < r {
                lemma_value_stable(before, after, right.0 as int, leaf);
            }
        },
        SdfInstruction::Boundary { inside, outside, .. } => {
            if inside.0 < r {
                lemma_value_stable(before, after, inside.0 as int, leaf);
            }
            if outside.0 < r {
                lemma_value_stable(before, after, outside.0 as int, leaf);
            }
        },
        _ => {},
    }
}

/// Inverting twice gives back the distance one started from.
pub proof fn law_invert_involution(
    stream: Seq<SdfInstruction>,
    x: Register,
    leaf: spec_fn(int) -> int,
)
    requires
        x.0 < stream.len(),
    ensures
        ({
            let n = stream.len() as int;
            let once = stream.push(SdfInstruction::Invert { input: x, output: Register(n as u32) });
            let twice = once.push(
                SdfInstruction::Invert { input: Register(n as u32), output: Register((n + 1) as u32) },
            );
            n + 1 <= u32::MAX ==> value_at(twice, n + 1, leaf) == value_at(stream, x.0 as int, leaf)
        }),
{
    let n = stream.len() as int;
    let once = stream.push(SdfInstruction::Invert { input: x, output: Register(n as u32) });
    let twice = once.push(
        SdfInstruction::Invert { input: Register(n as u32), output: Register((n + 1) as u32) },
    );
    if n + 1 <= u32::MAX {
        assert(once.subrange(0, n) =~= stream);
        assert(twice.subrange(0, n + 1) =~= once);
        lemma_value_stable(once, twice, n, leaf);
        lemma_value_stable(stream, once, x.0 as int, leaf);
        assert(value_at(once, n, leaf) == -value_at(once, x.0 as int, leaf));
        assert(value_at(twice, n + 1, leaf) == -value_at(twice, n, leaf));
    }
}

/// A union of one shape is that shape.
pub proof fn law_union_single(
    stream: Seq<SdfInstruction>,
    union: SdfInstruction,
    x: Register,
    leaf: spec_fn(int) -> int,
)
    requires
        x.0 < stream.len(),
        union matches SdfInstruction::Union { shapes, .. } && shapes@ == seq![x],
    ensures
        value_at(stream.push(union), stream.len() as int, leaf) == value_at(
            stream,
            x.0 as int,
            leaf,
        ),
{
    let n = stream.len() as int;
    let after = stream.push(union);
    assert(after.subrange(0, n) =~= stream);
    lemma_value_stable(stream, after, x.0 as int, leaf);
    assert(after[n] == union);
    let shapes = union->Union_shapes;
    let values = input_values(after, shapes@, n, leaf);
    assert(values.len() == 1);
    assert(values[0] == value_at(after, x.0 as int, leaf));
}

/// An intersection of one shape is that shape.
pub proof fn law_intersection_single(
    stream: Seq<SdfInstruction>,
    intersection: SdfInstruction,
    x: Register,
    leaf: spec_fn(int) -> int,
)
    requires
        x.0 < stream.len(),
        intersection matches SdfInstruction::Intersection { shapes, .. } && shapes@ == seq![x],
    ensures
        value_at(stream.push(intersection), stream.len() as int, leaf) == value_at(
            stream,
            x.0 as int,
            leaf,
        ),
{
    let n = stream.len() as int;
    let after = stream.push(intersection);
    assert(after.subrange(0, n) =~= stream);
    lemma_value_stable(stream, after, x.0 as int, leaf);
    assert(after[n] == intersection);
    let shapes = intersection->Intersection_shapes;
    let values = input_values(after, shapes@, n, leaf);
    assert(values.len() == 1);
    assert(values[0] == value_at(after, x.0 as int, leaf));
}

/// Subtracting `y` from `x` is intersecting `x` with the inverse of `y`.
pub proof fn law_subtract_as_intersection(
    stream: Seq<SdfInstruction>,
    intersection: SdfInstruction,
    x: Register,
    y: Register,
    leaf: spec_fn(int) -> int,
)
    requires
        x.0 < stream.len(),
        y.0 < stream.len(),
        stream.len() + 1 <= u32::MAX,
        intersection matches SdfInstruction::Intersection { shapes, .. } && shapes@ == seq![
            x,
            Register(stream.len() as u32),
        ],
    ensures
        ({
            let n = stream.len() as int;
            let subtracted = stream.push(
                SdfInstruction::Subtract { left: x, right: y, output: Register(n as u32) },
            );
            let intersected = stream.push(
                SdfInstruction::Invert { input: y, output: Register(n as u32) },
            ).push(intersection);
            value_at(subtracted, n, leaf) == value_at(intersected, n + 1, leaf)
        }),
{
    let n = stream.len() as int;
    let subtracted = stream.push(
        SdfInstruction::Subtract { left: x, right: y, output: Register(n as u32) },
    );
    let inverted = stream.push(SdfInstruction::Invert { input: y, output: Register(n as u32) });
    let intersected = inverted.push(intersection);
    assert(subtracted.subrange(0, n) =~= stream);
    assert(inverted.subrange(0, n) =~= stream);
    assert(intersected.subrange(0, n + 1) =~= inverted);
    assert(intersected.subrange(0, n) =~= stream);
    lemma_value_stable(stream, subtracted, x.0 as int, leaf);
    lemma_value_stable(stream, subtracted, y.0 as int, leaf);
    lemma_value_stable(stream, inverted, y.0 as int, leaf);
    lemma_value_stable(stream, intersected, x.0 as int, leaf);
    lemma_value_stable(inverted, intersected, n, leaf);
    assert(value_at(inverted, n, leaf) == -value_at(stream, y.0 as int, leaf));
    let shapes = intersection->Intersection_shapes;
    let values = input_values(intersected, shapes@, n + 1, leaf);
    reveal_with_fuel(greatest, 3);
    assert(values.len() == 2);
    assert(values.drop_last().len() == 1);
    assert(values.drop_last()[0] == values[0]);
    assert(values[0] == value_at(stream, x.0 as int, leaf));
    assert(values[1] == -value_at(stream, y.0 as int, leaf));
    assert(greatest(values) == max_of(values[0], values[1]));
    assert(intersected[n + 1] == intersection);
}

/// The boundary distance of `x` is the intersection of `x` with its own
/// inverse.
pub proof fn law_edge_as_intersection(
    stream: Seq<SdfInstruction>,
    intersection: SdfInstruction,
    x: Register,
    leaf: spec_fn(int) -> int,
)
    requires
        x.0 < stream.len(),
        stream.len() + 1 <= u32::MAX,
        intersection matches SdfInstruction::Intersection { shapes, .. } && shapes@ == seq![
            x,
            Register(stream.len() as u32),
        ],
    ensures
        ({
            let n = stream.len() as int;
            let edged = stream.push(SdfInstruction::Edge { input: x, output: Register(n as u32) });
            let intersected = stream.push(
                SdfInstruction::Invert { input: x, output: Register(n as u32) },
            ).push(intersection);
            value_at(edged, n, leaf) == value_at(intersected, n + 1, leaf)
        }),
{
    let n = stream.len() as int;
    let edged = stream.push(SdfInstruction::Edge { input: x, output: Register(n as u32) });
    let inverted = stream.push(SdfInstruction::Invert { input: x, output: Register(n as u32) });
    let intersected = inverted.push(intersection);
    assert(edged.subrange(0, n) =~= stream);
    assert(inverted.subrange(0, n) =~= stream);
    assert(intersected.subrange(0, n + 1) =~= inverted);
    assert(intersected.subrange(0, n) =~= stream);
    lemma_value_stable(stream, edged, x.0 as int, leaf);
    lemma_value_stable(stream, inverted, x.0 as int, leaf);
    lemma_value_stable(stream, intersected, x.0 as int, leaf);
    lemma_value_stable(inverted, intersected, n, leaf);
    assert(value_at(inverted, n, leaf) == -value_at(stream, x.0 as int, leaf));
    let shapes = intersection->Intersection_shapes;
    let values = input_values(intersected, shapes@, n + 1, leaf);
    reveal_with_fuel(greatest, 3);
    assert(values.len() == 2);
    assert(values.drop_last().len() == 1);
    assert(values.drop_last()[0] == values[0]);
    assert(values[0] == value_at(stream, x.0 as int, leaf));
    assert(values[1] == -value_at(stream, x.0 as int, leaf));
    assert(greatest(values) == max_of(values[0], values[1]));
    assert(intersected[n + 1] == intersection);
}

/// Dilating by a non-negative amount never shrinks the negative region:
/// wherever `x` is negative, so is its dilation.
pub proof fn law_dilate_monotone(
    stream: Seq<SdfInstruction>,
    x: Register,
    amount: Centimeters,
    leaf: spec_fn(int) -> int,
)
    requires
        x.0 < stream.len(),
        amount@ >= 0,
    ensures
        ({
            let n = stream.len() as int;
            let dilated = stream.push(
                SdfInstruction::Dilate { input: x, amount, output: Register(n as u32) },
            );
            &&& value_at(dilated, n, leaf) == value_at(stream, x.0 as int, leaf) - amount@
            &&& value_at(stream, x.0 as int, leaf) < 0 ==> value_at(dilated, n, leaf) < 0
        }),
{
    let n = stream.len() as int;
    let dilated = stream.push(
        SdfInstruction::Dilate { input: x, amount, output: Register(n as u32) },
    );
    assert(dilated.subrange(0, n) =~= stream);
    lemma_value_stable(stream, dilated, x.0 as int, leaf);
}

} // verus!
