//! The disc around a position.

use vstd::prelude::*;

use crate::shape::compiler::{SdfCompiler, Shape};
use crate::shape::instruction::{lemma_appends_then, Operation, Register};
use crate::shape::types::{Centimeters, Position};

verus! {

/// Everything within `radius` of `center`.
#[derive(Clone, Copy, Debug, PartialEq, Eq, Structural)]
pub struct Circle {
    pub center: Position,
    pub radius: Centimeters,
}

/// The operations of a circle on a stream of `base` instructions: the
/// distance to the center, dilated by the radius.
pub open spec fn circle_operations(center: Position, radius: Centimeters, base: nat) -> Seq<
    Operation,
> {
    seq![
        Operation::Point { position: center },
        Operation::Dilate { input: Register(base as u32), amount: radius },
    ]
}

impl Circle {
    pub fn new(center: Position, radius: Centimeters) -> (circle: Self)
        ensures
            circle.center == center,
            circle.radius == radius,
    {
        Circle { center, radius }
    }
}

impl Shape for Circle {
    open spec fn buildable(&self) -> bool {
        self.radius@ >= 0
    }

    open spec fn operations(&self, base: nat) -> Seq<Operation> {
        circle_operations(self.center, self.radius, base)
    }

    fn build_into(&self, compiler: &mut SdfCompiler) -> (result: Register) {
        let ghost start = compiler@;
        let center = compiler.point(self.center);
        let ghost middle = compiler@;
        let circle = compiler.dilate(center, self.radius);
        proof {
            lemma_appends_then(
                start,
                middle,
                compiler@,
                seq![Operation::Point { position: self.center }],
                seq![Operation::Dilate { input: center, amount: self.radius }],
            );
            assert(circle_operations(self.center, self.radius, start.len()) =~= seq![
                Operation::Point { position: self.center },
            ] + seq![Operation::Dilate { input: center, amount: self.radius }]);
        }
        circle
    }
}

} // verus!
