//! The great-circle polyline through a list of positions.

use vstd::prelude::*;

use crate::shape::compiler::{SdfCompiler, Shape};
use crate::shape::instruction::{Operation, Register};
use crate::shape::types::Position;

verus! {

/// The polyline whose legs are great-circle arcs between consecutive
/// `positions`.
#[derive(Debug)]
pub struct Geodesic {
    pub positions: Vec<Position>,
}

impl Geodesic {
    pub fn new(positions: Vec<Position>) -> (geodesic: Self)
        ensures
            geodesic.positions@ == positions@,
    {
        Geodesic { positions }
    }
}

impl Shape for Geodesic {
    open spec fn buildable(&self) -> bool {
        true
    }

    open spec fn operations(&self, base: nat) -> Seq<Operation> {
        seq![Operation::Geodesic { path: self.positions@ }]
    }

    fn build_into(&self, compiler: &mut SdfCompiler) -> (result: Register) {
        let positions = self.positions.clone();
        assert(positions@ =~= self.positions@);
        compiler.geodesic_string(positions)
    }
}

} // verus!
