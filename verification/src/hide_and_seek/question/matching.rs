//! "Is your nearest place of this kind the same as mine?"

use vstd::prelude::*;

use crate::hide_and_seek::question::context::{poi_category_named, QuestionContext};
use crate::hide_and_seek::question::tentacle::{
    lemma_positions_except_len, other_positions, positions_except, unknown_place_message,
};
use crate::hide_and_seek::question::{AnyQuestion, Question, ShapeError, ShapeErrorClass};
use crate::search::{first_match, lemma_first_match};
use crate::shape::compiler::{SdfCompiler, Shape};
use crate::shape::instruction::{
    lemma_appends_then, BoundaryOverlapResolution, Operation, Register,
};

verus! {

/// The kind of place that is compared.
#[derive(Clone, Copy, Debug, PartialEq, Eq, Structural)]
pub enum MatchingTarget {
    CommercialAirport,
    Mountain,
    Park,
    AmusementPark,
    Zoo,
    Aquarium,
    GolfCourse,
    Museum,
    MovieTheater,
    Hospital,
    Library,
    ForeignConsulate,
}

impl MatchingTarget {
    /// The name of the target's category of points of interest.
    pub open spec fn category_key(&self) -> Seq<char> {
        match *self {
            MatchingTarget::CommercialAirport => "airport"@,
            MatchingTarget::Mountain => "mountain"@,
            MatchingTarget::Park => "park"@,
            MatchingTarget::AmusementPark => "amusement_park"@,
            MatchingTarget::Zoo => "zoo"@,
            MatchingTarget::Aquarium => "aquarium"@,
            MatchingTarget::GolfCourse => "golf_course"@,
            MatchingTarget::Museum => "museum"@,
            MatchingTarget::MovieTheater => "movie_theater"@,
            MatchingTarget::Hospital => "hospital"@,
            MatchingTarget::Library => "library"@,
            MatchingTarget::ForeignConsulate => "foreign_consulate"@,
        }
    }

    /// The name shown to the user of the data bundle that holds the
    /// target's data.
    pub open spec fn dataset_name(&self) -> Seq<char> {
        match *self {
            MatchingTarget::CommercialAirport => "Airports"@,
            MatchingTarget::Mountain => "Mountains"@,
            MatchingTarget::Park => "Parks"@,
            MatchingTarget::AmusementPark => "Amusement Parks"@,
            MatchingTarget::Zoo => "Zoos"@,
            MatchingTarget::Aquarium => "Aquariums"@,
            MatchingTarget::GolfCourse => "Golf Courses"@,
            MatchingTarget::Museum => "Museums"@,
            MatchingTarget::MovieTheater => "Movie Theaters"@,
            MatchingTarget::Hospital => "Hospitals"@,
            MatchingTarget::Library => "Libraries"@,
            MatchingTarget::ForeignConsulate => "Foreign Consulates"@,
        }
    }

    /// Computes [`MatchingTarget::category_key`].
    pub fn key(&self) -> (key: &'static str)
        ensures
            key@ == self.category_key(),
    {
        match self {
            MatchingTarget::CommercialAirport => "airport",
            MatchingTarget::Mountain => "mountain",
            MatchingTarget::Park => "park",
            MatchingTarget::AmusementPark => "amusement_park",
            MatchingTarget::Zoo => "zoo",
            MatchingTarget::Aquarium => "aquarium",
            MatchingTarget::GolfCourse => "golf_course",
            MatchingTarget::Museum => "museum",
            MatchingTarget::MovieTheater => "movie_theater",
            MatchingTarget::Hospital => "hospital",
            MatchingTarget::Library => "library",
            MatchingTarget::ForeignConsulate => "foreign_consulate",
        }
    }

    /// Computes [`MatchingTarget::dataset_name`].
    pub fn nice_name(&self) -> (name: &'static str)
        ensures
            name@ == self.dataset_name(),
    {
        match self {
            MatchingTarget::CommercialAirport => "Airports",
            MatchingTarget::Mountain => "Mountains",
            MatchingTarget::Park => "Parks",
            MatchingTarget::AmusementPark => "Amusement Parks",
            MatchingTarget::Zoo => "Zoos",
            MatchingTarget::Aquarium => "Aquariums",
            MatchingTarget::GolfCourse => "Golf Courses",
            MatchingTarget::Museum => "Museums",
            MatchingTarget::MovieTheater => "Movie Theaters",
            MatchingTarget::Hospital => "Hospitals",
            MatchingTarget::Library => "Libraries",
            MatchingTarget::ForeignConsulate => "Foreign Consulates",
        }
    }
}

/// Whether the hider's nearest place of kind `category` is `nearest_id`,
/// the seeker's nearest.
#[derive(Debug)]
pub struct MatchingQuestion {
    pub category: MatchingTarget,
    pub nearest_id: String,
}

#[derive(Clone, Copy, Debug, PartialEq, Eq, Structural)]
pub enum MatchingQuestionAnswer {
    Same,
    Different,
}

/// An answered matching question.
#[derive(Debug)]
pub struct MatchingQuestionShape<'a> {
    pub question: MatchingQuestion,
    pub answer: MatchingQuestionAnswer,
    pub context: &'a QuestionContext,
}

/// The operations of an answered matching question on a stream of `base`
/// instructions: the Voronoi cell of the seeker's place, which is the
/// region nearer to that place than to any other of its kind; complemented
/// for `Different`.
///
/// The cell is written with the boundary operator, the distance to the
/// place inside and the distance to all other places outside. Its value is
/// that of subtracting the second from the first, `max(inside, -outside)`;
/// where the two overlap, on the shared edge of two cells, the policy
/// `Inside` counts the edge to the cell.
pub open spec fn matching_operations(
    question: MatchingQuestion,
    answer: MatchingQuestionAnswer,
    context: &QuestionContext,
    base: nat,
) -> Seq<Operation> {
    let key = question.category.category_key();
    let cell = seq![
        Operation::PointCloud {
            points: positions_except(context.pois_of(key).unwrap(), question.nearest_id@),
        },
        Operation::Point { position: context.poi_of(key, question.nearest_id@).unwrap().position },
        Operation::Boundary {
            inside: Register((base + 1) as u32),
            outside: Register(base as u32),
            resolution: BoundaryOverlapResolution::Inside,
        },
    ];
    match answer {
        MatchingQuestionAnswer::Same => cell,
        MatchingQuestionAnswer::Different => cell + seq![
            Operation::Invert { input: Register((base + 2) as u32) },
        ],
    }
}

impl<'a> Shape for MatchingQuestionShape<'a> {
    open spec fn buildable(&self) -> bool {
        &&& self.context.wf()
        &&& self.context.poi_of(self.question.category.category_key(), self.question.nearest_id@).is_some()
    }

    open spec fn operations(&self, base: nat) -> Seq<Operation> {
        matching_operations(self.question, self.answer, self.context, base)
    }

    fn build_into(&self, compiler: &mut SdfCompiler) -> (result: Register) {
        let ghost start = compiler@;
        let ghost base = start.len();
        let key = self.question.category.key();
        let id = self.question.nearest_id.as_str();
        let pois = self.context.get_all_pois(key).unwrap();
        let chosen = self.context.get_poi(key, id).unwrap();
        let others = other_positions(pois, id);
        proof {
            let categories = self.context.poi_categories@;
            let named = poi_category_named(key@);
            lemma_first_match(categories, named);
            assert(categories[first_match(categories, named)].pois@ == pois@);
            lemma_positions_except_len(pois@, id@);
        }
        let ghost other_points = others@;
        let other = compiler.point_cloud(others);
        let ghost s1 = compiler@;
        let place = compiler.point(chosen.position);
        let ghost s2 = compiler@;
        let cell = compiler.boundary(place, other, BoundaryOverlapResolution::Inside);
        let ghost a = seq![Operation::PointCloud { points: other_points }];
        let ghost b = seq![Operation::Point { position: chosen.position }];
        let ghost c = seq![
            Operation::Boundary {
                inside: place,
                outside: other,
                resolution: BoundaryOverlapResolution::Inside,
            },
        ];
        proof {
            lemma_appends_then(start, s1, s2, a, b);
            lemma_appends_then(start, s2, compiler@, a + b, c);
        }
        match self.answer {
            MatchingQuestionAnswer::Same => {
                proof {
                    assert((a + b) + c =~= matching_operations(
                        self.question,
                        self.answer,
                        self.context,
                        base,
                    ));
                }
                cell
            },
            MatchingQuestionAnswer::Different => {
                let ghost s3 = compiler@;
                let inverted = compiler.invert(cell);
                proof {
                    let d = seq![Operation::Invert { input: cell }];
                    lemma_appends_then(start, s3, compiler@, (a + b) + c, d);
                    assert(((a + b) + c) + d =~= matching_operations(
                        self.question,
                        self.answer,
                        self.context,
                        base,
                    ));
                }
                inverted
            },
        }
    }
}

impl<'a> Question<'a> for MatchingQuestion {
    type Answer = MatchingQuestionAnswer;

    type Built = MatchingQuestionShape<'a>;

    fn to_any(self) -> (any: AnyQuestion)
        ensures
            any == AnyQuestion::Matching(self),
    {
        AnyQuestion::Matching(self)
    }

    /// The shape of the answered question. Fails with `MissingData` naming
    /// the data bundle when the context lacks the category, and with
    /// `InvalidParameters` when the seeker's place is not part of it.
    fn to_shape(self, answer: MatchingQuestionAnswer, context: &'a QuestionContext) -> (result:
        Result<MatchingQuestionShape<'a>, ShapeError>)
        ensures
            match result {
                Ok(shape) => {
                    &&& context.poi_of(self.category.category_key(), self.nearest_id@).is_some()
                    &&& shape.question == self
                    &&& shape.answer == answer
                    &&& shape.context == context
                },
                Err(error) => {
                    if context.pois_of(self.category.category_key()).is_none() {
                        error.is_missing_data(self.category.dataset_name())
                    } else {
                        &&& context.poi_of(self.category.category_key(), self.nearest_id@).is_none()
                        &&& error.is(
                            ShapeErrorClass::InvalidParameters,
                            unknown_place_message(),
                            None,
                        )
                    }
                },
            },
    {
        if !context.has_poi_category(self.category.key()) {
            return Err(ShapeError::missing_data(self.category.nice_name()));
        }
        if context.get_poi(self.category.key(), self.nearest_id.as_str()).is_none() {
            return Err(ShapeError::invalid_parameters("The closest place is not part of the map."));
        }
        Ok(MatchingQuestionShape { question: self, answer, context })
    }
}

} // verus!
