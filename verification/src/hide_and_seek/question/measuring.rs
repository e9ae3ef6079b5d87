//! "Compared to me, are you closer to or further from this?"

use vstd::pervasive::unreached;
use vstd::prelude::*;

use crate::hide_and_seek::question::context::{
    centers_of, complex_centers, poi_category_named, poi_positions, positions_of,
    QuestionContext, RailLine, MAX_RAIL_LINES,
};
use crate::search::{first_match, lemma_first_match};
use crate::hide_and_seek::question::{AnyQuestion, Question, ShapeError, ShapeErrorClass};
use crate::shape::compiler::{empty_union_message, SdfCompiler, Shape};
use crate::shape::instruction::{
    appends, lemma_appends_nothing, lemma_appends_then, Operation, Register,
};
use crate::shape::types::Centimeters;

verus! {

/// What the distance is measured to.
#[derive(Clone, Copy, Debug, PartialEq, Eq, Structural)]
pub enum MeasuringTarget {
    CommercialAirport,
    HighSpeedRailLine,
    RailStation,
    InternationalBorder,
    FirstAdministrativeDivisionBorder,
    SecondAdministrativeDivisionBorder,
    SeaLevel,
    BodyOfWater,
    Coastline,
    Mountain,
    Park,
    AmusementPark,
    Zoo,
    Aquarium,
    GolfCourse,
    Museum,
    MovieTheater,
    Hospital,
    Library,
    ForeignConsulate,
}

/// Where the distance field of a target comes from.
#[derive(Clone, Copy, Debug, PartialEq, Eq, Structural)]
pub enum MeasuringSource {
    /// The point cloud of a category of points of interest.
    PointsOfInterest,
    /// The boundary of the areas of a category.
    Areas,
    /// The union of the high-speed rail lines.
    RailLines,
    /// The point cloud of the centers of all station complexes.
    RailStations,
    /// The sea-level contour texture; the distance is then an altitude.
    SeaLevelContour,
}

impl MeasuringTarget {
    /// Where the distance field of the target comes from.
    pub open spec fn source(&self) -> MeasuringSource {
        match *self {
            MeasuringTarget::CommercialAirport => MeasuringSource::PointsOfInterest,
            MeasuringTarget::HighSpeedRailLine => MeasuringSource::RailLines,
            MeasuringTarget::RailStation => MeasuringSource::RailStations,
            MeasuringTarget::InternationalBorder => MeasuringSource::Areas,
            MeasuringTarget::FirstAdministrativeDivisionBorder => MeasuringSource::Areas,
            MeasuringTarget::SecondAdministrativeDivisionBorder => MeasuringSource::Areas,
            MeasuringTarget::SeaLevel => MeasuringSource::SeaLevelContour,
            MeasuringTarget::BodyOfWater => MeasuringSource::Areas,
            MeasuringTarget::Coastline => MeasuringSource::Areas,
            MeasuringTarget::Mountain => MeasuringSource::PointsOfInterest,
            MeasuringTarget::Park => MeasuringSource::PointsOfInterest,
            MeasuringTarget::AmusementPark => MeasuringSource::PointsOfInterest,
            MeasuringTarget::Zoo => MeasuringSource::PointsOfInterest,
            MeasuringTarget::Aquarium => MeasuringSource::PointsOfInterest,
            MeasuringTarget::GolfCourse => MeasuringSource::PointsOfInterest,
            MeasuringTarget::Museum => MeasuringSource::PointsOfInterest,
            MeasuringTarget::MovieTheater => MeasuringSource::PointsOfInterest,
            MeasuringTarget::Hospital => MeasuringSource::PointsOfInterest,
            MeasuringTarget::Library => MeasuringSource::PointsOfInterest,
            MeasuringTarget::ForeignConsulate => MeasuringSource::PointsOfInterest,
        }
    }

    /// The name of the target's category in the context; empty where the
    /// target has no category.
    pub open spec fn category_key(&self) -> Seq<char> {
        match *self {
            MeasuringTarget::CommercialAirport => "airport"@,
            MeasuringTarget::HighSpeedRailLine => ""@,
            MeasuringTarget::RailStation => ""@,
            MeasuringTarget::InternationalBorder => "international_border"@,
            MeasuringTarget::FirstAdministrativeDivisionBorder => "first_administrative_division"@,
            MeasuringTarget::SecondAdministrativeDivisionBorder => "second_administrative_division"@,
            MeasuringTarget::SeaLevel => ""@,
            MeasuringTarget::BodyOfWater => "water_body"@,
            MeasuringTarget::Coastline => "landmass"@,
            MeasuringTarget::Mountain => "mountain"@,
            MeasuringTarget::Park => "park"@,
            MeasuringTarget::AmusementPark => "amusement_park"@,
            MeasuringTarget::Zoo => "zoo"@,
            MeasuringTarget::Aquarium => "aquarium"@,
            MeasuringTarget::GolfCourse => "golf_course"@,
            MeasuringTarget::Museum => "museum"@,
            MeasuringTarget::MovieTheater => "movie_theater"@,
            MeasuringTarget::Hospital => "hospital"@,
            MeasuringTarget::Library => "library"@,
            MeasuringTarget::ForeignConsulate => "foreign_consulate"@,
        }
    }

    /// The name shown to the user of the data bundle that holds the
    /// target's data; empty where the target needs none.
    pub open spec fn dataset_name(&self) -> Seq<char> {
        match *self {
            MeasuringTarget::CommercialAirport => "Airports"@,
            MeasuringTarget::HighSpeedRailLine => "High-Speed Rail Lines"@,
            MeasuringTarget::RailStation => ""@,
            MeasuringTarget::InternationalBorder => "Administrative Divisions"@,
            MeasuringTarget::FirstAdministrativeDivisionBorder => "Administrative Divisions"@,
            MeasuringTarget::SecondAdministrativeDivisionBorder => "Administrative Divisions"@,
            MeasuringTarget::SeaLevel => "Sea Level Contour Texture"@,
            MeasuringTarget::BodyOfWater => "Water Bodies"@,
            MeasuringTarget::Coastline => "Landmasses"@,
            MeasuringTarget::Mountain => "Mountains"@,
            MeasuringTarget::Park => "Parks"@,
            MeasuringTarget::AmusementPark => "Amusement Parks"@,
            MeasuringTarget::Zoo => "Zoos"@,
            MeasuringTarget::Aquarium => "Aquariums"@,
            MeasuringTarget::GolfCourse => "Golf Courses"@,
            MeasuringTarget::Museum => "Museums"@,
            MeasuringTarget::MovieTheater => "Movie Theaters"@,
            MeasuringTarget::Hospital => "Hospitals"@,
            MeasuringTarget::Library => "Libraries"@,
            MeasuringTarget::ForeignConsulate => "Foreign Consulates"@,
        }
    }

    /// Whether `context` holds the data the target needs.
    pub open spec fn available_in(&self, context: &QuestionContext) -> bool {
        match self.source() {
            MeasuringSource::PointsOfInterest => context.pois_of(self.category_key()).is_some(),
            MeasuringSource::Areas => context.diagram_of(self.category_key()).is_some(),
            MeasuringSource::RailLines => context.rail_lines.is_some(),
            MeasuringSource::RailStations => true,
            MeasuringSource::SeaLevelContour => context.contour_texture.is_some(),
        }
    }

    /// Computes [`MeasuringTarget::source`].
    pub fn kind(&self) -> (source: MeasuringSource)
        ensures
            source == self.source(),
    {
        match self {
            MeasuringTarget::CommercialAirport => MeasuringSource::PointsOfInterest,
            MeasuringTarget::HighSpeedRailLine => MeasuringSource::RailLines,
            MeasuringTarget::RailStation => MeasuringSource::RailStations,
            MeasuringTarget::InternationalBorder => MeasuringSource::Areas,
            MeasuringTarget::FirstAdministrativeDivisionBorder => MeasuringSource::Areas,
            MeasuringTarget::SecondAdministrativeDivisionBorder => MeasuringSource::Areas,
            MeasuringTarget::SeaLevel => MeasuringSource::SeaLevelContour,
            MeasuringTarget::BodyOfWater => MeasuringSource::Areas,
            MeasuringTarget::Coastline => MeasuringSource::Areas,
            MeasuringTarget::Mountain => MeasuringSource::PointsOfInterest,
            MeasuringTarget::Park => MeasuringSource::PointsOfInterest,
            MeasuringTarget::AmusementPark => MeasuringSource::PointsOfInterest,
            MeasuringTarget::Zoo => MeasuringSource::PointsOfInterest,
            MeasuringTarget::Aquarium => MeasuringSource::PointsOfInterest,
            MeasuringTarget::GolfCourse => MeasuringSource::PointsOfInterest,
            MeasuringTarget::Museum => MeasuringSource::PointsOfInterest,
            MeasuringTarget::MovieTheater => MeasuringSource::PointsOfInterest,
            MeasuringTarget::Hospital => MeasuringSource::PointsOfInterest,
            MeasuringTarget::Library => MeasuringSource::PointsOfInterest,
            MeasuringTarget::ForeignConsulate => MeasuringSource::PointsOfInterest,
        }
    }

    /// Computes [`MeasuringTarget::category_key`].
    pub fn key(&self) -> (key: &'static str)
        ensures
            key@ == self.category_key(),
    {
        match self {
            MeasuringTarget::CommercialAirport => "airport",
            MeasuringTarget::HighSpeedRailLine => "",
            MeasuringTarget::RailStation => "",
            MeasuringTarget::InternationalBorder => "international_border",
            MeasuringTarget::FirstAdministrativeDivisionBorder => "first_administrative_division",
            MeasuringTarget::SecondAdministrativeDivisionBorder => "second_administrative_division",
            MeasuringTarget::SeaLevel => "",
            MeasuringTarget::BodyOfWater => "water_body",
            MeasuringTarget::Coastline => "landmass",
            MeasuringTarget::Mountain => "mountain",
            MeasuringTarget::Park => "park",
            MeasuringTarget::AmusementPark => "amusement_park",
            MeasuringTarget::Zoo => "zoo",
            MeasuringTarget::Aquarium => "aquarium",
            MeasuringTarget::GolfCourse => "golf_course",
            MeasuringTarget::Museum => "museum",
            MeasuringTarget::MovieTheater => "movie_theater",
            MeasuringTarget::Hospital => "hospital",
            MeasuringTarget::Library => "library",
            MeasuringTarget::ForeignConsulate => "foreign_consulate",
        }
    }

    /// Computes [`MeasuringTarget::dataset_name`].
    pub fn nice_name(&self) -> (name: &'static str)
        ensures
            name@ == self.dataset_name(),
    {
        match self {
            MeasuringTarget::CommercialAirport => "Airports",
            MeasuringTarget::HighSpeedRailLine => "High-Speed Rail Lines",
            MeasuringTarget::RailStation => "",
            MeasuringTarget::InternationalBorder => "Administrative Divisions",
            MeasuringTarget::FirstAdministrativeDivisionBorder => "Administrative Divisions",
            MeasuringTarget::SecondAdministrativeDivisionBorder => "Administrative Divisions",
            MeasuringTarget::SeaLevel => "Sea Level Contour Texture",
            MeasuringTarget::BodyOfWater => "Water Bodies",
            MeasuringTarget::Coastline => "Landmasses",
            MeasuringTarget::Mountain => "Mountains",
            MeasuringTarget::Park => "Parks",
            MeasuringTarget::AmusementPark => "Amusement Parks",
            MeasuringTarget::Zoo => "Zoos",
            MeasuringTarget::Aquarium => "Aquariums",
            MeasuringTarget::GolfCourse => "Golf Courses",
            MeasuringTarget::Museum => "Museums",
            MeasuringTarget::MovieTheater => "Movie Theaters",
            MeasuringTarget::Hospital => "Hospitals",
            MeasuringTarget::Library => "Libraries",
            MeasuringTarget::ForeignConsulate => "Foreign Consulates",
        }
    }

    /// Decides [`MeasuringTarget::available_in`].
    pub fn is_available_in(&self, context: &QuestionContext) -> (available: bool)
        ensures
            available == self.available_in(context),
    {
        match self.kind() {
            MeasuringSource::PointsOfInterest => context.has_poi_category(self.key()),
            MeasuringSource::Areas => context.has_area_category(self.key()),
            MeasuringSource::RailLines => context.has_high_speed_rail_line_data(),
            MeasuringSource::RailStations => true,
            MeasuringSource::SeaLevelContour => context.has_sea_level_contour_texture(),
        }
    }
}

/// Whether the hider is closer to or further from the nearest `category`
/// than `distance`. For [`MeasuringTarget::SeaLevel`] the distance is an
/// altitude.
#[derive(Clone, Copy, Debug, PartialEq, Eq, Structural)]
pub struct MeasuringQuestion {
    pub category: MeasuringTarget,
    pub distance: Centimeters,
}

#[derive(Clone, Copy, Debug, PartialEq, Eq, Structural)]
pub enum MeasuringQuestionAnswer {
    /// There was nothing to measure to; constrains nothing.
    Null,
    Closer,
    Further,
}

/// An answered measuring question.
#[derive(Debug)]
pub struct MeasuringQuestionShape<'a> {
    pub question: MeasuringQuestion,
    pub answer: MeasuringQuestionAnswer,
    pub context: &'a QuestionContext,
}

/// The message of the error for a null answer.
pub open spec fn no_entropy_message() -> Seq<char> {
    "No POIs available to answer Measuring Question."@
}

/// The hint of the error for a null answer.
pub open spec fn no_entropy_hint() -> Seq<char> {
    "Your game map should include POIs for this category."@
}

/// The message of the error for a negative distance.
pub open spec fn negative_distance_message() -> Seq<char> {
    "The distance must not be negative."@
}

/// One geodesic per rail line, in order.
pub open spec fn rail_line_operations(lines: Seq<RailLine>) -> Seq<Operation> {
    Seq::new(lines.len(), |i: int| Operation::Geodesic { path: lines[i].positions@ })
}

/// The registers `base, base + 1, .., base + count - 1`.
pub open spec fn consecutive_registers(base: nat, count: nat) -> Seq<Register> {
    Seq::new(count, |i: int| Register((base + i) as u32))
}

/// The operations that compute the unsigned distance to `target` on a
/// stream of `base` instructions. Empty for the sea-level contour, which
/// has no such field.
pub open spec fn distance_field_operations(
    target: MeasuringTarget,
    context: &QuestionContext,
    base: nat,
) -> Seq<Operation> {
    match target.source() {
        MeasuringSource::PointsOfInterest => seq![
            Operation::PointCloud {
                points: poi_positions(context.pois_of(target.category_key()).unwrap()),
            },
        ],
        MeasuringSource::RailStations => seq![
            Operation::PointCloud { points: complex_centers(context.transit.complexes@) },
        ],
        MeasuringSource::Areas => seq![
            Operation::LoadVdg { diagram: context.diagram_of(target.category_key()).unwrap() },
            Operation::Edge { input: Register(base as u32) },
        ],
        MeasuringSource::RailLines => {
            let lines = context.rail_lines.unwrap()@;
            rail_line_operations(lines) + seq![
                Operation::Union { shapes: consecutive_registers(base, lines.len()) },
            ]
        },
        MeasuringSource::SeaLevelContour => Seq::empty(),
    }
}

/// The operations of the region that `answer` leaves open, before a
/// complement is taken: the contour less the altitude for sea level, the
/// distance field dilated by the distance for everything else.
pub open spec fn closer_operations(
    question: MeasuringQuestion,
    context: &QuestionContext,
    base: nat,
) -> Seq<Operation> {
    if question.category.source() == MeasuringSource::SeaLevelContour {
        seq![
            Operation::ContourTexture {
                texture: context.contour_texture.unwrap(),
                zero: question.distance,
            },
        ]
    } else {
        let field = distance_field_operations(question.category, context, base);
        field + seq![
            Operation::Dilate {
                input: Register((base + field.len() - 1) as u32),
                amount: question.distance,
            },
        ]
    }
}

/// The operations of an answered measuring question on a stream of `base`
/// instructions: the closer region, complemented for `Further`.
pub open spec fn measuring_operations(
    question: MeasuringQuestion,
    answer: MeasuringQuestionAnswer,
    context: &QuestionContext,
    base: nat,
) -> Seq<Operation> {
    let closer = closer_operations(question, context, base);
    if answer == MeasuringQuestionAnswer::Further {
        closer + seq![Operation::Invert { input: Register((base + closer.len() - 1) as u32) }]
    } else {
        closer
    }
}

/// Whether the question defines a region in `context`: a non-negative
/// distance (an altitude may be negative) and, for rail lines, at least one
/// line.
pub open spec fn measuring_parameters_valid(
    question: MeasuringQuestion,
    context: &QuestionContext,
) -> bool {
    match question.category.source() {
        MeasuringSource::SeaLevelContour => true,
        MeasuringSource::RailLines => question.distance@ >= 0 && context.rail_lines.unwrap()@.len()
            > 0,
        _ => question.distance@ >= 0,
    }
}

impl<'a> MeasuringQuestionShape<'a> {
    /// Appends the union of the geodesics of all rail lines.
    fn build_rail_lines(&self, compiler: &mut SdfCompiler, lines: &Vec<RailLine>) -> (result:
        Register)
        requires
            old(compiler).wf(),
            0 < lines@.len() <= MAX_RAIL_LINES,
            old(compiler)@.len() + lines@.len() + 1 <= u32::MAX,
        ensures
            final(compiler).wf(),
            appends(
                old(compiler)@,
                final(compiler)@,
                rail_line_operations(lines@) + seq![
                    Operation::Union {
                        shapes: consecutive_registers(old(compiler)@.len(), lines@.len()),
                    },
                ],
            ),
            result.0 + 1 == final(compiler)@.len(),
    {
        let ghost start = compiler@;
        let ghost base = start.len();
        let mut paths: Vec<Register> = Vec::new();
        let mut i: usize = 0;
        proof {
            lemma_appends_nothing(start);
            assert(rail_line_operations(lines@).subrange(0, 0) =~= Seq::<Operation>::empty());
        }
        while i < lines.len()
            invariant
                i <= lines.len(),
                compiler.wf(),
                base == start.len(),
                base + lines@.len() + 1 <= u32::MAX,
                compiler@.len() == base + i,
                appends(start, compiler@, rail_line_operations(lines@).subrange(0, i as int)),
                paths@ == consecutive_registers(base, i as nat),
            decreases lines.len() - i,
        {
            let ghost before = compiler@;
            let positions = lines[i].positions.clone();
            assert(positions@ =~= lines@[i as int].positions@);
            let path = compiler.geodesic_string(positions);
            paths.push(path);
            proof {
                lemma_appends_then(
                    start,
                    before,
                    compiler@,
                    rail_line_operations(lines@).subrange(0, i as int),
                    seq![Operation::Geodesic { path: lines@[i as int].positions@ }],
                );
                assert(rail_line_operations(lines@).subrange(0, i + 1) =~= rail_line_operations(
                    lines@,
                ).subrange(0, i as int) + seq![
                    Operation::Geodesic { path: lines@[i as int].positions@ },
                ]);
                assert(paths@ =~= consecutive_registers(base, (i + 1) as nat));
            }
            i += 1;
        }
        let ghost middle = compiler@;
        proof {
            assert(rail_line_operations(lines@).subrange(0, lines@.len() as int)
                =~= rail_line_operations(lines@));
            assert forall|k: int| 0 <= k < paths@.len() implies (#[trigger] paths@[k]).0
                < compiler@.len() by {}
        }
        let ghost shapes = paths@;
        match compiler.union(paths) {
            Ok(register) => {
                proof {
                    lemma_appends_then(
                        start,
                        middle,
                        compiler@,
                        rail_line_operations(lines@),
                        seq![Operation::Union { shapes }],
                    );
                }
                register
            },
            Err(_) => unreached(),
        }
    }

    /// Appends the unsigned distance field of the question's target.
    fn build_distance_field(&self, compiler: &mut SdfCompiler) -> (result: Register)
        requires
            old(compiler).wf(),
            self.buildable(),
            self.question.category.source() != MeasuringSource::SeaLevelContour,
            old(compiler)@.len() + distance_field_operations(
                self.question.category,
                self.context,
                old(compiler)@.len(),
            ).len() < u32::MAX,
        ensures
            final(compiler).wf(),
            appends(
                old(compiler)@,
                final(compiler)@,
                distance_field_operations(
                    self.question.category,
                    self.context,
                    old(compiler)@.len(),
                ),
            ),
            result.0 + 1 == final(compiler)@.len(),
            final(compiler)@.len() > old(compiler)@.len(),
    {
        let ghost start = compiler@;
        let target = self.question.category;
        match target.kind() {
            MeasuringSource::PointsOfInterest => {
                let pois = self.context.get_all_pois(target.key()).unwrap();
                proof {
                    let categories = self.context.poi_categories@;
                    let named = poi_category_named(target.category_key());
                    lemma_first_match(categories, named);
                    assert(categories[first_match(categories, named)].pois@ == pois@);
                }
                compiler.point_cloud(positions_of(pois))
            },
            MeasuringSource::RailStations => {
                let complexes = self.context.transit_context().all_complexes();
                compiler.point_cloud(centers_of(complexes))
            },
            MeasuringSource::Areas => {
                let diagram = self.context.get_all_areas_as_vdg(target.key()).unwrap();
                let shape = compiler.with_vdg(diagram);
                let ghost middle = compiler@;
                let edge = compiler.edge(shape);
                proof {
                    lemma_appends_then(
                        start,
                        middle,
                        compiler@,
                        seq![Operation::LoadVdg { diagram }],
                        seq![Operation::Edge { input: shape }],
                    );
                    assert(distance_field_operations(target, self.context, start.len()) =~= seq![
                        Operation::LoadVdg { diagram },
                    ] + seq![Operation::Edge { input: shape }]);
                }
                edge
            },
            MeasuringSource::RailLines => {
                let lines = self.context.high_speed_rail_lines().unwrap();
                self.build_rail_lines(compiler, lines)
            },
            MeasuringSource::SeaLevelContour => unreached(),
        }
    }

    /// Appends the region of a `Closer` answer.
    fn build_closer(&self, compiler: &mut SdfCompiler) -> (result: Register)
        requires
            old(compiler).wf(),
            self.buildable(),
            old(compiler)@.len() + closer_operations(
                self.question,
                self.context,
                old(compiler)@.len(),
            ).len() <= u32::MAX,
        ensures
            final(compiler).wf(),
            appends(
                old(compiler)@,
                final(compiler)@,
                closer_operations(self.question, self.context, old(compiler)@.len()),
            ),
            result.0 + 1 == final(compiler)@.len(),
            final(compiler)@.len() > old(compiler)@.len(),
    {
        let ghost start = compiler@;
        match self.question.category.kind() {
            MeasuringSource::SeaLevelContour => {
                let texture = self.context.sea_level_contour_texture().unwrap();
                let copy = texture.duplicate();
                let contour = compiler.with_contour_texture(copy, self.question.distance);
                proof {
                    let wanted = closer_operations(self.question, self.context, start.len());
                    assert(appends(start, compiler@, wanted));
                }
                contour
            },
            _ => {
                let vdf = self.build_distance_field(compiler);
                let ghost middle = compiler@;
                let dilated = compiler.dilate(vdf, self.question.distance);
                proof {
                    lemma_appends_then(
                        start,
                        middle,
                        compiler@,
                        distance_field_operations(
                            self.question.category,
                            self.context,
                            start.len(),
                        ),
                        seq![Operation::Dilate { input: vdf, amount: self.question.distance }],
                    );
                }
                dilated
            },
        }
    }
}

impl<'a> Shape for MeasuringQuestionShape<'a> {
    open spec fn buildable(&self) -> bool {
        &&& self.context.wf()
        &&& self.answer != MeasuringQuestionAnswer::Null
        &&& self.question.category.available_in(self.context)
        &&& measuring_parameters_valid(self.question, self.context)
    }

    open spec fn operations(&self, base: nat) -> Seq<Operation> {
        measuring_operations(self.question, self.answer, self.context, base)
    }

    fn build_into(&self, compiler: &mut SdfCompiler) -> (result: Register) {
        let ghost start = compiler@;
        let closer = self.build_closer(compiler);
        match self.answer {
            MeasuringQuestionAnswer::Further => {
                let ghost middle = compiler@;
                let inverted = compiler.invert(closer);
                proof {
                    lemma_appends_then(
                        start,
                        middle,
                        compiler@,
                        closer_operations(self.question, self.context, start.len()),
                        seq![Operation::Invert { input: closer }],
                    );
                }
                inverted
            },
            _ => closer,
        }
    }
}

impl<'a> Question<'a> for MeasuringQuestion {
    type Answer = MeasuringQuestionAnswer;

    type Built = MeasuringQuestionShape<'a>;

    fn to_any(self) -> (any: AnyQuestion)
        ensures
            any == AnyQuestion::Measuring(self),
    {
        AnyQuestion::Measuring(self)
    }

    /// The shape of the answered question. Fails, in this order, with
    /// `NoEntropy` on a null answer, with `MissingData` naming the data
    /// bundle when the context lacks the target's data, and with
    /// `InvalidParameters` on a negative distance or an empty set of rail
    /// lines.
    fn to_shape(
        self,
        answer: MeasuringQuestionAnswer,
        context: &'a QuestionContext,
    ) -> (result: Result<MeasuringQuestionShape<'a>, ShapeError>)
        ensures
            match result {
                Ok(shape) => {
                    &&& answer != MeasuringQuestionAnswer::Null
                    &&& self.category.available_in(context)
                    &&& measuring_parameters_valid(self, context)
                    &&& shape.question == self
                    &&& shape.answer == answer
                    &&& shape.context == context
                },
                Err(error) => {
                    if answer == MeasuringQuestionAnswer::Null {
                        error.is(
                            ShapeErrorClass::NoEntropy,
                            no_entropy_message(),
                            Some(no_entropy_hint()),
                        )
                    } else if !self.category.available_in(context) {
                        error.is_missing_data(self.category.dataset_name())
                    } else {
                        &&& !measuring_parameters_valid(self, context)
                        &&& error.class == ShapeErrorClass::InvalidParameters
                        &&& error.resolution_hint.is_none()
                        &&& error.message@ == if self.category.source()
                            != MeasuringSource::SeaLevelContour && self.distance@ < 0 {
                            negative_distance_message()
                        } else {
                            empty_union_message()
                        }
                    }
                },
            },
    {
        match answer {
            MeasuringQuestionAnswer::Null => {
                return Err(
                    ShapeError {
                        message: "No POIs available to answer Measuring Question.".to_owned(),
                        resolution_hint: Some(
                            "Your game map should include POIs for this category.".to_owned(),
                        ),
                        class: ShapeErrorClass::NoEntropy,
                    },
                );
            },
            _ => {},
        }
        if !self.category.is_available_in(context) {
            return Err(ShapeError::missing_data(self.category.nice_name()));
        }
        match self.category.kind() {
            MeasuringSource::SeaLevelContour => {},
            MeasuringSource::RailLines => {
                if self.distance.0 < 0 {
                    return Err(
                        ShapeError::invalid_parameters("The distance must not be negative."),
                    );
                }
                let lines = context.high_speed_rail_lines().unwrap();
                if lines.len() == 0 {
                    return Err(
                        ShapeError::invalid_parameters("A union needs at least one shape."),
                    );
                }
            },
            _ => {
                if self.distance.0 < 0 {
                    return Err(
                        ShapeError::invalid_parameters("The distance must not be negative."),
                    );
                }
            },
        }
        Ok(MeasuringQuestionShape { question: self, answer, context })
    }
}

} // verus!
