//! "Of all the places of this kind within this distance of me, which are
//! you closest to?"

use vstd::prelude::*;

use crate::hide_and_seek::question::context::{
    poi_category_named, PointOfInterest, QuestionContext,
};
use crate::hide_and_seek::question::radar::negative_radius_message;
use crate::hide_and_seek::question::{AnyQuestion, Question, ShapeError, ShapeErrorClass};
use crate::search::{first_match, lemma_first_match};
use crate::text::same_text;
use crate::shape::bvh::MAX_POINTS;
use crate::shape::compiler::{SdfCompiler, Shape};
use crate::shape::instruction::{
    appends, lemma_appends_then, BoundaryOverlapResolution, Operation, Register,
};
use crate::shape::types::{Centimeters, Position};
use crate::transit::{
    complex_named, station_named, trip_named, ComplexIdentifier, ComplexRecord, StopEvent,
    TransitData, TripIdentifier,
};

verus! {

/// The kind of place the hider is closest to.
#[derive(Clone, Copy, Debug, PartialEq, Eq, Structural)]
pub enum TentacleTarget {
    Museum,
    Library,
    MovieTheater,
    Hospital,
    MetroLine,
    Zoo,
    Aquarium,
    AmusementPark,
}

impl TentacleTarget {
    /// The name of the target's category of points of interest; empty for
    /// metro lines, which are transit trips.
    pub open spec fn category_key(&self) -> Seq<char> {
        match *self {
            TentacleTarget::Museum => "museum"@,
            TentacleTarget::Library => "library"@,
            TentacleTarget::MovieTheater => "movie_theater"@,
            TentacleTarget::Hospital => "hospital"@,
            TentacleTarget::MetroLine => ""@,
            TentacleTarget::Zoo => "zoo"@,
            TentacleTarget::Aquarium => "aquarium"@,
            TentacleTarget::AmusementPark => "amusement_park"@,
        }
    }

    /// The name shown to the user of the data bundle that holds the
    /// target's data; empty for metro lines.
    pub open spec fn dataset_name(&self) -> Seq<char> {
        match *self {
            TentacleTarget::Museum => "Museums"@,
            TentacleTarget::Library => "Libraries"@,
            TentacleTarget::MovieTheater => "Movie Theaters"@,
            TentacleTarget::Hospital => "Hospitals"@,
            TentacleTarget::MetroLine => ""@,
            TentacleTarget::Zoo => "Zoos"@,
            TentacleTarget::Aquarium => "Aquariums"@,
            TentacleTarget::AmusementPark => "Amusement Parks"@,
        }
    }

    /// Computes [`TentacleTarget::category_key`].
    pub fn key(&self) -> (key: &'static str)
        ensures
            key@ == self.category_key(),
    {
        match self {
            TentacleTarget::Museum => "museum",
            TentacleTarget::Library => "library",
            TentacleTarget::MovieTheater => "movie_theater",
            TentacleTarget::Hospital => "hospital",
            TentacleTarget::MetroLine => "",
            TentacleTarget::Zoo => "zoo",
            TentacleTarget::Aquarium => "aquarium",
            TentacleTarget::AmusementPark => "amusement_park",
        }
    }

    /// Computes [`TentacleTarget::dataset_name`].
    pub fn nice_name(&self) -> (name: &'static str)
        ensures
            name@ == self.dataset_name(),
    {
        match self {
            TentacleTarget::Museum => "Museums",
            TentacleTarget::Library => "Libraries",
            TentacleTarget::MovieTheater => "Movie Theaters",
            TentacleTarget::Hospital => "Hospitals",
            TentacleTarget::MetroLine => "",
            TentacleTarget::Zoo => "Zoos",
            TentacleTarget::Aquarium => "Aquariums",
            TentacleTarget::AmusementPark => "Amusement Parks",
        }
    }
}

/// Which place of kind `target` within `radius` of `center` the hider is
/// closest to.
#[derive(Clone, Copy, Debug, PartialEq, Eq, Structural)]
pub struct TentacleQuestion {
    pub center: Position,
    pub radius: Centimeters,
    pub target: TentacleTarget,
}

#[derive(Debug)]
pub enum TentacleQuestionAnswer {
    /// The hider is not within the radius at all.
    OutOfRadius,
    /// The hider is closest to the place (or, for metro lines, the trip)
    /// `closest_id`.
    WithinRadius { closest_id: String },
}

/// An answered tentacle question.
#[derive(Debug)]
pub struct TentacleQuestionShape<'a> {
    pub question: TentacleQuestion,
    pub answer: TentacleQuestionAnswer,
    pub context: &'a QuestionContext,
}

/// The message of the error for a place or trip that the context does not
/// hold.
pub open spec fn unknown_place_message() -> Seq<char> {
    "The closest place is not part of the map."@
}

/// The message of the error for a trip whose stops cannot be resolved to
/// station complexes.
pub open spec fn unresolved_trip_message() -> Seq<char> {
    "The stops of the closest line are not part of the map."@
}

/// The positions of all of `pois` but those with identifier `id`, in order.
pub open spec fn positions_except(pois: Seq<PointOfInterest>, id: Seq<char>) -> Seq<Position>
    decreases pois.len(),
{
    if pois.len() == 0 {
        Seq::empty()
    } else if pois.last().id@ != id {
        positions_except(pois.drop_last(), id).push(pois.last().position)
    } else {
        positions_except(pois.drop_last(), id)
    }
}

/// Whether the station of `stop` and the complex of that station are part
/// of `transit`.
pub open spec fn stop_resolvable(transit: &TransitData, stop: StopEvent) -> bool {
    let station = first_match(transit.stations@, station_named(stop.station_id@));
    &&& station < transit.stations@.len()
    &&& first_match(transit.complexes@, complex_named(transit.stations@[station].complex@))
        < transit.complexes@.len()
}

/// Whether every one of `stops` is resolvable.
pub open spec fn stops_resolvable(transit: &TransitData, stops: Seq<StopEvent>) -> bool {
    forall|i: int| 0 <= i < stops.len() ==> stop_resolvable(transit, #[trigger] stops[i])
}

/// The identifier of the complex that `stop` calls at.
pub open spec fn stop_complex(transit: &TransitData, stop: StopEvent) -> Seq<char> {
    transit.stations@[first_match(
        transit.stations@,
        station_named(stop.station_id@),
    )].complex@
}

/// The identifiers of the complexes that `stops` call at, each once, in the
/// order of their first stop.
pub open spec fn complexes_served(transit: &TransitData, stops: Seq<StopEvent>) -> Seq<Seq<char>>
    decreases stops.len(),
{
    if stops.len() == 0 {
        Seq::empty()
    } else {
        let before = complexes_served(transit, stops.drop_last());
        let here = stop_complex(transit, stops.last());
        if before.contains(here) {
            before
        } else {
            before.push(here)
        }
    }
}

/// The centers of the complexes `ids`, in order.
pub open spec fn centers_of_served(transit: &TransitData, ids: Seq<Seq<char>>) -> Seq<Position> {
    Seq::new(
        ids.len(),
        |i: int| transit.complexes@[first_match(transit.complexes@, complex_named(ids[i]))].center,
    )
}

/// The centers of all of `complexes` whose identifier is not among `ids`,
/// in order.
pub open spec fn centers_except(complexes: Seq<ComplexRecord>, ids: Seq<Seq<char>>) -> Seq<
    Position,
>
    decreases complexes.len(),
{
    if complexes.len() == 0 {
        Seq::empty()
    } else if !ids.contains(complexes.last().identifier@) {
        centers_except(complexes.drop_last(), ids).push(complexes.last().center)
    } else {
        centers_except(complexes.drop_last(), ids)
    }
}

/// `centers_except` keeps at most one center per complex.
pub proof fn lemma_centers_except_len(complexes: Seq<ComplexRecord>, ids: Seq<Seq<char>>)
    ensures
        centers_except(complexes, ids).len() <= complexes.len(),
    decreases complexes.len(),
{
    if complexes.len() > 0 {
        lemma_centers_except_len(complexes.drop_last(), ids);
    }
}

/// `positions_except` keeps at most one position per point of interest.
pub proof fn lemma_positions_except_len(pois: Seq<PointOfInterest>, id: Seq<char>)
    ensures
        positions_except(pois, id).len() <= pois.len(),
    decreases pois.len(),
{
    if pois.len() > 0 {
        lemma_positions_except_len(pois.drop_last(), id);
    }
}

/// A trip serves at most one complex per stop.
pub proof fn lemma_complexes_served_len(transit: &TransitData, stops: Seq<StopEvent>)
    ensures
        complexes_served(transit, stops).len() <= stops.len(),
    decreases stops.len(),
{
    if stops.len() > 0 {
        lemma_complexes_served_len(transit, stops.drop_last());
    }
}

/// The stop events of the trip that a metro-line answer names.
pub open spec fn answered_stops(context: &QuestionContext, id: Seq<char>) -> Seq<StopEvent> {
    context.transit.trips@[first_match(context.transit.trips@, trip_named(id))].stop_events@
}

/// Whether the answer can be turned into a region in `context`.
pub open spec fn tentacle_answer_valid(
    question: TentacleQuestion,
    answer: TentacleQuestionAnswer,
    context: &QuestionContext,
) -> bool {
    match answer {
        TentacleQuestionAnswer::OutOfRadius => true,
        TentacleQuestionAnswer::WithinRadius { closest_id } => {
            if question.target == TentacleTarget::MetroLine {
                &&& first_match(context.transit.trips@, trip_named(closest_id@))
                    < context.transit.trips@.len()
                &&& answered_stops(context, closest_id@).len() <= MAX_POINTS
                &&& stops_resolvable(&context.transit, answered_stops(context, closest_id@))
            } else {
                context.poi_of(question.target.category_key(), closest_id@).is_some()
            }
        },
    }
}

/// The operations of an answered tentacle question on a stream of `base`
/// instructions.
///
/// Out of radius, the complement of the disc. Within radius, the region
/// nearer to the chosen place than to all others of its kind; for metro
/// lines, the region nearer to the complexes the chosen trip serves than to
/// all other complexes, each grown by the hiding radius.
pub open spec fn tentacle_operations(
    question: TentacleQuestion,
    answer: TentacleQuestionAnswer,
    context: &QuestionContext,
    base: nat,
) -> Seq<Operation> {
    match answer {
        TentacleQuestionAnswer::OutOfRadius => seq![
            Operation::Point { position: question.center },
            Operation::Dilate { input: Register(base as u32), amount: question.radius },
            Operation::Invert { input: Register((base + 1) as u32) },
        ],
        TentacleQuestionAnswer::WithinRadius { closest_id } => {
            if question.target == TentacleTarget::MetroLine {
                let served = complexes_served(
                    &context.transit,
                    answered_stops(context, closest_id@),
                );
                let radius = context.game.seeker_hiding_radius;
                seq![
                    Operation::PointCloud {
                        points: centers_except(context.transit.complexes@, served),
                    },
                    Operation::PointCloud { points: centers_of_served(&context.transit, served) },
                    Operation::Dilate { input: Register(base as u32), amount: radius },
                    Operation::Dilate { input: Register((base + 1) as u32), amount: radius },
                    Operation::Boundary {
                        inside: Register((base + 3) as u32),
                        outside: Register((base + 2) as u32),
                        resolution: BoundaryOverlapResolution::Inside,
                    },
                ]
            } else {
                let key = question.target.category_key();
                seq![
                    Operation::PointCloud {
                        points: positions_except(context.pois_of(key).unwrap(), closest_id@),
                    },
                    Operation::Point { position: context.poi_of(key, closest_id@).unwrap().position },
                    Operation::Boundary {
                        inside: Register((base + 1) as u32),
                        outside: Register(base as u32),
                        resolution: BoundaryOverlapResolution::Inside,
                    },
                ]
            }
        },
    }
}

/// Collects the positions of all of `pois` but those with identifier `id`.
pub fn other_positions(pois: &Vec<PointOfInterest>, id: &str) -> (positions: Vec<Position>)
    ensures
        positions@ == positions_except(pois@, id@),
{
    let mut positions: Vec<Position> = Vec::new();
    let mut i: usize = 0;
    assert(pois@.subrange(0, 0) =~= Seq::<PointOfInterest>::empty());
    while i < pois.len()
        invariant
            i <= pois.len(),
            positions@ == positions_except(pois@.subrange(0, i as int), id@),
        decreases pois.len() - i,
    {
        assert(pois@.subrange(0, i + 1).drop_last() =~= pois@.subrange(0, i as int));
        if !same_text(pois[i].id.as_str(), id) {
            positions.push(pois[i].position);
        }
        i += 1;
    }
    assert(pois@.subrange(0, pois@.len() as int) =~= pois@);
    positions
}

/// Whether the complex `id` is among `chosen`.
fn is_served(chosen: &Vec<&ComplexRecord>, id: &ComplexIdentifier, Ghost(ids): Ghost<
    Seq<Seq<char>>,
>) -> (listed: bool)
    requires
        ids.len() == chosen@.len(),
        forall|k: int| 0 <= k < ids.len() ==> (#[trigger] chosen@[k]).identifier@ == ids[k],
    ensures
        listed == ids.contains(id@),
{
    let mut k: usize = 0;
    while k < chosen.len()
        invariant
            k <= chosen.len(),
            ids.len() == chosen@.len(),
            forall|j: int| 0 <= j < ids.len() ==> (#[trigger] chosen@[j]).identifier@ == ids[j],
            forall|j: int| 0 <= j < k ==> ids[j] != id@,
        decreases chosen.len() - k,
    {
        if chosen[k].identifier == *id {
            assert(ids[k as int] == id@);
            return true;
        }
        k += 1;
    }
    false
}

/// Decides [`stops_resolvable`].
pub fn are_stops_resolvable(transit: &TransitData, stops: &Vec<StopEvent>) -> (ok: bool)
    ensures
        ok == stops_resolvable(transit, stops@),
{
    let mut i: usize = 0;
    while i < stops.len()
        invariant
            i <= stops.len(),
            forall|k: int| 0 <= k < i ==> stop_resolvable(transit, #[trigger] stops@[k]),
        decreases stops.len() - i,
    {
        match transit.get_station(&stops[i].station_id) {
            Some(station) => {
                if transit.get_complex(&station.complex).is_none() {
                    assert(!stop_resolvable(transit, stops@[i as int]));
                    return false;
                }
            },
            None => {
                assert(!stop_resolvable(transit, stops@[i as int]));
                return false;
            },
        }
        i += 1;
    }
    true
}

impl<'a> TentacleQuestionShape<'a> {
    /// Appends the two point clouds of a metro-line answer: first the
    /// complexes the trip does not serve, then those it serves.
    fn build_metro_clouds(&self, compiler: &mut SdfCompiler, stops: &Vec<StopEvent>) -> (clouds: (
        Register,
        Register,
    ))
        requires
            old(compiler).wf(),
            self.context.wf(),
            old(compiler)@.len() + 2 <= u32::MAX,
            stops@.len() <= MAX_POINTS,
            stops_resolvable(&self.context.transit, stops@),
        ensures
            final(compiler).wf(),
            appends(
                old(compiler)@,
                final(compiler)@,
                seq![
                    Operation::PointCloud {
                        points: centers_except(
                            self.context.transit.complexes@,
                            complexes_served(&self.context.transit, stops@),
                        ),
                    },
                    Operation::PointCloud {
                        points: centers_of_served(
                            &self.context.transit,
                            complexes_served(&self.context.transit, stops@),
                        ),
                    },
                ],
            ),
            clouds.0.0 == old(compiler)@.len(),
            clouds.1.0 == old(compiler)@.len() + 1,
    {
        let transit = self.context.transit_context();
        let mut chosen: Vec<&ComplexRecord> = Vec::new();
        let ghost mut ids: Seq<Seq<char>> = Seq::empty();
        let mut i: usize = 0;
        assert(stops@.subrange(0, 0) =~= Seq::<StopEvent>::empty());
        while i < stops.len()
            invariant
                i <= stops.len(),
                transit == &self.context.transit,
                stops_resolvable(transit, stops@),
                ids == complexes_served(transit, stops@.subrange(0, i as int)),
                ids.len() == chosen@.len(),
                forall|k: int| 0 <= k < ids.len() ==> (#[trigger] chosen@[k]).identifier@ == ids[k],
                forall|k: int|
                    0 <= k < ids.len() ==> *(#[trigger] chosen@[k]) == transit.complexes@[first_match(
                        transit.complexes@,
                        complex_named(ids[k]),
                    )],
            decreases stops.len() - i,
        {
            assert(stops@.subrange(0, i + 1).drop_last() =~= stops@.subrange(0, i as int));
            assert(stops@.subrange(0, i + 1).last() == stops@[i as int]);
            assert(stop_resolvable(transit, stops@[i as int]));
            let station = transit.get_station(&stops[i].station_id).unwrap();
            let complex = transit.get_complex(&station.complex).unwrap();
            proof {
                lemma_first_match(transit.complexes@, complex_named(station.complex@));
            }
            if !is_served(&chosen, &complex.identifier, Ghost(ids)) {
                chosen.push(complex);
                proof {
                    ids = ids.push(complex.identifier@);
                }
            }
            i += 1;
        }
        assert(stops@.subrange(0, stops@.len() as int) =~= stops@);

        let complexes = transit.all_complexes();
        let mut other: Vec<Position> = Vec::new();
        let mut j: usize = 0;
        assert(complexes@.subrange(0, 0) =~= Seq::<ComplexRecord>::empty());
        while j < complexes.len()
            invariant
                j <= complexes.len(),
                complexes@ == self.context.transit.complexes@,
                ids.len() == chosen@.len(),
                forall|k: int| 0 <= k < ids.len() ==> (#[trigger] chosen@[k]).identifier@ == ids[k],
                other@ == centers_except(complexes@.subrange(0, j as int), ids),
            decreases complexes.len() - j,
        {
            assert(complexes@.subrange(0, j + 1).drop_last() =~= complexes@.subrange(0, j as int));
            if !is_served(&chosen, &complexes[j].identifier, Ghost(ids)) {
                other.push(complexes[j].center);
            }
            j += 1;
        }
        assert(complexes@.subrange(0, complexes@.len() as int) =~= complexes@);

        let mut question: Vec<Position> = Vec::new();
        let mut k: usize = 0;
        while k < chosen.len()
            invariant
                k <= chosen.len(),
                ids.len() == chosen@.len(),
                forall|m: int|
                    0 <= m < ids.len() ==> *(#[trigger] chosen@[m]) == transit.complexes@[first_match(
                        transit.complexes@,
                        complex_named(ids[m]),
                    )],
                question@ == centers_of_served(transit, ids).subrange(0, k as int),
            decreases chosen.len() - k,
        {
            question.push(chosen[k].center);
            k += 1;
            assert(question@ =~= centers_of_served(transit, ids).subrange(0, k as int));
        }
        assert(question@ =~= centers_of_served(transit, ids));

        proof {
            lemma_centers_except_len(complexes@, ids);
            lemma_complexes_served_len(transit, stops@);
        }
        let ghost start = compiler@;
        let ghost other_points = other@;
        let ghost question_points = question@;
        let osp = compiler.point_cloud(other);
        let ghost middle = compiler@;
        let qsp = compiler.point_cloud(question);
        proof {
            lemma_appends_then(
                start,
                middle,
                compiler@,
                seq![Operation::PointCloud { points: other_points }],
                seq![Operation::PointCloud { points: question_points }],
            );
            assert(seq![Operation::PointCloud { points: other_points }] + seq![
                Operation::PointCloud { points: question_points },
            ] =~= seq![
                Operation::PointCloud { points: other_points },
                Operation::PointCloud { points: question_points },
            ]);
        }
        (osp, qsp)
    }
}

impl<'a> Shape for TentacleQuestionShape<'a> {
    open spec fn buildable(&self) -> bool {
        &&& self.question.radius@ >= 0
        &&& self.answer is WithinRadius ==> self.context.wf()
        &&& tentacle_answer_valid(self.question, self.answer, self.context)
    }

    open spec fn operations(&self, base: nat) -> Seq<Operation> {
        tentacle_operations(self.question, self.answer, self.context, base)
    }

    fn build_into(&self, compiler: &mut SdfCompiler) -> (result: Register) {
        let ghost start = compiler@;
        let ghost base = start.len();
        match &self.answer {
            TentacleQuestionAnswer::OutOfRadius => {
                let center = compiler.point(self.question.center);
                let ghost s1 = compiler@;
                let circle = compiler.dilate(center, self.question.radius);
                let ghost s2 = compiler@;
                let inverted = compiler.invert(circle);
                proof {
                    let a = seq![Operation::Point { position: self.question.center }];
                    let b = seq![
                        Operation::Dilate { input: center, amount: self.question.radius },
                    ];
                    let c = seq![Operation::Invert { input: circle }];
                    lemma_appends_then(start, s1, s2, a, b);
                    lemma_appends_then(start, s2, compiler@, a + b, c);
                    assert((a + b) + c =~= tentacle_operations(
                        self.question,
                        self.answer,
                        self.context,
                        base,
                    ));
                }
                inverted
            },
            TentacleQuestionAnswer::WithinRadius { closest_id } => {
                match self.question.target {
                    TentacleTarget::MetroLine => {
                        let transit = self.context.transit_context();
                        let trip = transit.get_trip(
                            &TripIdentifier::new(closest_id.as_str()),
                        ).unwrap();
                        let radius = self.context.game_state().seeker_hiding_radius();
                        let (osp, qsp) = self.build_metro_clouds(compiler, &trip.stop_events);
                        let ghost s2 = compiler@;
                        let other = compiler.dilate(osp, radius);
                        let ghost s3 = compiler@;
                        let tentacle = compiler.dilate(qsp, radius);
                        let ghost s4 = compiler@;
                        let result = compiler.boundary(
                            tentacle,
                            other,
                            BoundaryOverlapResolution::Inside,
                        );
                        proof {
                            let served = complexes_served(transit, trip.stop_events@);
                            let a = seq![
                                Operation::PointCloud {
                                    points: centers_except(transit.complexes@, served),
                                },
                                Operation::PointCloud {
                                    points: centers_of_served(transit, served),
                                },
                            ];
                            let b = seq![Operation::Dilate { input: osp, amount: radius }];
                            let c = seq![Operation::Dilate { input: qsp, amount: radius }];
                            let d = seq![
                                Operation::Boundary {
                                    inside: tentacle,
                                    outside: other,
                                    resolution: BoundaryOverlapResolution::Inside,
                                },
                            ];
                            lemma_appends_then(start, s2, s3, a, b);
                            lemma_appends_then(start, s3, s4, a + b, c);
                            lemma_appends_then(start, s4, compiler@, (a + b) + c, d);
                            assert(((a + b) + c) + d =~= tentacle_operations(
                                self.question,
                                self.answer,
                                self.context,
                                base,
                            ));
                        }
                        result
                    },
                    _ => {
                        let key = self.question.target.key();
                        let pois = self.context.get_all_pois(key).unwrap();
                        let chosen = self.context.get_poi(key, closest_id.as_str()).unwrap();
                        let others = other_positions(pois, closest_id.as_str());
                        proof {
                            let categories = self.context.poi_categories@;
                            let named = poi_category_named(key@);
                            lemma_first_match(categories, named);
                            assert(categories[first_match(categories, named)].pois@ == pois@);
                            lemma_positions_except_len(pois@, closest_id@);
                        }
                        let ghost other_points = others@;
                        let other = compiler.point_cloud(others);
                        let ghost s1 = compiler@;
                        let tentacle = compiler.point(chosen.position);
                        let ghost s2 = compiler@;
                        let result = compiler.boundary(
                            tentacle,
                            other,
                            BoundaryOverlapResolution::Inside,
                        );
                        proof {
                            let a = seq![Operation::PointCloud { points: other_points }];
                            let b = seq![Operation::Point { position: chosen.position }];
                            let c = seq![
                                Operation::Boundary {
                                    inside: tentacle,
                                    outside: other,
                                    resolution: BoundaryOverlapResolution::Inside,
                                },
                            ];
                            lemma_appends_then(start, s1, s2, a, b);
                            lemma_appends_then(start, s2, compiler@, a + b, c);
                            assert((a + b) + c =~= tentacle_operations(
                                self.question,
                                self.answer,
                                self.context,
                                base,
                            ));
                        }
                        result
                    },
                }
            },
        }
    }
}

impl<'a> Question<'a> for TentacleQuestion {
    type Answer = TentacleQuestionAnswer;

    type Built = TentacleQuestionShape<'a>;

    fn to_any(self) -> (any: AnyQuestion)
        ensures
            any == AnyQuestion::Tentacle(self),
    {
        AnyQuestion::Tentacle(self)
    }

    /// The shape of the answered question. Fails, in this order, with
    /// `InvalidParameters` on a negative radius, with `MissingData` naming
    /// the data bundle when the context lacks the target's category, and
    /// with `InvalidParameters` when the chosen place or trip, or a stop of
    /// the trip, is not part of the context.
    fn to_shape(
        self,
        answer: TentacleQuestionAnswer,
        context: &'a QuestionContext,
    ) -> (result: Result<TentacleQuestionShape<'a>, ShapeError>)
        ensures
            match result {
                Ok(shape) => {
                    &&& self.radius@ >= 0
                    &&& tentacle_answer_valid(self, answer, context)
                    &&& shape.question == self
                    &&& shape.answer == answer
                    &&& shape.context == context
                },
                Err(error) => {
                    if self.radius@ < 0 {
                        error.is(
                            ShapeErrorClass::InvalidParameters,
                            negative_radius_message(),
                            None,
                        )
                    } else if answer is WithinRadius && self.target != TentacleTarget::MetroLine
                        && context.pois_of(self.target.category_key()).is_none() {
                        error.is_missing_data(self.target.dataset_name())
                    } else {
                        &&& !tentacle_answer_valid(self, answer, context)
                        &&& error.class == ShapeErrorClass::InvalidParameters
                        &&& error.resolution_hint.is_none()
                        &&& error.message@ == if self.target == TentacleTarget::MetroLine
                            && first_match(
                            context.transit.trips@,
                            trip_named(answer->closest_id@),
                        ) < context.transit.trips@.len() {
                            unresolved_trip_message()
                        } else {
                            unknown_place_message()
                        }
                    }
                },
            },
    {
        if self.radius.0 < 0 {
            return Err(ShapeError::invalid_parameters("The radius must not be negative."));
        }
        match &answer {
            TentacleQuestionAnswer::OutOfRadius => {},
            TentacleQuestionAnswer::WithinRadius { closest_id } => {
                match self.target {
                    TentacleTarget::MetroLine => {
                        let transit = context.transit_context();
                        match transit.get_trip(&TripIdentifier::new(closest_id.as_str())) {
                            Some(trip) => {
                                if trip.stop_events.len() > MAX_POINTS || !are_stops_resolvable(
                                    transit,
                                    &trip.stop_events,
                                ) {
                                    return Err(
                                        ShapeError::invalid_parameters(
                                            "The stops of the closest line are not part of the map.",
                                        ),
                                    );
                                }
                            },
                            None => {
                                return Err(
                                    ShapeError::invalid_parameters(
                                        "The closest place is not part of the map.",
                                    ),
                                );
                            },
                        }
                    },
                    _ => {
                        if !context.has_poi_category(self.target.key()) {
                            return Err(ShapeError::missing_data(self.target.nice_name()));
                        }
                        if context.get_poi(self.target.key(), closest_id.as_str()).is_none() {
                            return Err(
                                ShapeError::invalid_parameters(
                                    "The closest place is not part of the map.",
                                ),
                            );
                        }
                    },
                }
            },
        }
        Ok(TentacleQuestionShape { question: self, answer, context })
    }
}

} // verus!
