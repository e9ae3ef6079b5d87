use jet_lag_core::hide_and_seek::question::context::{
    AreaCategory, GameState, PoiCategory, PointOfInterest, QuestionContext, RailLine,
};
use jet_lag_core::hide_and_seek::question::measuring::{
    MeasuringQuestion, MeasuringQuestionAnswer, MeasuringSource, MeasuringTarget,
};
use jet_lag_core::hide_and_seek::question::radar::{RadarQuestion, RadarQuestionAnswer};
use jet_lag_core::hide_and_seek::question::tentacle::{
    TentacleQuestion, TentacleQuestionAnswer, TentacleTarget,
};
use jet_lag_core::hide_and_seek::question::{AnyQuestion, Question, ShapeError, ShapeErrorClass};
use jet_lag_core::shape::compiler::{SdfCompiler, Shape};
use jet_lag_core::shape::instruction::{
    BoundaryOverlapResolution, ContourTexture, DiagramHandle, Register, SdfInstruction,
};
use jet_lag_core::shape::types::{Centimeters, Position, COORD_SCALE};
use jet_lag_core::transit::{
    ComplexIdentifier, ComplexRecord, DirectionId, RouteIdentifier, StationIdentifier,
    StationRecord, StopEvent, TransitData, TripIdentifier, TripRecord,
};

fn at(lon: f64, lat: f64) -> Position {
    Position {
        x: (lon * COORD_SCALE as f64).round() as i32,
        y: (lat * COORD_SCALE as f64).round() as i32,
    }
}

/// Great-circle distance in centimeters.
fn distance_cm(a: (i32, i32), b: (i32, i32)) -> f64 {
    let radians = |v: i32| (v as f64 / COORD_SCALE as f64).to_radians();
    let (lon1, lat1, lon2, lat2) = (radians(a.0), radians(a.1), radians(b.0), radians(b.1));
    let h = ((lat2 - lat1) / 2.0).sin().powi(2)
        + lat1.cos() * lat2.cos() * ((lon2 - lon1) / 2.0).sin().powi(2);
    2.0 * 6_371_008.8 * h.sqrt().asin() * 100.0
}

/// Samples register `r` of `stream` at `sample`.
fn sample_at(stream: &[SdfInstruction], r: Register, sample: Position) -> f64 {
    let here = (sample.x, sample.y);
    let get = |x: &Register| sample_at(stream, *x, sample);
    match &stream[r.0 as usize] {
        SdfInstruction::Point { position, .. } => distance_cm(here, (position.x, position.y)),
        SdfInstruction::PointCloud { bvh, .. } => bvh
            .points
            .iter()
            .map(|p| distance_cm(here, *p))
            .fold(f64::INFINITY, f64::min),
        SdfInstruction::Edge { input, .. } => get(input).abs(),
        SdfInstruction::Invert { input, .. } => -get(input),
        SdfInstruction::Dilate { input, amount, .. } => get(input) - amount.0 as f64,
        SdfInstruction::Union { shapes, .. } => shapes.iter().map(get).fold(f64::INFINITY, f64::min),
        SdfInstruction::Intersection { shapes, .. } => {
            shapes.iter().map(get).fold(f64::NEG_INFINITY, f64::max)
        }
        SdfInstruction::Subtract { left, right, .. } => get(left).max(-get(right)),
        other => panic!("no sampler for {:?}", other),
    }
}

fn empty_context() -> QuestionContext {
    QuestionContext {
        poi_categories: vec![],
        area_categories: vec![],
        rail_lines: None,
        contour_texture: None,
        transit: TransitData { stations: vec![], complexes: vec![], trips: vec![] },
        game: GameState { seeker_hiding_radius: Centimeters(40_000) },
    }
}

fn poi(id: &str, lon: f64, lat: f64) -> PointOfInterest {
    PointOfInterest { id: id.to_string(), position: at(lon, lat) }
}

fn with_pois(name: &str, pois: Vec<PointOfInterest>) -> QuestionContext {
    let mut context = empty_context();
    context.poi_categories.push(PoiCategory { name: name.to_string(), pois });
    context
}

fn build<S: Shape>(shape: &S) -> (Vec<SdfInstruction>, Register) {
    let mut compiler = SdfCompiler::new();
    let result = shape.build_into(&mut compiler);
    (compiler.into_instructions(), result)
}

fn expect_error<T>(result: Result<T, ShapeError>) -> ShapeError {
    match result {
        Ok(_) => panic!("a shape where an error was due"),
        Err(error) => error,
    }
}

fn expect_shape<T>(result: Result<T, ShapeError>) -> T {
    match result {
        Ok(shape) => shape,
        Err(error) => panic!("an error where a shape was due: {:?}", error),
    }
}

#[test]
fn radar_hit_is_the_disc() {
    let context = empty_context();
    assert!(context.is_wf());
    let question = RadarQuestion { center: at(0.0, 0.0), radius: Centimeters(100_000) };
    let shape = expect_shape(question.to_shape(RadarQuestionAnswer::Hit, &context));
    let (stream, result) = build(&shape);
    assert_eq!(stream.len(), 2);
    assert_eq!(result, Register(1));
    assert!(sample_at(&stream, result, at(0.0, 0.0)) <= 0.0);
    assert!(sample_at(&stream, result, at(0.05, 0.0)) > 0.0);
    assert!(sample_at(&stream, result, at(0.0, 0.05)) > 0.0);
    assert_eq!(sample_at(&stream, result, at(0.0, 0.0)), -100_000.0);
}

#[test]
fn radar_miss_is_the_complement_of_the_disc() {
    let context = empty_context();
    let question = RadarQuestion { center: at(0.0, 0.0), radius: Centimeters(100_000) };
    let shape = expect_shape(question.to_shape(RadarQuestionAnswer::Miss, &context));
    let (stream, result) = build(&shape);
    assert_eq!(stream.len(), 3);
    assert_eq!(result, Register(2));
    assert!(matches!(&stream[2], SdfInstruction::Invert { input, .. } if *input == Register(1)));
    assert!(sample_at(&stream, result, at(0.0, 0.0)) > 0.0);
    assert!(sample_at(&stream, result, at(0.05, 0.0)) <= 0.0);
    assert!(sample_at(&stream, result, at(0.0, 0.05)) <= 0.0);
}

#[test]
fn radar_with_negative_radius_is_invalid() {
    let context = empty_context();
    let question = RadarQuestion { center: at(0.0, 0.0), radius: Centimeters(-1) };
    let error = expect_error(question.to_shape(RadarQuestionAnswer::Hit, &context));
    assert_eq!(error.class, ShapeErrorClass::InvalidParameters);
    assert_eq!(error.message, "The radius must not be negative.");
    assert!(error.resolution_hint.is_none());
}

#[test]
fn questions_wrap_into_any_question() {
    let radar = RadarQuestion { center: at(1.0, 2.0), radius: Centimeters(5) };
    assert!(matches!(radar.to_any(), AnyQuestion::Radar(q) if q == radar));
    let measuring =
        MeasuringQuestion { category: MeasuringTarget::Zoo, distance: Centimeters(5) };
    assert!(matches!(measuring.to_any(), AnyQuestion::Measuring(q) if q == measuring));
    let tentacle = TentacleQuestion {
        center: at(1.0, 2.0),
        radius: Centimeters(5),
        target: TentacleTarget::Zoo,
    };
    assert!(matches!(tentacle.to_any(), AnyQuestion::Tentacle(q) if q == tentacle));
}

#[test]
fn measuring_further_from_airports_excludes_their_surroundings() {
    let context = with_pois("airport", vec![poi("a", 0.0, 0.0), poi("b", 1.0, 0.0)]);
    let question = MeasuringQuestion {
        category: MeasuringTarget::CommercialAirport,
        distance: Centimeters(5_000_000),
    };
    let shape = expect_shape(question.to_shape(MeasuringQuestionAnswer::Further, &context));
    let (stream, result) = build(&shape);
    assert_eq!(stream.len(), 3);
    assert_eq!(result, Register(2));
    match &stream[0] {
        SdfInstruction::PointCloud { bvh, .. } => {
            assert_eq!(bvh.points, vec![(0, 0), (COORD_SCALE, 0)]);
        }
        other => panic!("not a point cloud: {:?}", other),
    }
    assert!(
        matches!(&stream[1], SdfInstruction::Dilate { input, amount, .. } if *input == Register(0) && amount.0 == 5_000_000)
    );
    assert!(matches!(&stream[2], SdfInstruction::Invert { input, .. } if *input == Register(1)));
    // within 50 km of an airport: excluded
    assert!(sample_at(&stream, result, at(0.25, 0.0)) > 0.0);
    assert!(sample_at(&stream, result, at(0.75, 0.0)) > 0.0);
    // more than 50 km from both: possible
    assert!(sample_at(&stream, result, at(2.0, 0.0)) <= 0.0);
    // half a degree of longitude on the equator is 55.6 km, so the point
    // midway between the two airports is beyond 50 km of both
    assert!(sample_at(&stream, result, at(0.5, 0.0)) <= 0.0);
    assert!(distance_cm((0, 0), (COORD_SCALE / 2, 0)) > 5_500_000.0);
}

#[test]
fn measuring_closer_is_the_dilated_field() {
    let context = with_pois("zoo", vec![poi("z", 0.0, 0.0)]);
    let question =
        MeasuringQuestion { category: MeasuringTarget::Zoo, distance: Centimeters(1_000_000) };
    let shape = expect_shape(question.to_shape(MeasuringQuestionAnswer::Closer, &context));
    let (stream, result) = build(&shape);
    assert_eq!(stream.len(), 2);
    assert_eq!(result, Register(1));
    assert!(sample_at(&stream, result, at(0.0, 0.05)) <= 0.0);
    assert!(sample_at(&stream, result, at(0.0, 0.5)) > 0.0);
}

#[test]
fn measuring_null_answer_has_no_entropy() {
    let context = with_pois("zoo", vec![poi("z", 0.0, 0.0)]);
    let question = MeasuringQuestion { category: MeasuringTarget::Zoo, distance: Centimeters(1) };
    let error = expect_error(question.to_shape(MeasuringQuestionAnswer::Null, &context));
    assert_eq!(error.class, ShapeErrorClass::NoEntropy);
    assert_eq!(error.message, "No POIs available to answer Measuring Question.");
    assert_eq!(
        error.resolution_hint.as_deref(),
        Some("Your game map should include POIs for this category.")
    );
}

#[test]
fn measuring_null_answer_comes_before_missing_data() {
    let context = empty_context();
    let question = MeasuringQuestion { category: MeasuringTarget::Zoo, distance: Centimeters(1) };
    let error = expect_error(question.to_shape(MeasuringQuestionAnswer::Null, &context));
    assert_eq!(error.class, ShapeErrorClass::NoEntropy);
}

#[test]
fn measuring_names_the_missing_bundle() {
    let context = empty_context();
    let cases = [
        (MeasuringTarget::CommercialAirport, "Airports"),
        (MeasuringTarget::HighSpeedRailLine, "High-Speed Rail Lines"),
        (MeasuringTarget::InternationalBorder, "Administrative Divisions"),
        (MeasuringTarget::FirstAdministrativeDivisionBorder, "Administrative Divisions"),
        (MeasuringTarget::SecondAdministrativeDivisionBorder, "Administrative Divisions"),
        (MeasuringTarget::SeaLevel, "Sea Level Contour Texture"),
        (MeasuringTarget::BodyOfWater, "Water Bodies"),
        (MeasuringTarget::Coastline, "Landmasses"),
        (MeasuringTarget::Mountain, "Mountains"),
        (MeasuringTarget::Park, "Parks"),
        (MeasuringTarget::AmusementPark, "Amusement Parks"),
        (MeasuringTarget::Zoo, "Zoos"),
        (MeasuringTarget::Aquarium, "Aquariums"),
        (MeasuringTarget::GolfCourse, "Golf Courses"),
        (MeasuringTarget::Museum, "Museums"),
        (MeasuringTarget::MovieTheater, "Movie Theaters"),
        (MeasuringTarget::Hospital, "Hospitals"),
        (MeasuringTarget::Library, "Libraries"),
        (MeasuringTarget::ForeignConsulate, "Foreign Consulates"),
    ];
    for (category, name) in cases {
        let question = MeasuringQuestion { category, distance: Centimeters(1) };
        let error = expect_error(question.to_shape(MeasuringQuestionAnswer::Closer, &context));
        assert_eq!(error.class, ShapeErrorClass::MissingData);
        assert_eq!(error.message, format!("Missing {} Data!", name));
        assert_eq!(
            error.resolution_hint,
            Some(format!("Download the '{}' data bundle to visualize this question.", name))
        );
    }
}

#[test]
fn missing_data_error_names_the_dataset() {
    let error = ShapeError::missing_data("Airports");
    assert_eq!(error.class, ShapeErrorClass::MissingData);
    assert_eq!(error.message, "Missing Airports Data!");
    assert_eq!(
        error.resolution_hint.as_deref(),
        Some("Download the 'Airports' data bundle to visualize this question.")
    );
}

#[test]
fn measuring_categories_read_their_own_data() {
    let keys = [
        (MeasuringTarget::CommercialAirport, "airport"),
        (MeasuringTarget::Mountain, "mountain"),
        (MeasuringTarget::Park, "park"),
        (MeasuringTarget::AmusementPark, "amusement_park"),
        (MeasuringTarget::Zoo, "zoo"),
        (MeasuringTarget::Aquarium, "aquarium"),
        (MeasuringTarget::GolfCourse, "golf_course"),
        (MeasuringTarget::Museum, "museum"),
        (MeasuringTarget::MovieTheater, "movie_theater"),
        (MeasuringTarget::Hospital, "hospital"),
        (MeasuringTarget::Library, "library"),
        (MeasuringTarget::ForeignConsulate, "foreign_consulate"),
    ];
    for (category, key) in keys {
        assert_eq!(category.key(), key);
        assert_eq!(category.kind(), MeasuringSource::PointsOfInterest);
        let context = with_pois(key, vec![poi("only", 3.0, 4.0)]);
        assert!(category.is_available_in(&context));
        let question = MeasuringQuestion { category, distance: Centimeters(10) };
        let shape = expect_shape(question.to_shape(MeasuringQuestionAnswer::Closer, &context));
        let (stream, _) = build(&shape);
        match &stream[0] {
            SdfInstruction::PointCloud { bvh, .. } => {
                assert_eq!(bvh.points, vec![(3 * COORD_SCALE, 4 * COORD_SCALE)])
            }
            other => panic!("not a point cloud: {:?}", other),
        }
    }
}

#[test]
fn measuring_rail_stations_needs_no_bundle() {
    let mut context = empty_context();
    context.transit.complexes.push(ComplexRecord {
        identifier: ComplexIdentifier::new("c1"),
        name: "Union".to_string(),
        center: at(1.0, 1.0),
    });
    context.transit.complexes.push(ComplexRecord {
        identifier: ComplexIdentifier::new("c2"),
        name: "Central".to_string(),
        center: at(2.0, 2.0),
    });
    let question =
        MeasuringQuestion { category: MeasuringTarget::RailStation, distance: Centimeters(10) };
    let shape = expect_shape(question.to_shape(MeasuringQuestionAnswer::Closer, &context));
    let (stream, result) = build(&shape);
    assert_eq!(result, Register(1));
    match &stream[0] {
        SdfInstruction::PointCloud { bvh, .. } => assert_eq!(
            bvh.points,
            vec![(COORD_SCALE, COORD_SCALE), (2 * COORD_SCALE, 2 * COORD_SCALE)]
        ),
        other => panic!("not a point cloud: {:?}", other),
    }
}

#[test]
fn measuring_areas_take_the_edge_of_the_diagram() {
    let keys = [
        (MeasuringTarget::InternationalBorder, "international_border"),
        (MeasuringTarget::FirstAdministrativeDivisionBorder, "first_administrative_division"),
        (MeasuringTarget::SecondAdministrativeDivisionBorder, "second_administrative_division"),
        (MeasuringTarget::BodyOfWater, "water_body"),
        (MeasuringTarget::Coastline, "landmass"),
    ];
    for (index, (category, key)) in keys.into_iter().enumerate() {
        assert_eq!(category.key(), key);
        let mut context = empty_context();
        context.area_categories.push(AreaCategory {
            name: "other".to_string(),
            diagram: DiagramHandle(99),
        });
        context.area_categories.push(AreaCategory {
            name: key.to_string(),
            diagram: DiagramHandle(index as u32),
        });
        let question = MeasuringQuestion { category, distance: Centimeters(25) };
        let shape = expect_shape(question.to_shape(MeasuringQuestionAnswer::Further, &context));
        let (stream, result) = build(&shape);
        assert_eq!(stream.len(), 4);
        assert_eq!(result, Register(3));
        assert!(
            matches!(&stream[0], SdfInstruction::LoadVdg { diagram, .. } if *diagram == DiagramHandle(index as u32))
        );
        assert!(matches!(&stream[1], SdfInstruction::Edge { input, .. } if *input == Register(0)));
        assert!(
            matches!(&stream[2], SdfInstruction::Dilate { input, amount, .. } if *input == Register(1) && amount.0 == 25)
        );
        assert!(matches!(&stream[3], SdfInstruction::Invert { input, .. } if *input == Register(2)));
    }
}

#[test]
fn measuring_rail_lines_unite_their_geodesics() {
    let mut context = empty_context();
    context.rail_lines = Some(vec![
        RailLine { positions: vec![at(0.0, 0.0), at(1.0, 0.0)] },
        RailLine { positions: vec![at(0.0, 1.0), at(1.0, 1.0), at(2.0, 1.0)] },
        RailLine { positions: vec![] },
    ]);
    let question = MeasuringQuestion {
        category: MeasuringTarget::HighSpeedRailLine,
        distance: Centimeters(70),
    };
    let shape = expect_shape(question.to_shape(MeasuringQuestionAnswer::Closer, &context));
    let (stream, result) = build(&shape);
    assert_eq!(stream.len(), 5);
    assert_eq!(result, Register(4));
    assert!(matches!(&stream[0], SdfInstruction::Geodesic { path, .. } if path.len() == 2));
    assert!(matches!(&stream[1], SdfInstruction::Geodesic { path, .. } if path.len() == 3));
    assert!(matches!(&stream[2], SdfInstruction::Geodesic { path, .. } if path.is_empty()));
    assert!(
        matches!(&stream[3], SdfInstruction::Union { shapes, .. } if *shapes == vec![Register(0), Register(1), Register(2)])
    );
    assert!(
        matches!(&stream[4], SdfInstruction::Dilate { input, amount, .. } if *input == Register(3) && amount.0 == 70)
    );
}

#[test]
fn measuring_without_rail_lines_is_invalid() {
    let mut context = empty_context();
    context.rail_lines = Some(vec![]);
    let question = MeasuringQuestion {
        category: MeasuringTarget::HighSpeedRailLine,
        distance: Centimeters(70),
    };
    let error = expect_error(question.to_shape(MeasuringQuestionAnswer::Closer, &context));
    assert_eq!(error.class, ShapeErrorClass::InvalidParameters);
    assert_eq!(error.message, "A union needs at least one shape.");
}

#[test]
fn measuring_negative_distance_is_invalid() {
    let context = with_pois("zoo", vec![poi("z", 0.0, 0.0)]);
    let question = MeasuringQuestion { category: MeasuringTarget::Zoo, distance: Centimeters(-1) };
    let error = expect_error(question.to_shape(MeasuringQuestionAnswer::Closer, &context));
    assert_eq!(error.class, ShapeErrorClass::InvalidParameters);
    assert_eq!(error.message, "The distance must not be negative.");
    assert!(error.resolution_hint.is_none());
}

#[test]
fn measuring_sea_level_compares_the_contour_with_the_altitude() {
    let mut context = empty_context();
    context.contour_texture = Some(ContourTexture {
        width: 2,
        height: 2,
        min_lat: -10,
        max_lat: 10,
        min_lon: -20,
        max_lon: 20,
        texels: vec![1, 2, 3, 4],
    });
    assert!(context.is_wf());
    // an altitude may be negative
    let question =
        MeasuringQuestion { category: MeasuringTarget::SeaLevel, distance: Centimeters(-300) };
    let closer = expect_shape(question.to_shape(MeasuringQuestionAnswer::Closer, &context));
    let (stream, result) = build(&closer);
    assert_eq!(stream.len(), 1);
    assert_eq!(result, Register(0));
    assert!(
        matches!(&stream[0], SdfInstruction::ContourTexture { texture, zero, .. }
            if texture.texels == vec![1, 2, 3, 4] && texture.width == 2 && texture.max_lon == 20 && zero.0 == -300)
    );
    let further = expect_shape(question.to_shape(MeasuringQuestionAnswer::Further, &context));
    let (stream, result) = build(&further);
    assert_eq!(stream.len(), 2);
    assert_eq!(result, Register(1));
    assert!(matches!(&stream[1], SdfInstruction::Invert { input, .. } if *input == Register(0)));
}

#[test]
fn context_with_a_ragged_texture_is_not_well_formed() {
    let mut context = empty_context();
    context.contour_texture = Some(ContourTexture {
        width: 2,
        height: 2,
        min_lat: 0,
        max_lat: 1,
        min_lon: 0,
        max_lon: 1,
        texels: vec![1, 2, 3],
    });
    assert!(!context.is_wf());
    let mut context = empty_context();
    context.game.seeker_hiding_radius = Centimeters(-1);
    assert!(!context.is_wf());
}

#[test]
fn tentacle_out_of_radius_is_the_complement_of_the_disc() {
    let context = empty_context();
    let question = TentacleQuestion {
        center: at(0.0, 0.0),
        radius: Centimeters(200_000),
        target: TentacleTarget::Museum,
    };
    let shape = expect_shape(question.to_shape(TentacleQuestionAnswer::OutOfRadius, &context));
    let (stream, result) = build(&shape);
    assert_eq!(stream.len(), 3);
    assert_eq!(result, Register(2));
    assert!(sample_at(&stream, result, at(0.0, 0.0)) > 0.0);
    assert!(sample_at(&stream, result, at(0.05, 0.0)) <= 0.0);
    assert!(sample_at(&stream, result, at(0.0, 0.05)) <= 0.0);
    assert_eq!(sample_at(&stream, result, at(0.0, 0.0)), 200_000.0);
}

#[test]
fn tentacle_within_radius_bounds_the_chosen_place_against_the_others() {
    let keys = [
        (TentacleTarget::Museum, "museum", "Museums"),
        (TentacleTarget::Library, "library", "Libraries"),
        (TentacleTarget::MovieTheater, "movie_theater", "Movie Theaters"),
        (TentacleTarget::Hospital, "hospital", "Hospitals"),
        (TentacleTarget::Zoo, "zoo", "Zoos"),
        (TentacleTarget::Aquarium, "aquarium", "Aquariums"),
        (TentacleTarget::AmusementPark, "amusement_park", "Amusement Parks"),
    ];
    for (target, key, name) in keys {
        assert_eq!(target.key(), key);
        assert_eq!(target.nice_name(), name);
        let context = with_pois(
            key,
            vec![poi("a", 1.0, 0.0), poi("b", 2.0, 0.0), poi("c", 3.0, 0.0), poi("b", 9.0, 9.0)],
        );
        let question = TentacleQuestion { center: at(0.0, 0.0), radius: Centimeters(1), target };
        let answer = TentacleQuestionAnswer::WithinRadius { closest_id: "b".to_string() };
        let shape = expect_shape(question.to_shape(answer, &context));
        let (stream, result) = build(&shape);
        assert_eq!(stream.len(), 3);
        assert_eq!(result, Register(2));
        match &stream[0] {
            SdfInstruction::PointCloud { bvh, .. } => {
                assert_eq!(bvh.points, vec![(COORD_SCALE, 0), (3 * COORD_SCALE, 0)])
            }
            other => panic!("not a point cloud: {:?}", other),
        }
        assert!(
            matches!(&stream[1], SdfInstruction::Point { position, .. } if *position == at(2.0, 0.0))
        );
        assert!(
            matches!(&stream[2], SdfInstruction::Boundary { inside, outside, resolution, .. }
                if *inside == Register(1) && *outside == Register(0) && *resolution == BoundaryOverlapResolution::Inside)
        );
    }
}

#[test]
fn tentacle_names_the_missing_bundle() {
    let context = empty_context();
    let question = TentacleQuestion {
        center: at(0.0, 0.0),
        radius: Centimeters(1),
        target: TentacleTarget::Aquarium,
    };
    let answer = TentacleQuestionAnswer::WithinRadius { closest_id: "x".to_string() };
    let error = expect_error(question.to_shape(answer, &context));
    assert_eq!(error.class, ShapeErrorClass::MissingData);
    assert_eq!(error.message, "Missing Aquariums Data!");
}

#[test]
fn tentacle_with_an_unknown_place_is_invalid() {
    let context = with_pois("zoo", vec![poi("a", 1.0, 0.0)]);
    let question =
        TentacleQuestion { center: at(0.0, 0.0), radius: Centimeters(1), target: TentacleTarget::Zoo };
    let answer = TentacleQuestionAnswer::WithinRadius { closest_id: "nowhere".to_string() };
    let error = expect_error(question.to_shape(answer, &context));
    assert_eq!(error.class, ShapeErrorClass::InvalidParameters);
    assert_eq!(error.message, "The closest place is not part of the map.");
}

#[test]
fn tentacle_with_negative_radius_is_invalid() {
    let context = empty_context();
    let question = TentacleQuestion {
        center: at(0.0, 0.0),
        radius: Centimeters(-5),
        target: TentacleTarget::Zoo,
    };
    let error = expect_error(question.to_shape(TentacleQuestionAnswer::OutOfRadius, &context));
    assert_eq!(error.class, ShapeErrorClass::InvalidParameters);
    assert_eq!(error.message, "The radius must not be negative.");
}

fn stop(station: &str, sequence: u32) -> StopEvent {
    StopEvent {
        station_id: StationIdentifier::new(station),
        arrival: sequence * 60,
        departure: sequence * 60 + 30,
        stop_sequence: sequence,
    }
}

fn metro_context() -> QuestionContext {
    let mut context = empty_context();
    let complex = |id: &str, lon: f64| ComplexRecord {
        identifier: ComplexIdentifier::new(id),
        name: id.to_uppercase(),
        center: at(lon, 0.0),
    };
    let station = |id: &str, complex: &str| StationRecord {
        identifier: StationIdentifier::new(id),
        name: id.to_string(),
        location: at(0.0, 0.0),
        complex: ComplexIdentifier::new(complex),
    };
    context.transit.complexes =
        vec![complex("c1", 1.0), complex("c2", 2.0), complex("c3", 3.0), complex("c4", 4.0)];
    context.transit.stations = vec![
        station("s1", "c1"),
        station("s2", "c3"),
        station("s3", "c3"),
        station("s4", "c4"),
        station("lost", "gone"),
    ];
    context.transit.trips = vec![
        TripRecord {
            id: TripIdentifier::new("red"),
            route_id: RouteIdentifier::new("r"),
            stop_events: vec![stop("s2", 0), stop("s1", 1), stop("s3", 2)],
            direction_id: DirectionId::Outbound,
            headsign: "Downtown".to_string(),
        },
        TripRecord {
            id: TripIdentifier::new("broken"),
            route_id: RouteIdentifier::new("r"),
            stop_events: vec![stop("s1", 0), stop("lost", 1)],
            direction_id: DirectionId::Inbound,
            headsign: "Nowhere".to_string(),
        },
        TripRecord {
            id: TripIdentifier::new("ghost"),
            route_id: RouteIdentifier::new("r"),
            stop_events: vec![stop("unbuilt", 0)],
            direction_id: DirectionId::Inbound,
            headsign: "Nowhere".to_string(),
        },
    ];
    context
}

#[test]
fn tentacle_metro_line_bounds_served_complexes_against_the_rest() {
    let context = metro_context();
    let question = TentacleQuestion {
        center: at(0.0, 0.0),
        radius: Centimeters(1),
        target: TentacleTarget::MetroLine,
    };
    let answer = TentacleQuestionAnswer::WithinRadius { closest_id: "red".to_string() };
    let shape = expect_shape(question.to_shape(answer, &context));
    let (stream, result) = build(&shape);
    assert_eq!(stream.len(), 5);
    assert_eq!(result, Register(4));
    match &stream[0] {
        // the complexes the trip does not serve
        SdfInstruction::PointCloud { bvh, .. } => {
            assert_eq!(bvh.points, vec![(2 * COORD_SCALE, 0), (4 * COORD_SCALE, 0)])
        }
        other => panic!("not a point cloud: {:?}", other),
    }
    match &stream[1] {
        // the complexes it serves, once each, in order of their first stop
        SdfInstruction::PointCloud { bvh, .. } => {
            assert_eq!(bvh.points, vec![(3 * COORD_SCALE, 0), (COORD_SCALE, 0)])
        }
        other => panic!("not a point cloud: {:?}", other),
    }
    assert!(
        matches!(&stream[2], SdfInstruction::Dilate { input, amount, .. } if *input == Register(0) && amount.0 == 40_000)
    );
    assert!(
        matches!(&stream[3], SdfInstruction::Dilate { input, amount, .. } if *input == Register(1) && amount.0 == 40_000)
    );
    assert!(
        matches!(&stream[4], SdfInstruction::Boundary { inside, outside, resolution, .. }
            if *inside == Register(3) && *outside == Register(2) && *resolution == BoundaryOverlapResolution::Inside)
    );
}

#[test]
fn tentacle_metro_line_with_unknown_trip_is_invalid() {
    let context = metro_context();
    let question = TentacleQuestion {
        center: at(0.0, 0.0),
        radius: Centimeters(1),
        target: TentacleTarget::MetroLine,
    };
    let answer = TentacleQuestionAnswer::WithinRadius { closest_id: "blue".to_string() };
    let error = expect_error(question.to_shape(answer, &context));
    assert_eq!(error.class, ShapeErrorClass::InvalidParameters);
    assert_eq!(error.message, "The closest place is not part of the map.");
}

#[test]
fn tentacle_metro_line_with_unresolved_stops_is_invalid() {
    let context = metro_context();
    for trip in ["broken", "ghost"] {
        let question = TentacleQuestion {
            center: at(0.0, 0.0),
            radius: Centimeters(1),
            target: TentacleTarget::MetroLine,
        };
        let answer = TentacleQuestionAnswer::WithinRadius { closest_id: trip.to_string() };
        let error = expect_error(question.to_shape(answer, &context));
        assert_eq!(error.class, ShapeErrorClass::InvalidParameters);
        assert_eq!(error.message, "The stops of the closest line are not part of the map.");
    }
}

#[test]
fn context_lookups_take_the_first_match() {
    let mut context = with_pois("zoo", vec![poi("a", 1.0, 0.0), poi("a", 2.0, 0.0)]);
    context.poi_categories.push(PoiCategory { name: "zoo".to_string(), pois: vec![] });
    assert!(context.has_poi_category("zoo"));
    assert!(!context.has_poi_category("Zoo"));
    assert!(!context.has_poi_category("zo"));
    assert_eq!(context.get_all_pois("zoo").unwrap().len(), 2);
    assert!(context.get_all_pois("park").is_none());
    assert_eq!(context.get_poi("zoo", "a").unwrap().position, at(1.0, 0.0));
    assert!(context.get_poi("zoo", "b").is_none());
    assert!(context.get_poi("park", "a").is_none());
    assert!(!context.has_area_category("zoo"));
    assert!(context.get_all_areas_as_vdg("zoo").is_none());
    assert!(!context.has_high_speed_rail_line_data());
    assert!(context.high_speed_rail_lines().is_none());
    assert!(!context.has_sea_level_contour_texture());
    assert!(context.sea_level_contour_texture().is_none());
    assert_eq!(context.game_state().seeker_hiding_radius().0, 40_000);
    assert!(context.transit_context().all_complexes().is_empty());
}
