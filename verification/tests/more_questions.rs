use jet_lag_core::hide_and_seek::question::context::{
    GameState, PoiCategory, PointOfInterest, QuestionContext,
};
use jet_lag_core::hide_and_seek::question::matching::{
    MatchingQuestion, MatchingQuestionAnswer, MatchingTarget,
};
use jet_lag_core::hide_and_seek::question::thermometer::{
    ThermometerQuestion, ThermometerQuestionAnswer,
};
use jet_lag_core::hide_and_seek::question::{AnyQuestion, Question, ShapeErrorClass};
use jet_lag_core::shape::compiler::{SdfCompiler, Shape};
use jet_lag_core::shape::instruction::{BoundaryOverlapResolution, Register, SdfInstruction};
use jet_lag_core::shape::types::{Centimeters, Position};
use jet_lag_core::transit::TransitData;

fn context_with(name: &str, places: &[(&str, i32, i32)]) -> QuestionContext {
    QuestionContext {
        poi_categories: vec![PoiCategory {
            name: name.to_string(),
            pois: places
                .iter()
                .map(|(id, x, y)| PointOfInterest {
                    id: id.to_string(),
                    position: Position { x: *x, y: *y },
                })
                .collect(),
        }],
        area_categories: vec![],
        rail_lines: None,
        contour_texture: None,
        transit: TransitData { stations: vec![], complexes: vec![], trips: vec![] },
        game: GameState { seeker_hiding_radius: Centimeters(0) },
    }
}

fn build<S: Shape>(shape: &S) -> (Vec<SdfInstruction>, Register) {
    let mut compiler = SdfCompiler::new();
    let result = shape.build_into(&mut compiler);
    (compiler.into_instructions(), result)
}

#[test]
fn thermometer_hotter_is_nearer_to_the_end() {
    let context = context_with("zoo", &[]);
    let question =
        ThermometerQuestion { start: Position { x: 0, y: 0 }, end: Position { x: 100, y: 0 } };
    assert!(matches!(question.to_any(), AnyQuestion::Thermometer(q) if q == question));
    let shape = question.to_shape(ThermometerQuestionAnswer::Hotter, &context).ok().unwrap();
    let (stream, result) = build(&shape);
    assert_eq!(stream.len(), 3);
    assert_eq!(result, Register(2));
    assert!(matches!(&stream[0], SdfInstruction::Point { position, .. } if *position == question.end));
    assert!(matches!(&stream[1], SdfInstruction::Point { position, .. } if *position == question.start));
    assert!(
        matches!(&stream[2], SdfInstruction::Boundary { inside, outside, resolution, .. }
            if *inside == Register(0) && *outside == Register(1) && *resolution == BoundaryOverlapResolution::Inside)
    );
}

#[test]
fn thermometer_colder_is_nearer_to_the_start() {
    let context = context_with("zoo", &[]);
    let question =
        ThermometerQuestion { start: Position { x: 0, y: 0 }, end: Position { x: 100, y: 0 } };
    let shape = question.to_shape(ThermometerQuestionAnswer::Colder, &context).ok().unwrap();
    let (stream, _) = build(&shape);
    assert!(matches!(&stream[0], SdfInstruction::Point { position, .. } if *position == question.start));
    assert!(matches!(&stream[1], SdfInstruction::Point { position, .. } if *position == question.end));
}

#[test]
fn thermometer_without_a_leg_is_invalid() {
    let context = context_with("zoo", &[]);
    let here = Position { x: 5, y: 5 };
    let question = ThermometerQuestion { start: here, end: here };
    let error = question.to_shape(ThermometerQuestionAnswer::Hotter, &context).err().unwrap();
    assert_eq!(error.class, ShapeErrorClass::InvalidParameters);
    assert_eq!(error.message, "The start and the end of the leg must differ.");
    assert!(error.resolution_hint.is_none());
}

#[test]
fn matching_same_is_the_cell_of_the_nearest_place() {
    let context = context_with("park", &[("a", 1, 1), ("b", 2, 2), ("c", 3, 3)]);
    let question =
        MatchingQuestion { category: MatchingTarget::Park, nearest_id: "b".to_string() };
    let shape = question.to_shape(MatchingQuestionAnswer::Same, &context).ok().unwrap();
    let (stream, result) = build(&shape);
    assert_eq!(stream.len(), 3);
    assert_eq!(result, Register(2));
    match &stream[0] {
        SdfInstruction::PointCloud { bvh, .. } => assert_eq!(bvh.points, vec![(1, 1), (3, 3)]),
        other => panic!("not a point cloud: {:?}", other),
    }
    assert!(
        matches!(&stream[1], SdfInstruction::Point { position, .. } if *position == Position { x: 2, y: 2 })
    );
    assert!(
        matches!(&stream[2], SdfInstruction::Boundary { inside, outside, resolution, .. }
            if *inside == Register(1) && *outside == Register(0) && *resolution == BoundaryOverlapResolution::Inside)
    );
}

#[test]
fn matching_different_is_the_complement_of_the_cell() {
    let context = context_with("park", &[("a", 1, 1), ("b", 2, 2)]);
    let question =
        MatchingQuestion { category: MatchingTarget::Park, nearest_id: "a".to_string() };
    let shape = question.to_shape(MatchingQuestionAnswer::Different, &context).ok().unwrap();
    let (stream, result) = build(&shape);
    assert_eq!(stream.len(), 4);
    assert_eq!(result, Register(3));
    assert!(matches!(&stream[3], SdfInstruction::Invert { input, .. } if *input == Register(2)));
}

#[test]
fn matching_names_the_missing_bundle() {
    let context = context_with("park", &[("a", 1, 1)]);
    let cases = [
        (MatchingTarget::CommercialAirport, "airport", "Airports"),
        (MatchingTarget::Mountain, "mountain", "Mountains"),
        (MatchingTarget::AmusementPark, "amusement_park", "Amusement Parks"),
        (MatchingTarget::Zoo, "zoo", "Zoos"),
        (MatchingTarget::Aquarium, "aquarium", "Aquariums"),
        (MatchingTarget::GolfCourse, "golf_course", "Golf Courses"),
        (MatchingTarget::Museum, "museum", "Museums"),
        (MatchingTarget::MovieTheater, "movie_theater", "Movie Theaters"),
        (MatchingTarget::Hospital, "hospital", "Hospitals"),
        (MatchingTarget::Library, "library", "Libraries"),
        (MatchingTarget::ForeignConsulate, "foreign_consulate", "Foreign Consulates"),
    ];
    for (category, key, name) in cases {
        assert_eq!(category.key(), key);
        assert_eq!(category.nice_name(), name);
        let question = MatchingQuestion { category, nearest_id: "a".to_string() };
        let error = question.to_shape(MatchingQuestionAnswer::Same, &context).err().unwrap();
        assert_eq!(error.class, ShapeErrorClass::MissingData);
        assert_eq!(error.message, format!("Missing {} Data!", name));
    }
    assert_eq!(MatchingTarget::Park.key(), "park");
    assert_eq!(MatchingTarget::Park.nice_name(), "Parks");
}

#[test]
fn matching_with_an_unknown_place_is_invalid() {
    let context = context_with("park", &[("a", 1, 1)]);
    let question =
        MatchingQuestion { category: MatchingTarget::Park, nearest_id: "z".to_string() };
    let error = question.to_shape(MatchingQuestionAnswer::Same, &context).err().unwrap();
    assert_eq!(error.class, ShapeErrorClass::InvalidParameters);
    assert_eq!(error.message, "The closest place is not part of the map.");
}

#[test]
fn photo_questions_have_no_shape() {
    let question = jet_lag_core::hide_and_seek::question::photo::PhotoQuestion {
        subject: "a tree".to_string(),
    };
    let error = question.shape_error();
    assert_eq!(error.class, ShapeErrorClass::Uncomputable);
    assert_eq!(error.message, "A photo cannot be drawn on the map.");
    assert!(error.resolution_hint.is_none());
}
