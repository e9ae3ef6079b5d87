use jet_lag_core::map::tile::Tile;
use jet_lag_core::shape::bvh::PointBvh;
use jet_lag_core::shape::compiled::shader::argument::{
    push_words, ContourArgument, IntoShaderArgument, ShaderArgument,
};
use jet_lag_core::shape::instruction::ContourTexture;
use jet_lag_core::shape::types::{Centimeters, Position};
use jet_lag_core::shape::words::{push_signed_word, push_word, to_word};

fn tile() -> Tile {
    Tile { min_lon: 0, min_lat: 0, max_lon: 10, max_lat: 10, width: 256, height: 128 }
}

#[test]
fn words_are_little_endian() {
    for w in [0u32, 1, 0xff, 0x100, 0x0102_0304, 0xdead_beef, u32::MAX] {
        let mut buffer = vec![7u8];
        push_word(&mut buffer, w);
        let mut expected = vec![7u8];
        expected.extend_from_slice(&w.to_le_bytes());
        assert_eq!(buffer, expected);
    }
}

#[test]
fn signed_words_are_two_complement() {
    for x in [0i32, 1, -1, 255, -256, i32::MAX, i32::MIN, 10_000_000, -1_800_000_000] {
        assert_eq!(to_word(x), x as u32);
        let mut buffer = Vec::new();
        push_signed_word(&mut buffer, x);
        assert_eq!(buffer, x.to_le_bytes().to_vec());
    }
}

#[test]
fn word_lists_are_appended_in_order() {
    let mut buffer = vec![1u8, 2];
    push_words(&mut buffer, &vec![0x0403_0201, 0x0807_0605]);
    assert_eq!(buffer, vec![1, 2, 1, 2, 3, 4, 5, 6, 7, 8]);
    push_words(&mut buffer, &vec![]);
    assert_eq!(buffer.len(), 10);
}

#[test]
fn point_is_packed_as_two_words() {
    let mut buffer = vec![0u8; 8];
    let arguments = Position { x: 10_000_000, y: -5 }.into_shader_argument(&mut buffer, &tile());
    assert_eq!(arguments, vec![ShaderArgument { offset: 2, length: 2 }]);
    let mut expected = vec![0u8; 8];
    expected.extend_from_slice(&10_000_000i32.to_le_bytes());
    expected.extend_from_slice(&(-5i32).to_le_bytes());
    assert_eq!(buffer, expected);
}

#[test]
fn centimeters_are_packed_as_one_word() {
    let mut buffer = Vec::new();
    let first = Centimeters(-300).into_shader_argument(&mut buffer, &tile());
    let second = Centimeters(7).into_shader_argument(&mut buffer, &tile());
    assert_eq!(first, vec![ShaderArgument { offset: 0, length: 1 }]);
    assert_eq!(second, vec![ShaderArgument { offset: 1, length: 1 }]);
    let mut expected = (-300i32).to_le_bytes().to_vec();
    expected.extend_from_slice(&7i32.to_le_bytes());
    assert_eq!(buffer, expected);
}

#[test]
fn hierarchy_is_packed_whole() {
    let bvh = PointBvh::build(&[Position { x: 1, y: 2 }, Position { x: 3, y: 4 }]);
    let mut buffer = vec![0u8; 4];
    let arguments = bvh.into_shader_argument(&mut buffer, &tile());
    assert_eq!(arguments, vec![ShaderArgument { offset: 1, length: 13 }]);
    let mut expected = vec![0u8; 4];
    bvh.write_to_buffer(&mut expected);
    assert_eq!(buffer, expected);
    assert_eq!(buffer.len(), 4 + 13 * 4);
}

#[test]
fn contour_texture_is_packed_header_first() {
    let texture = ContourTexture {
        width: 2,
        height: 3,
        min_lat: -10,
        max_lat: 10,
        min_lon: -20,
        max_lon: 20,
        texels: vec![1.5f32.to_bits(), 0, 7, 8, 9, 0xffff_ffff],
    };
    let argument = ContourArgument { texture: &texture, zero: Centimeters(-42) };
    let mut buffer = vec![0u8; 8];
    let arguments = argument.into_shader_argument(&mut buffer, &tile());
    assert_eq!(
        arguments,
        vec![ShaderArgument { offset: 2, length: 7 }, ShaderArgument { offset: 9, length: 6 }]
    );
    let mut expected = vec![0u8; 8];
    for w in [2u32, 3] {
        expected.extend_from_slice(&w.to_le_bytes());
    }
    for x in [-10i32, 10, -20, 20, -42] {
        expected.extend_from_slice(&x.to_le_bytes());
    }
    for t in &texture.texels {
        expected.extend_from_slice(&t.to_le_bytes());
    }
    assert_eq!(buffer, expected);
}

#[test]
fn offsets_count_whole_words_of_the_old_buffer() {
    let mut buffer = vec![0u8; 6];
    let arguments = Centimeters(1).into_shader_argument(&mut buffer, &tile());
    assert_eq!(arguments, vec![ShaderArgument { offset: 1, length: 1 }]);
}

#[test]
fn tile_reports_its_raster() {
    let t = tile();
    assert_eq!(t.pixel_count(), 256 * 128);
    let big = Tile { width: u32::MAX, height: u32::MAX, ..t };
    assert_eq!(big.pixel_count(), u32::MAX as u64 * u32::MAX as u64);
    assert!(Tile::hider_possible(-1));
    assert!(!Tile::hider_possible(0));
    assert!(!Tile::hider_possible(1));
}
