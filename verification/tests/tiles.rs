use jet_lag_core::map::tile::parse_tile_path;
use jet_lag_core::text::parse_number;
use jet_lag_core::vector_tile::{
    compression_to_encoding, decode_geometry, encode_geometry, zigzag_decode, zigzag_encode,
    TileCompression, CLOSE_PATH, LINE_TO, MOVE_TO,
};

#[test]
fn zigzag_matches_the_bit_form() {
    for n in [0u32, 1, 2, 3, 4, 0xffff_fffe, 0xffff_ffff, 0x8000_0000, 12345] {
        assert_eq!(zigzag_decode(n), ((n >> 1) as i32) ^ (-((n & 1) as i32)));
    }
    for v in [0i32, -1, 1, -2, 2, i32::MAX, i32::MIN, 4096, -4096] {
        assert_eq!(zigzag_encode(v), ((v << 1) ^ (v >> 31)) as u32);
        assert_eq!(zigzag_decode(zigzag_encode(v)), v);
    }
    assert_eq!(zigzag_encode(0), 0);
    assert_eq!(zigzag_encode(-1), 1);
    assert_eq!(zigzag_encode(1), 2);
    assert_eq!(zigzag_encode(-2), 3);
}

#[test]
fn geometry_decodes_commands_with_absolute_coordinates() {
    // the polygon of the tile specification's example
    let geometry = vec![9, 6, 12, 18, 10, 12, 24, 44, 15];
    let commands = decode_geometry(&geometry);
    assert_eq!(
        commands,
        vec![
            (MOVE_TO, vec![(3, 6)]),
            (LINE_TO, vec![(8, 12), (20, 34)]),
            (CLOSE_PATH, vec![]),
        ]
    );
}

#[test]
fn geometry_round_trips() {
    let commands = vec![
        (MOVE_TO, vec![(3, 6)]),
        (LINE_TO, vec![(8, 12), (20, 34), (-5, -7)]),
        (CLOSE_PATH, vec![]),
        (MOVE_TO, vec![(i32::MAX, i32::MIN)]),
        (LINE_TO, vec![(i32::MIN, i32::MAX), (0, 0)]),
    ];
    let geometry = encode_geometry(&commands);
    assert_eq!(geometry[0], 9);
    assert_eq!(geometry[3], (3 << 3) | 2);
    assert_eq!(geometry[10], 15);
    assert_eq!(decode_geometry(&geometry), commands);
    assert_eq!(encode_geometry(&vec![]), Vec::<u32>::new());
    assert_eq!(decode_geometry(&vec![]), vec![]);
}

#[test]
fn geometry_decoding_tolerates_truncation_and_unknown_commands() {
    // a line of three points with only one and a half present
    assert_eq!(decode_geometry(&vec![(3 << 3) | 2, 2, 4, 6]), vec![(LINE_TO, vec![(1, 2)])]);
    assert_eq!(decode_geometry(&vec![(1 << 3) | 1]), vec![(MOVE_TO, vec![])]);
    // command 3 is no command; it is passed over word by word
    assert_eq!(decode_geometry(&vec![(1 << 3) | 3, 15, 9, 2, 2]), vec![(CLOSE_PATH, vec![]), (MOVE_TO, vec![(1, 1)])]);
    // a count beyond the words that are there
    assert_eq!(decode_geometry(&vec![u32::MAX - 6, 2, 2]), vec![(MOVE_TO, vec![(1, 1)])]);
}

#[test]
fn compressions_have_their_encodings() {
    assert_eq!(compression_to_encoding(TileCompression::Gzip), Some("gzip"));
    assert_eq!(compression_to_encoding(TileCompression::Brotli), Some("br"));
    assert_eq!(compression_to_encoding(TileCompression::Zstd), Some("zstd"));
    assert_eq!(compression_to_encoding(TileCompression::Uncompressed), None);
    assert_eq!(compression_to_encoding(TileCompression::Unknown), None);
}

#[test]
fn tile_paths_are_read() {
    assert_eq!(parse_tile_path("14", "8192", "5461.mvt"), Some((14, 8192, 5461)));
    assert_eq!(parse_tile_path("0", "0", "0.pbf"), Some((0, 0, 0)));
    assert_eq!(parse_tile_path("255", "4294967295", "4294967295"), Some((255, u32::MAX, u32::MAX)));
    assert_eq!(parse_tile_path("+3", "+4", "+5.tar.gz"), Some((3, 4, 5)));
    assert_eq!(parse_tile_path("007", "08", "009.mvt"), Some((7, 8, 9)));
}

#[test]
fn malformed_tile_paths_are_rejected() {
    assert_eq!(parse_tile_path("256", "1", "1.mvt"), None);
    assert_eq!(parse_tile_path("1", "4294967296", "1.mvt"), None);
    assert_eq!(parse_tile_path("1", "1", "4294967296.mvt"), None);
    assert_eq!(parse_tile_path("z", "1", "1.mvt"), None);
    assert_eq!(parse_tile_path("1", "", "1.mvt"), None);
    assert_eq!(parse_tile_path("1", "1", ".mvt"), None);
    assert_eq!(parse_tile_path("1", "1", ""), None);
    assert_eq!(parse_tile_path("1", "-1", "1.mvt"), None);
    assert_eq!(parse_tile_path("1", "1", "1a.mvt"), None);
    assert_eq!(parse_tile_path("1", " 1", "1.mvt"), None);
    assert_eq!(parse_tile_path("+", "1", "1.mvt"), None);
    assert_eq!(parse_tile_path("1", "99999999999999999999999", "1"), None);
    assert_eq!(parse_tile_path("1", "１", "1"), None);
}

#[test]
fn numbers_parse_like_the_standard_library() {
    for text in ["0", "1", "+1", "-1", "", "+", "0010", "4294967295", "4294967296", "12a", "a12", "1 ", "++1", "000000000000000000004294967295"] {
        let chars: Vec<char> = text.chars().collect();
        let got = parse_number(&chars, 0, chars.len(), u32::MAX as u64);
        assert_eq!(got, text.parse::<u32>().ok().map(|v| v as u64), "{:?}", text);
        let small = parse_number(&chars, 0, chars.len(), 255);
        assert_eq!(small, text.parse::<u8>().ok().map(|v| v as u64), "{:?}", text);
    }
    let chars: Vec<char> = "ab123cd".chars().collect();
    assert_eq!(parse_number(&chars, 2, 5, 1000), Some(123));
    assert_eq!(parse_number(&chars, 2, 5, 122), None);
}
