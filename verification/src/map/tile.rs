//! A raster tile: a latitude/longitude rectangle with a pixel resolution.

use vstd::prelude::*;

use crate::text::{find, first_occurrence, parse_number, parsed_number, to_chars};

verus! {

/// A rectangular region in scaled degrees, rendered at `width` by `height`
/// pixels.
#[derive(Clone, Copy, Debug, PartialEq, Eq, Structural)]
pub struct Tile {
    pub min_lon: i32,
    pub min_lat: i32,
    pub max_lon: i32,
    pub max_lat: i32,
    pub width: u32,
    pub height: u32,
}

impl Tile {
    /// Whether the rectangle is non-empty and has at least one pixel.
    pub open spec fn valid(&self) -> bool {
        &&& self.min_lon < self.max_lon
        &&& self.min_lat < self.max_lat
        &&& self.width > 0
        &&& self.height > 0
    }

    /// The number of pixels of the tile's raster.
    pub fn pixel_count(&self) -> (count: u64)
        ensures
            count == self.width * self.height,
    {
        assert(self.width * self.height <= 0xffff_ffff * 0xffff_ffff) by (nonlinear_arith)
            requires
                self.width <= 0xffff_ffff,
                self.height <= 0xffff_ffff,
        ;
        (self.width as u64) * (self.height as u64)
    }

    /// Whether a signed distance sample marks a pixel as a possible hider
    /// location: exactly the negative samples do.
    pub fn hider_possible(distance: i32) -> (possible: bool)
        ensures
            possible == (distance < 0),
    {
        distance < 0
    }
}

/// The part of a file name before its first dot.
pub open spec fn file_stem(file: Seq<char>) -> Seq<char> {
    file.subrange(0, first_occurrence(file, 0, file.len() as int, seq!['.']))
}

/// The zoom, column and row of the tile stored as `z/x/file`, where the
/// stem of `file` is the row. All three must be plain decimal numbers, the
/// zoom at most 255.
pub open spec fn tile_path(z: Seq<char>, x: Seq<char>, file: Seq<char>) -> Option<(u8, u32, u32)> {
    match (
        parsed_number(z, 255),
        parsed_number(x, 0xffff_ffff),
        parsed_number(file_stem(file), 0xffff_ffff),
    ) {
        (Some(zoom), Some(column), Some(row)) => Some((zoom as u8, column as u32, row as u32)),
        _ => None,
    }
}

/// Reads the last three components of a tile's path, such as `14`, `8192`
/// and `5461.mvt`.
pub fn parse_tile_path(z: &str, x: &str, file: &str) -> (tile: Option<(u8, u32, u32)>)
    ensures
        tile == tile_path(z@, x@, file@),
{
    let file_text = to_chars(file);
    let mut dot: Vec<char> = Vec::new();
    dot.push('.');
    assert(dot@ =~= seq!['.']);
    let stem_end = find(&file_text, 0, file_text.len(), &dot);
    assert(file_text@.subrange(0, stem_end as int) == file_stem(file@));
    let row = parse_number(&file_text, 0, stem_end, 0xffff_ffff);
    let x_text = to_chars(x);
    assert(x_text@.subrange(0, x_text@.len() as int) =~= x@);
    let column = parse_number(&x_text, 0, x_text.len(), 0xffff_ffff);
    let z_text = to_chars(z);
    assert(z_text@.subrange(0, z_text@.len() as int) =~= z@);
    let zoom = parse_number(&z_text, 0, z_text.len(), 255);
    match (zoom, column, row) {
        (Some(zoom), Some(column), Some(row)) => Some((zoom as u8, column as u32, row as u32)),
        _ => None,
    }
}

} // verus!
