//! Mapbox vector tiles: the geometry types and the command encoding of
//! feature geometries.

use vstd::prelude::*;

use crate::shape::types::{wrap_i32, wrapping_difference, wrapping_sum};

verus! {

/// The kind of geometry a feature holds.
#[derive(Clone, Copy, Debug, PartialEq, Eq, Hash, Structural)]
pub enum GeomType {
    Unknown,
    Point,
    Linestring,
    Polygon,
}

impl GeomType {
    /// The geometry type of the wire value `value`, if it names one.
    pub open spec fn of_wire(value: i32) -> Option<GeomType> {
        if value == 0 {
            Some(GeomType::Unknown)
        } else if value == 1 {
            Some(GeomType::Point)
        } else if value == 2 {
            Some(GeomType::Linestring)
        } else if value == 3 {
            Some(GeomType::Polygon)
        } else {
            None
        }
    }

    /// The name of the type in the tile specification.
    pub open spec fn name(&self) -> Seq<char> {
        match *self {
            GeomType::Unknown => "UNKNOWN"@,
            GeomType::Point => "POINT"@,
            GeomType::Linestring => "LINESTRING"@,
            GeomType::Polygon => "POLYGON"@,
        }
    }

    pub fn as_str_name(&self) -> (name: &'static str)
        ensures
            name@ == self.name(),
    {
        match self {
            GeomType::Unknown => "UNKNOWN",
            GeomType::Point => "POINT",
            GeomType::Linestring => "LINESTRING",
            GeomType::Polygon => "POLYGON",
        }
    }

    /// The geometry type of a wire value; the value itself if it names
    /// none.
    pub fn try_from(value: i32) -> (result: Result<GeomType, i32>)
        ensures
            match result {
                Ok(geom_type) => GeomType::of_wire(value) == Some(geom_type),
                Err(rejected) => GeomType::of_wire(value).is_none() && rejected == value,
            },
    {
        match value {
            0 => Ok(GeomType::Unknown),
            1 => Ok(GeomType::Point),
            2 => Ok(GeomType::Linestring),
            3 => Ok(GeomType::Polygon),
            _ => Err(value),
        }
    }
}

impl Default for GeomType {
    fn default() -> (geom_type: Self)
        ensures
            geom_type == GeomType::Unknown,
    {
        GeomType::Unknown
    }
}

/// One feature of a layer: tags into the layer's key and value tables and
/// a command-encoded geometry.
#[derive(Clone, Debug)]
pub struct Feature {
    pub id: Option<u64>,
    pub tags: Vec<u32>,
    pub geom_type: Option<i32>,
    pub geometry: Vec<u32>,
}

impl Feature {
    /// The geometry type of the feature: `Unknown` unless the wire value
    /// names a point, a linestring or a polygon.
    pub fn get_type(&self) -> (geom_type: GeomType)
        ensures
            geom_type == match self.geom_type {
                Some(value) => match GeomType::of_wire(value) {
                    Some(known) => known,
                    None => GeomType::Unknown,
                },
                None => GeomType::Unknown,
            },
    {
        match self.geom_type {
            Some(1) => GeomType::Point,
            Some(2) => GeomType::Linestring,
            Some(3) => GeomType::Polygon,
            _ => GeomType::Unknown,
        }
    }
}

/// A tile: its layers, by the names of their features alone. Attribute
/// values, which may be floating point, stay with the decoder.
#[derive(Clone, Debug)]
pub struct Tile {
    pub layers: Vec<Layer>,
}

/// One layer of a tile.
#[derive(Clone, Debug)]
pub struct Layer {
    pub version: u32,
    pub name: String,
    pub features: Vec<Feature>,
    pub keys: Vec<String>,
    pub extent: Option<u32>,
}

impl Layer {
    /// The side length of the layer's coordinate grid: 4096 unless the
    /// layer says otherwise.
    pub fn extent_or_default(&self) -> (extent: u32)
        ensures
            extent == match self.extent {
                Some(extent) => extent,
                None => 4096,
            },
    {
        match self.extent {
            Some(extent) => extent,
            None => 4096,
        }
    }
}

/// The command that moves the cursor to the first point of a part.
pub const MOVE_TO: u32 = 1;

/// The command that draws to each of its points.
pub const LINE_TO: u32 = 2;

/// The command that closes a ring.
pub const CLOSE_PATH: u32 = 7;

/// The signed value that the zigzag code `n` stands for.
pub open spec fn zigzag_value(n: u32) -> int {
    if n % 2 == 0 {
        n as int / 2
    } else {
        -(n as int / 2) - 1
    }
}

/// The zigzag code of the signed value `v`: small magnitudes get small
/// codes.
pub open spec fn zigzag_code(v: i32) -> int {
    if v >= 0 {
        2 * v
    } else {
        -2 * v - 1
    }
}

/// Decoding undoes encoding, and encoding undoes decoding.
pub proof fn law_zigzag_round_trip(v: i32, n: u32)
    ensures
        0 <= zigzag_code(v) <= u32::MAX,
        i32::MIN <= zigzag_value(n) <= i32::MAX,
        zigzag_value(zigzag_code(v) as u32) == v,
        zigzag_code(zigzag_value(n) as i32) == n,
{
}

pub fn zigzag_decode(n: u32) -> (v: i32)
    ensures
        v == zigzag_value(n),
{
    let half: u32 = n / 2;
    if n % 2 == 0 {
        half as i32
    } else {
        -(half as i32) - 1
    }
}

pub fn zigzag_encode(v: i32) -> (n: u32)
    ensures
        n == zigzag_code(v),
{
    if v >= 0 {
        (v as u32) * 2
    } else {
        let magnitude: i64 = -(v as i64);
        let wide: i64 = 2 * magnitude - 1;
        wide as u32
    }
}

/// Reads up to `remaining` points from position `i` of `g`, each a pair of
/// zigzag-coded steps from the cursor `(x, y)`, and appends them to
/// `found`. Stops early where fewer than two words are left. Yields the
/// position after the last word read, the cursor and the points.
pub open spec fn read_points(
    g: Seq<u32>,
    i: int,
    remaining: nat,
    x: int,
    y: int,
    found: Seq<(i32, i32)>,
) -> (int, int, int, Seq<(i32, i32)>)
    decreases remaining,
{
    if remaining == 0 || i + 1 >= g.len() {
        (i, x, y, found)
    } else {
        let nx = wrap_i32(x + zigzag_value(g[i]));
        let ny = wrap_i32(y + zigzag_value(g[i + 1]));
        read_points(g, i + 2, (remaining - 1) as nat, nx, ny, found.push((nx as i32, ny as i32)))
    }
}

/// Reading points never moves backwards, and reads whole pairs.
pub proof fn lemma_read_points_advances(
    g: Seq<u32>,
    i: int,
    remaining: nat,
    x: int,
    y: int,
    found: Seq<(i32, i32)>,
)
    requires
        0 <= i <= g.len(),
        i32::MIN <= x <= i32::MAX,
        i32::MIN <= y <= i32::MAX,
    ensures
        i <= read_points(g, i, remaining, x, y, found).0 <= g.len(),
        i32::MIN <= read_points(g, i, remaining, x, y, found).1 <= i32::MAX,
        i32::MIN <= read_points(g, i, remaining, x, y, found).2 <= i32::MAX,
    decreases remaining,
{
    if !(remaining == 0 || i + 1 >= g.len()) {
        let nx = wrap_i32(x + zigzag_value(g[i]));
        let ny = wrap_i32(y + zigzag_value(g[i + 1]));
        lemma_read_points_advances(
            g,
            i + 2,
            (remaining - 1) as nat,
            nx,
            ny,
            found.push((nx as i32, ny as i32)),
        );
    }
}

/// The commands of the geometry `g` from position `i` on, appended to
/// `found`, with the cursor at `(x, y)`.
///
/// A command word holds the command in its low three bits and a count in
/// the rest. `MOVE_TO` and `LINE_TO` are followed by that many points;
/// `CLOSE_PATH` by nothing; any other command word is passed over.
pub open spec fn read_commands(
    g: Seq<u32>,
    i: int,
    x: int,
    y: int,
    found: Seq<(u32, Seq<(i32, i32)>)>,
) -> Seq<(u32, Seq<(i32, i32)>)>
    decreases g.len() - i,
{
    if i < 0 || i >= g.len() || !(i32::MIN <= x <= i32::MAX) || !(i32::MIN <= y <= i32::MAX) {
        found
    } else {
        let command = g[i] % 8;
        let count = g[i] / 8;
        if command == MOVE_TO || command == LINE_TO {
            let read = read_points(g, i + 1, count as nat, x, y, Seq::empty());
            proof {
                lemma_read_points_advances(g, i + 1, count as nat, x, y, Seq::empty());
            }
            read_commands(g, read.0, read.1, read.2, found.push((command, read.3)))
        } else if command == CLOSE_PATH {
            read_commands(g, i + 1, x, y, found.push((command, Seq::empty())))
        } else {
            read_commands(g, i + 1, x, y, found)
        }
    }
}

/// The commands of the geometry `g`, with absolute coordinates.
pub open spec fn decoded(g: Seq<u32>) -> Seq<(u32, Seq<(i32, i32)>)> {
    read_commands(g, 0, 0, 0, Seq::empty())
}

/// The commands `commands` with the views of their point lists.
pub open spec fn commands_view(commands: Seq<(u32, Vec<(i32, i32)>)>) -> Seq<
    (u32, Seq<(i32, i32)>),
> {
    Seq::new(commands.len(), |i: int| (commands[i].0, commands[i].1@))
}

/// Decodes a command-encoded geometry into commands with absolute
/// coordinates. Steps that leave the 32-bit range wrap around.
pub fn decode_geometry(geometry: &Vec<u32>) -> (commands: Vec<(u32, Vec<(i32, i32)>)>)
    ensures
        commands_view(commands@) == decoded(geometry@),
{
    let mut result: Vec<(u32, Vec<(i32, i32)>)> = Vec::new();
    let mut i: usize = 0;
    let mut x: i32 = 0;
    let mut y: i32 = 0;
    assert(commands_view(result@) =~= Seq::<(u32, Seq<(i32, i32)>)>::empty());
    while i < geometry.len()
        invariant
            i <= geometry.len(),
            read_commands(geometry@, i as int, x as int, y as int, commands_view(result@))
                == decoded(geometry@),
        decreases geometry.len() - i,
    {
        let ghost before = commands_view(result@);
        let ghost at = i as int;
        let cmd_int = geometry[i];
        let cmd = cmd_int % 8;
        let count = cmd_int / 8;
        i += 1;
        if cmd == MOVE_TO || cmd == LINE_TO {
            let mut coords: Vec<(i32, i32)> = Vec::new();
            let mut left = count;
            let ghost x0 = x as int;
            let ghost y0 = y as int;
            proof {
                lemma_read_points_advances(geometry@, at + 1, count as nat, x0, y0, Seq::empty());
            }
            while left > 0 && i < geometry.len() && geometry.len() - i >= 2
                invariant
                    i <= geometry.len(),
                    at + 1 <= i,
                    read_points(
                        geometry@,
                        i as int,
                        left as nat,
                        x as int,
                        y as int,
                        coords@,
                    ) == read_points(geometry@, at + 1, count as nat, x0, y0, Seq::empty()),
                decreases left,
            {
                let dx = zigzag_decode(geometry[i]);
                let dy = zigzag_decode(geometry[i + 1]);
                i += 2;
                x = wrapping_sum(x, dx);
                y = wrapping_sum(y, dy);
                coords.push((x, y));
                left -= 1;
            }
            result.push((cmd, coords));
            assert(commands_view(result@) =~= before.push((cmd, coords@)));
        } else if cmd == CLOSE_PATH {
            result.push((cmd, Vec::new()));
            assert(commands_view(result@) =~= before.push((cmd, Seq::empty())));
        }
    }
    result
}

/// The words of the points `coords[k..]`, each as a pair of zigzag-coded
/// steps from the cursor `(x, y)`, appended to `out`. Yields the cursor and
/// the words.
pub open spec fn write_points(
    coords: Seq<(i32, i32)>,
    k: int,
    x: int,
    y: int,
    out: Seq<u32>,
) -> (int, int, Seq<u32>)
    decreases coords.len() - k,
{
    if k < 0 || k >= coords.len() {
        (x, y, out)
    } else {
        let (cx, cy) = coords[k];
        let dx = wrap_i32(cx - x);
        let dy = wrap_i32(cy - y);
        write_points(
            coords,
            k + 1,
            cx as int,
            cy as int,
            out.push(zigzag_code(dx as i32) as u32).push(zigzag_code(dy as i32) as u32),
        )
    }
}

/// The command word of `command` with `count` points: the low three bits of
/// the command and the low 29 bits of the count.
pub open spec fn command_word(command: u32, count: nat) -> u32 {
    ((command % 8) + (count % 0x2000_0000) * 8) as u32
}

/// The words of the commands `commands[k..]`, appended to `out`, with the
/// cursor at `(x, y)`. `CLOSE_PATH` is written with a count of one and
/// without points.
pub open spec fn write_commands(
    commands: Seq<(u32, Seq<(i32, i32)>)>,
    k: int,
    x: int,
    y: int,
    out: Seq<u32>,
) -> Seq<u32>
    decreases commands.len() - k,
{
    if k < 0 || k >= commands.len() {
        out
    } else {
        let (command, coords) = commands[k];
        if command == CLOSE_PATH {
            write_commands(commands, k + 1, x, y, out.push(command_word(CLOSE_PATH, 1)))
        } else {
            let written = write_points(
                coords,
                0,
                x,
                y,
                out.push(command_word(command, coords.len())),
            );
            write_commands(commands, k + 1, written.0, written.1, written.2)
        }
    }
}

/// The geometry that encodes `commands`.
pub open spec fn encoded(commands: Seq<(u32, Seq<(i32, i32)>)>) -> Seq<u32> {
    write_commands(commands, 0, 0, 0, Seq::empty())
}

/// Encodes commands with absolute coordinates into a command-encoded
/// geometry. Steps that leave the 32-bit range wrap around.
pub fn encode_geometry(commands: &Vec<(u32, Vec<(i32, i32)>)>) -> (geometry: Vec<u32>)
    ensures
        geometry@ == encoded(commands_view(commands@)),
{
    let mut result: Vec<u32> = Vec::new();
    let mut x: i32 = 0;
    let mut y: i32 = 0;
    let ghost view = commands_view(commands@);
    let mut k: usize = 0;
    while k < commands.len()
        invariant
            k <= commands.len(),
            view == commands_view(commands@),
            write_commands(view, k as int, x as int, y as int, result@) == encoded(view),
        decreases commands.len() - k,
    {
        let cmd = commands[k].0;
        let coords = &commands[k].1;
        assert(view[k as int] == (cmd, coords@));
        if cmd == CLOSE_PATH {
            result.push(cmd % 8 + 8);
        } else {
            let count = (coords.len() % 0x2000_0000) as u32;
            result.push(cmd % 8 + count * 8);
            let ghost x0 = x as int;
            let ghost y0 = y as int;
            let ghost header = result@;
            let mut j: usize = 0;
            while j < coords.len()
                invariant
                    j <= coords.len(),
                    write_points(coords@, j as int, x as int, y as int, result@) == write_points(
                        coords@,
                        0,
                        x0,
                        y0,
                        header,
                    ),
                decreases coords.len() - j,
            {
                let (cx, cy) = coords[j];
                let dx = wrapping_difference(cx, x);
                let dy = wrapping_difference(cy, y);
                result.push(zigzag_encode(dx));
                result.push(zigzag_encode(dy));
                x = cx;
                y = cy;
                j += 1;
            }
        }
        k += 1;
    }
    result
}

/// Whether `command` can be written and read back: a move or a line with
/// fewer than 2^29 points, or a close without points.
pub open spec fn command_wf(command: (u32, Seq<(i32, i32)>)) -> bool {
    ||| (command.0 == MOVE_TO || command.0 == LINE_TO) && command.1.len() < 0x2000_0000
    ||| command.0 == CLOSE_PATH && command.1.len() == 0
}

/// Stepping from `x` by the wrapped difference to `c` arrives at `c`.
pub proof fn lemma_wrapped_step(x: int, c: int)
    requires
        i32::MIN <= x <= i32::MAX,
        i32::MIN <= c <= i32::MAX,
    ensures
        i32::MIN <= wrap_i32(c - x) <= i32::MAX,
        wrap_i32(x + wrap_i32(c - x)) == c,
{
}

/// The cursor after writing points is the last point written, and what is
/// written is appended to what was there, two words per point.
pub proof fn lemma_write_points(coords: Seq<(i32, i32)>, k: int, x: int, y: int, out: Seq<u32>)
    requires
        0 <= k <= coords.len(),
        i32::MIN <= x <= i32::MAX,
        i32::MIN <= y <= i32::MAX,
    ensures
        write_points(coords, k, x, y, out).2 == out + write_points(
            coords,
            k,
            x,
            y,
            Seq::empty(),
        ).2,
        write_points(coords, k, x, y, out).0 == write_points(coords, k, x, y, Seq::empty()).0,
        write_points(coords, k, x, y, out).1 == write_points(coords, k, x, y, Seq::empty()).1,
        write_points(coords, k, x, y, Seq::empty()).2.len() == 2 * (coords.len() - k),
        i32::MIN <= write_points(coords, k, x, y, out).0 <= i32::MAX,
        i32::MIN <= write_points(coords, k, x, y, out).1 <= i32::MAX,
    decreases coords.len() - k,
{
    if k < coords.len() {
        let (cx, cy) = coords[k];
        let dx = wrap_i32(cx - x);
        let dy = wrap_i32(cy - y);
        lemma_wrapped_step(x, cx as int);
        lemma_wrapped_step(y, cy as int);
        let wx = zigzag_code(dx as i32) as u32;
        let wy = zigzag_code(dy as i32) as u32;
        let none = Seq::<u32>::empty();
        lemma_write_points(coords, k + 1, cx as int, cy as int, out.push(wx).push(wy));
        lemma_write_points(coords, k + 1, cx as int, cy as int, none.push(wx).push(wy));
        let tail = write_points(coords, k + 1, cx as int, cy as int, none).2;
        assert(out.push(wx).push(wy) + tail =~= out + (none.push(wx).push(wy) + tail));
    } else {
        assert(out + Seq::<u32>::empty() =~= out);
    }
}

/// What is written for commands is appended to what was there.
pub proof fn lemma_write_commands(
    commands: Seq<(u32, Seq<(i32, i32)>)>,
    k: int,
    x: int,
    y: int,
    out: Seq<u32>,
)
    requires
        0 <= k <= commands.len(),
        i32::MIN <= x <= i32::MAX,
        i32::MIN <= y <= i32::MAX,
    ensures
        write_commands(commands, k, x, y, out) == out + write_commands(
            commands,
            k,
            x,
            y,
            Seq::empty(),
        ),
    decreases commands.len() - k,
{
    let none = Seq::<u32>::empty();
    if k < commands.len() {
        let (command, coords) = commands[k];
        if command == CLOSE_PATH {
            let word = command_word(CLOSE_PATH, 1);
            lemma_write_commands(commands, k + 1, x, y, out.push(word));
            lemma_write_commands(commands, k + 1, x, y, none.push(word));
            let tail = write_commands(commands, k + 1, x, y, none);
            assert(out.push(word) + tail =~= out + (none.push(word) + tail));
        } else {
            let word = command_word(command, coords.len());
            lemma_write_points(coords, 0, x, y, out.push(word));
            lemma_write_points(coords, 0, x, y, none.push(word));
            let written = write_points(coords, 0, x, y, out.push(word));
            let alone = write_points(coords, 0, x, y, none.push(word));
            lemma_write_commands(commands, k + 1, written.0, written.1, written.2);
            lemma_write_commands(commands, k + 1, alone.0, alone.1, alone.2);
            let points = write_points(coords, 0, x, y, none).2;
            let tail = write_commands(commands, k + 1, written.0, written.1, none);
            assert(written.2 + tail =~= out + (alone.2 + tail)) by {
                assert(written.2 =~= out.push(word) + points);
                assert(alone.2 =~= none.push(word) + points);
            }
        }
    } else {
        assert(out + none =~= out);
    }
}

/// Points that were written are read back as they were.
pub proof fn lemma_points_read_back(
    g: Seq<u32>,
    i: int,
    coords: Seq<(i32, i32)>,
    k: int,
    x: int,
    y: int,
    found: Seq<(i32, i32)>,
)
    requires
        0 <= k <= coords.len(),
        0 <= i,
        i + 2 * (coords.len() - k) <= g.len(),
        i32::MIN <= x <= i32::MAX,
        i32::MIN <= y <= i32::MAX,
        g.subrange(i, i + 2 * (coords.len() - k)) == write_points(
            coords,
            k,
            x,
            y,
            Seq::empty(),
        ).2,
    ensures
        read_points(g, i, (coords.len() - k) as nat, x, y, found) == (
            i + 2 * (coords.len() - k),
            write_points(coords, k, x, y, Seq::empty()).0,
            write_points(coords, k, x, y, Seq::empty()).1,
            found + coords.subrange(k, coords.len() as int),
        ),
    decreases coords.len() - k,
{
    let none = Seq::<u32>::empty();
    let m = coords.len() - k;
    if m == 0 {
        assert(found + coords.subrange(k, coords.len() as int) =~= found);
    } else {
        let (cx, cy) = coords[k];
        let dx = wrap_i32(cx - x);
        let dy = wrap_i32(cy - y);
        lemma_wrapped_step(x, cx as int);
        lemma_wrapped_step(y, cy as int);
        let wx = zigzag_code(dx as i32) as u32;
        let wy = zigzag_code(dy as i32) as u32;
        law_zigzag_round_trip(dx as i32, 0);
        law_zigzag_round_trip(dy as i32, 0);
        lemma_write_points(coords, k + 1, cx as int, cy as int, none.push(wx).push(wy));
        let words = write_points(coords, k, x, y, none).2;
        let tail = write_points(coords, k + 1, cx as int, cy as int, none).2;
        assert(words == none.push(wx).push(wy) + tail);
        assert(g[i] == g.subrange(i, i + 2 * m)[0]);
        assert(g[i + 1] == g.subrange(i, i + 2 * m)[1]);
        assert(words[0] == wx && words[1] == wy);
        assert(g.subrange(i + 2, i + 2 + 2 * (m - 1)) =~= tail) by {
            assert forall|j: int| 0 <= j < 2 * (m - 1) implies g.subrange(
                i + 2,
                i + 2 + 2 * (m - 1),
            )[j] == tail[j] by {
                assert(g[i + 2 + j] == g.subrange(i, i + 2 * m)[j + 2]);
                assert(words[j + 2] == tail[j]);
            }
        }
        lemma_points_read_back(g, i + 2, coords, k + 1, cx as int, cy as int, found.push((cx, cy)));
        assert(found.push((cx, cy)) + coords.subrange(k + 1, coords.len() as int) =~= found
            + coords.subrange(k, coords.len() as int));
    }
}

/// Commands that were written are read back as they were.
pub proof fn lemma_commands_read_back(
    g: Seq<u32>,
    i: int,
    commands: Seq<(u32, Seq<(i32, i32)>)>,
    k: int,
    x: int,
    y: int,
    found: Seq<(u32, Seq<(i32, i32)>)>,
)
    requires
        0 <= k <= commands.len(),
        0 <= i <= g.len(),
        i32::MIN <= x <= i32::MAX,
        i32::MIN <= y <= i32::MAX,
        forall|j: int| 0 <= j < commands.len() ==> command_wf(#[trigger] commands[j]),
        g.subrange(i, g.len() as int) == write_commands(commands, k, x, y, Seq::empty()),
    ensures
        read_commands(g, i, x, y, found) == found + commands.subrange(k, commands.len() as int),
    decreases commands.len() - k,
{
    let none = Seq::<u32>::empty();
    let rest = g.subrange(i, g.len() as int);
    if k == commands.len() {
        assert(rest.len() == 0);
        assert(found + commands.subrange(k, commands.len() as int) =~= found);
    } else {
        let (command, coords) = commands[k];
        assert(command_wf(commands[k]));
        if command == CLOSE_PATH {
            let word = command_word(CLOSE_PATH, 1);
            lemma_write_commands(commands, k + 1, x, y, none.push(word));
            let tail = write_commands(commands, k + 1, x, y, none);
            assert(rest == none.push(word) + tail);
            assert(g[i] == rest[0]);
            assert(word == 15);
            assert(g.subrange(i + 1, g.len() as int) =~= tail) by {
                assert forall|j: int| 0 <= j < tail.len() implies g.subrange(
                    i + 1,
                    g.len() as int,
                )[j] == tail[j] by {
                    assert(g[i + 1 + j] == rest[j + 1]);
                }
            }
            assert(coords =~= Seq::<(i32, i32)>::empty());
            lemma_commands_read_back(
                g,
                i + 1,
                commands,
                k + 1,
                x,
                y,
                found.push((command, Seq::empty())),
            );
            assert(found.push((command, Seq::empty())) + commands.subrange(
                k + 1,
                commands.len() as int,
            ) =~= found + commands.subrange(k, commands.len() as int));
        } else {
            let n = coords.len();
            let word = command_word(command, n);
            assert(word % 8 == command && word / 8 == n);
            lemma_write_points(coords, 0, x, y, none.push(word));
            let written = write_points(coords, 0, x, y, none.push(word));
            let points = write_points(coords, 0, x, y, none);
            lemma_write_points(coords, 0, x, y, none);
            lemma_write_commands(commands, k + 1, written.0, written.1, written.2);
            let tail = write_commands(commands, k + 1, written.0, written.1, none);
            assert(rest == (none.push(word) + points.2) + tail);
            assert(g[i] == rest[0]);
            assert(g.subrange(i + 1, i + 1 + 2 * n) =~= points.2) by {
                assert forall|j: int| 0 <= j < 2 * n implies g.subrange(i + 1, i + 1 + 2 * n)[j]
                    == points.2[j] by {
                    assert(g[i + 1 + j] == rest[j + 1]);
                }
            }
            lemma_points_read_back(g, i + 1, coords, 0, x, y, Seq::empty());
            assert(Seq::<(i32, i32)>::empty() + coords.subrange(0, n as int) =~= coords);
            let next = i + 1 + 2 * n;
            assert(g.subrange(next, g.len() as int) =~= tail) by {
                assert forall|j: int| 0 <= j < tail.len() implies g.subrange(
                    next,
                    g.len() as int,
                )[j] == tail[j] by {
                    assert(g[next + j] == rest[j + 1 + 2 * n]);
                }
            }
            lemma_commands_read_back(
                g,
                next,
                commands,
                k + 1,
                points.0,
                points.1,
                found.push((command, coords)),
            );
            assert(found.push((command, coords)) + commands.subrange(
                k + 1,
                commands.len() as int,
            ) =~= found + commands.subrange(k, commands.len() as int));
        }
    }
}

/// Decoding undoes encoding: commands that can be written are read back
/// as they were.
pub proof fn law_geometry_round_trip(commands: Seq<(u32, Seq<(i32, i32)>)>)
    requires
        forall|j: int| 0 <= j < commands.len() ==> command_wf(#[trigger] commands[j]),
    ensures
        decoded(encoded(commands)) == commands,
{
    let g = encoded(commands);
    assert(g.subrange(0, g.len() as int) =~= g);
    lemma_commands_read_back(g, 0, commands, 0, 0, 0, Seq::empty());
    assert(Seq::<(u32, Seq<(i32, i32)>)>::empty() + commands.subrange(0, commands.len() as int)
        =~= commands);
}

/// The way a tile archive compresses its tiles.
#[derive(Clone, Copy, Debug, PartialEq, Eq, Structural)]
pub enum TileCompression {
    Unknown,
    Uncompressed,
    Gzip,
    Brotli,
    Zstd,
}

/// The content encoding a compression is announced with, if any.
pub open spec fn encoding_of(compression: TileCompression) -> Option<Seq<char>> {
    match compression {
        TileCompression::Gzip => Some("gzip"@),
        TileCompression::Brotli => Some("br"@),
        TileCompression::Zstd => Some("zstd"@),
        _ => None,
    }
}

/// The value of the content-encoding header for tiles of the given
/// compression; none for uncompressed or unknown tiles.
pub fn compression_to_encoding(compression: TileCompression) -> (encoding: Option<&'static str>)
    ensures
        match encoding {
            Some(name) => encoding_of(compression) == Some(name@),
            None => encoding_of(compression).is_none(),
        },
{
    match compression {
        TileCompression::Gzip => Some("gzip"),
        TileCompression::Brotli => Some("br"),
        TileCompression::Zstd => Some("zstd"),
        _ => None,
    }
}

} // verus!
