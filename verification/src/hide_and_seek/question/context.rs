//! The geographic context a question is answered in: points of interest,
//! area sets, rail lines, the sea-level contour, transit data and the state
//! of the game.

use vstd::prelude::*;

use crate::search::{first_match, lemma_first_match_is};
use crate::text::same_text;
use crate::shape::bvh::MAX_POINTS;
use crate::shape::instruction::{ContourTexture, DiagramHandle};
use crate::shape::types::{Centimeters, Position};
use crate::transit::{ComplexRecord, TransitData};

verus! {

/// The most rail lines a context may hold, so that a union over them still
/// fits the register space.
pub const MAX_RAIL_LINES: usize = 0x1000_0000;

/// A named place.
#[derive(Debug)]
pub struct PointOfInterest {
    pub id: String,
    pub position: Position,
}

/// All points of interest of one category, such as `"airport"`.
#[derive(Debug)]
pub struct PoiCategory {
    pub name: String,
    pub pois: Vec<PointOfInterest>,
}

/// The polygons of one category, such as `"water_body"`, as a Voronoi
/// diagram.
#[derive(Debug)]
pub struct AreaCategory {
    pub name: String,
    pub diagram: DiagramHandle,
}

/// The course of one rail line.
#[derive(Debug)]
pub struct RailLine {
    pub positions: Vec<Position>,
}

/// The state of the running game.
#[derive(Clone, Copy, Debug, PartialEq, Eq, Structural)]
pub struct GameState {
    pub seeker_hiding_radius: Centimeters,
}

impl GameState {
    /// How far from a station the hider may be.
    pub fn seeker_hiding_radius(&self) -> (radius: Centimeters)
        ensures
            radius == self.seeker_hiding_radius,
    {
        self.seeker_hiding_radius
    }
}

/// Everything a question may ask of the map it is played on.
#[derive(Debug)]
pub struct QuestionContext {
    pub poi_categories: Vec<PoiCategory>,
    pub area_categories: Vec<AreaCategory>,
    pub rail_lines: Option<Vec<RailLine>>,
    pub contour_texture: Option<ContourTexture>,
    pub transit: TransitData,
    pub game: GameState,
}

/// Selects the point-of-interest categories called `name`.
pub open spec fn poi_category_named(name: Seq<char>) -> spec_fn(PoiCategory) -> bool {
    |category: PoiCategory| category.name@ == name
}

/// Selects the area categories called `name`.
pub open spec fn area_category_named(name: Seq<char>) -> spec_fn(AreaCategory) -> bool {
    |category: AreaCategory| category.name@ == name
}

/// Selects the points of interest with identifier `id`.
pub open spec fn poi_with_id(id: Seq<char>) -> spec_fn(PointOfInterest) -> bool {
    |poi: PointOfInterest| poi.id@ == id
}

/// The positions of `pois`, in order.
pub open spec fn poi_positions(pois: Seq<PointOfInterest>) -> Seq<Position> {
    Seq::new(pois.len(), |i: int| pois[i].position)
}

/// The centers of `complexes`, in order.
pub open spec fn complex_centers(complexes: Seq<ComplexRecord>) -> Seq<Position> {
    Seq::new(complexes.len(), |i: int| complexes[i].center)
}

impl QuestionContext {
    /// Whether the context is within the limits of the compiler: no point
    /// set larger than a hierarchy can index, a well-formed contour
    /// texture, a bounded number of rail lines and a non-negative hiding
    /// radius.
    pub open spec fn wf(&self) -> bool {
        &&& forall|i: int|
            0 <= i < self.poi_categories@.len() ==> (#[trigger] self.poi_categories@[i]).pois@.len()
                <= MAX_POINTS
        &&& self.transit.complexes@.len() <= MAX_POINTS
        &&& self.contour_texture matches Some(texture) ==> texture.wf()
        &&& self.rail_lines matches Some(lines) ==> lines@.len() <= MAX_RAIL_LINES
        &&& self.game.seeker_hiding_radius@ >= 0
    }

    /// The points of interest of `category`, if the category is present.
    pub open spec fn pois_of(&self, category: Seq<char>) -> Option<Seq<PointOfInterest>> {
        let at = first_match(self.poi_categories@, poi_category_named(category));
        if at < self.poi_categories@.len() {
            Some(self.poi_categories@[at].pois@)
        } else {
            None
        }
    }

    /// The diagram of the areas of `category`, if the category is present.
    pub open spec fn diagram_of(&self, category: Seq<char>) -> Option<DiagramHandle> {
        let at = first_match(self.area_categories@, area_category_named(category));
        if at < self.area_categories@.len() {
            Some(self.area_categories@[at].diagram)
        } else {
            None
        }
    }

    /// The point of interest `id` of `category`, if both are present.
    pub open spec fn poi_of(&self, category: Seq<char>, id: Seq<char>) -> Option<PointOfInterest> {
        match self.pois_of(category) {
            Some(pois) => {
                let at = first_match(pois, poi_with_id(id));
                if at < pois.len() {
                    Some(pois[at])
                } else {
                    None
                }
            },
            None => None,
        }
    }

    /// Decides [`QuestionContext::wf`].
    pub fn is_wf(&self) -> (ok: bool)
        ensures
            ok == self.wf(),
    {
        let mut i: usize = 0;
        while i < self.poi_categories.len()
            invariant
                i <= self.poi_categories.len(),
                forall|k: int|
                    0 <= k < i ==> (#[trigger] self.poi_categories@[k]).pois@.len() <= MAX_POINTS,
            decreases self.poi_categories.len() - i,
        {
            if self.poi_categories[i].pois.len() > MAX_POINTS {
                return false;
            }
            i += 1;
        }
        if self.transit.complexes.len() > MAX_POINTS {
            return false;
        }
        match &self.contour_texture {
            Some(texture) => {
                assert(texture.width * texture.height <= 0xffff_ffff * 0xffff_ffff)
                    by (nonlinear_arith)
                    requires
                        texture.width <= 0xffff_ffff,
                        texture.height <= 0xffff_ffff,
                ;
                let texels = texture.texels.len() as u128;
                let expected = (texture.width as u128) * (texture.height as u128);
                if texels != expected {
                    return false;
                }
            },
            None => {},
        }
        match &self.rail_lines {
            Some(lines) => {
                if lines.len() > MAX_RAIL_LINES {
                    return false;
                }
            },
            None => {},
        }
        self.game.seeker_hiding_radius.0 >= 0
    }

    /// The index of the first point-of-interest category called `category`.
    fn poi_category_index(&self, category: &str) -> (at: usize)
        ensures
            at == first_match(self.poi_categories@, poi_category_named(category@)),
            at <= self.poi_categories@.len(),
    {
        let mut i: usize = 0;
        while i < self.poi_categories.len()
            invariant
                i <= self.poi_categories.len(),
                forall|k: int|
                    0 <= k < i ==> !poi_category_named(category@)(#[trigger] self.poi_categories@[k]),
            decreases self.poi_categories.len() - i,
        {
            if same_text(self.poi_categories[i].name.as_str(), category) {
                proof {
                    lemma_first_match_is(
                        self.poi_categories@,
                        poi_category_named(category@),
                        i as int,
                    );
                }
                return i;
            }
            i += 1;
        }
        proof {
            lemma_first_match_is(self.poi_categories@, poi_category_named(category@), i as int);
        }
        i
    }

    /// The index of the first area category called `category`.
    fn area_category_index(&self, category: &str) -> (at: usize)
        ensures
            at == first_match(self.area_categories@, area_category_named(category@)),
            at <= self.area_categories@.len(),
    {
        let mut i: usize = 0;
        while i < self.area_categories.len()
            invariant
                i <= self.area_categories.len(),
                forall|k: int|
                    0 <= k < i ==> !area_category_named(category@)(
                        #[trigger] self.area_categories@[k],
                    ),
            decreases self.area_categories.len() - i,
        {
            if same_text(self.area_categories[i].name.as_str(), category) {
                proof {
                    lemma_first_match_is(
                        self.area_categories@,
                        area_category_named(category@),
                        i as int,
                    );
                }
                return i;
            }
            i += 1;
        }
        proof {
            lemma_first_match_is(self.area_categories@, area_category_named(category@), i as int);
        }
        i
    }

    /// Whether points of interest of `category` are present.
    pub fn has_poi_category(&self, category: &str) -> (present: bool)
        ensures
            present == self.pois_of(category@).is_some(),
    {
        self.poi_category_index(category) < self.poi_categories.len()
    }

    /// All points of interest of `category`.
    pub fn get_all_pois(&self, category: &str) -> (found: Option<&Vec<PointOfInterest>>)
        ensures
            match found {
                Some(pois) => self.pois_of(category@) == Some(pois@),
                None => self.pois_of(category@).is_none(),
            },
    {
        let at = self.poi_category_index(category);
        if at < self.poi_categories.len() {
            Some(&self.poi_categories[at].pois)
        } else {
            None
        }
    }

    /// The point of interest `id` of `category`.
    pub fn get_poi(&self, category: &str, id: &str) -> (found: Option<&PointOfInterest>)
        ensures
            match found {
                Some(poi) => self.poi_of(category@, id@) == Some(*poi),
                None => self.poi_of(category@, id@).is_none(),
            },
    {
        match self.get_all_pois(category) {
            Some(pois) => {
                let mut i: usize = 0;
                while i < pois.len()
                    invariant
                        i <= pois.len(),
                        self.pois_of(category@) == Some(pois@),
                        forall|k: int| 0 <= k < i ==> !poi_with_id(id@)(#[trigger] pois@[k]),
                    decreases pois.len() - i,
                {
                    if same_text(pois[i].id.as_str(), id) {
                        proof {
                            lemma_first_match_is(pois@, poi_with_id(id@), i as int);
                        }
                        return Some(&pois[i]);
                    }
                    i += 1;
                }
                proof {
                    lemma_first_match_is(pois@, poi_with_id(id@), i as int);
                }
                None
            },
            None => None,
        }
    }

    /// Whether areas of `category` are present.
    pub fn has_area_category(&self, category: &str) -> (present: bool)
        ensures
            present == self.diagram_of(category@).is_some(),
    {
        self.area_category_index(category) < self.area_categories.len()
    }

    /// The Voronoi diagram of all areas of `category`.
    pub fn get_all_areas_as_vdg(&self, category: &str) -> (found: Option<DiagramHandle>)
        ensures
            found == self.diagram_of(category@),
    {
        let at = self.area_category_index(category);
        if at < self.area_categories.len() {
            Some(self.area_categories[at].diagram)
        } else {
            None
        }
    }

    /// Whether high-speed rail lines are present.
    pub fn has_high_speed_rail_line_data(&self) -> (present: bool)
        ensures
            present == self.rail_lines.is_some(),
    {
        self.rail_lines.is_some()
    }

    /// The high-speed rail lines.
    pub fn high_speed_rail_lines(&self) -> (lines: Option<&Vec<RailLine>>)
        ensures
            match lines {
                Some(lines) => self.rail_lines == Some(*lines),
                None => self.rail_lines.is_none(),
            },
    {
        self.rail_lines.as_ref()
    }

    /// Whether the sea-level contour texture is present.
    pub fn has_sea_level_contour_texture(&self) -> (present: bool)
        ensures
            present == self.contour_texture.is_some(),
    {
        self.contour_texture.is_some()
    }

    /// The sea-level contour texture.
    pub fn sea_level_contour_texture(&self) -> (texture: Option<&ContourTexture>)
        ensures
            match texture {
                Some(texture) => self.contour_texture == Some(*texture),
                None => self.contour_texture.is_none(),
            },
    {
        self.contour_texture.as_ref()
    }

    /// The transit data of the map.
    pub fn transit_context(&self) -> (transit: &TransitData)
        ensures
            transit == &self.transit,
    {
        &self.transit
    }

    /// The state of the running game.
    pub fn game_state(&self) -> (game: &GameState)
        ensures
            game == &self.game,
    {
        &self.game
    }
}

/// Collects the positions of `pois`.
pub fn positions_of(pois: &Vec<PointOfInterest>) -> (positions: Vec<Position>)
    ensures
        positions@ == poi_positions(pois@),
{
    let mut positions: Vec<Position> = Vec::new();
    let mut i: usize = 0;
    while i < pois.len()
        invariant
            i <= pois.len(),
            positions@ == poi_positions(pois@).subrange(0, i as int),
        decreases pois.len() - i,
    {
        positions.push(pois[i].position);
        i += 1;
        assert(positions@ =~= poi_positions(pois@).subrange(0, i as int));
    }
    assert(positions@ =~= poi_positions(pois@));
    positions
}

/// Collects the centers of `complexes`.
pub fn centers_of(complexes: &Vec<ComplexRecord>) -> (centers: Vec<Position>)
    ensures
        centers@ == complex_centers(complexes@),
{
    let mut centers: Vec<Position> = Vec::new();
    let mut i: usize = 0;
    while i < complexes.len()
        invariant
            i <= complexes.len(),
            centers@ == complex_centers(complexes@).subrange(0, i as int),
        decreases complexes.len() - i,
    {
        centers.push(complexes[i].center);
        i += 1;
        assert(centers@ =~= complex_centers(complexes@).subrange(0, i as int));
    }
    assert(centers@ =~= complex_centers(complexes@));
    centers
}

} // verus!
