//! The province map.
//!
//! `map/provinces.bmp` paints every province in a unique colour and
//! `map/definition.csv` says which colour is which province. Joining those to
//! the state files gives a map that can be coloured by state or by owner, and
//! a click anywhere on it resolved back to a province and the state holding it.
//!
//! Everything here works on values already read: the pixels of the bitmap,
//! the text of the definitions and the parsed state files.
use crate::error::EditError;
use crate::localisation::lines_of;
use crate::picture::{data_url_of, data_url_spec, encode_png, png_encoding};
use crate::state::{State, StateFile};
use crate::paradox::parser::{pairs_of, scalar_text};
use crate::paradox::{Block, Document, Item, Items, Pair, Value};
use crate::text::{
    eq_ignore_ascii_case, eq_ignore_ascii_case_spec, str_eq, to_uppercase, trim, trim_spec, uppercase,
    views,
};
use std::collections::HashMap;
use vstd::prelude::*;

verus! {

broadcast use vstd::std_specs::hash::group_hash_axioms;

/// Nothing on the map is a province: the black borders in `provinces.bmp` and
/// any colour the definitions do not mention.
pub const NO_PROVINCE: u16 = 65535;

/// How much of a pixel's colour survives, as a percentage, inside a province
/// and at each kind of edge.
pub const INSIDE: u16 = 100;

pub const PROVINCE_EDGE: u16 = 78;

pub const STATE_EDGE: u16 = 45;

/// Sea, lakes and anything else that is not land.
pub const WATER: [u8; 3] = [38, 54, 78];

/// Land no state claims, or a state without an owner.
pub const UNCLAIMED: [u8; 3] = [58, 58, 62];

/// The black province borders and colours the definitions do not name.
pub const BORDER: [u8; 3] = [20, 20, 22];

#[derive(Debug, Clone)]
pub struct MapSummary {
    pub width: u32,
    pub height: u32,
    pub province_count: usize,
    pub state_count: usize,
    /// Provinces no state claims, which usually means sea or an oversight.
    pub unassigned_land: usize,
}

#[derive(Debug, Clone)]
pub struct ProvincePick {
    pub province_id: u32,
    pub kind: String,
    pub terrain: String,
    /// Empty when no state lists this province.
    pub state_id: String,
    pub state_name: String,
    pub owner: String,
    /// File the state is defined in, so the editor can open it.
    pub state_path: String,
}

#[derive(Debug, Clone, Copy, PartialEq, Eq, Structural)]
pub enum MapMode {
    /// A distinct colour per state.
    States,
    /// The colour each country uses in game.
    Owners,
}

#[derive(Debug, Clone)]
pub struct ProvinceInfo {
    pub id: u32,
    pub kind: String,
    pub terrain: String,
}

#[derive(Debug, Clone)]
pub struct StateInfo {
    pub id: String,
    pub name: String,
    pub owner: String,
    pub path: String,
}

/// One palette entry before it is turned into a colour: either the colour
/// itself, or the key whose distinct colour it is (see [`distinct_hsv`]).
#[derive(Debug, Clone)]
pub enum Swatch {
    Colour([u8; 3]),
    Distinct(String),
}

pub enum SwatchView {
    Colour([u8; 3]),
    Distinct(Seq<char>),
}

impl View for Swatch {
    type V = SwatchView;

    open spec fn view(&self) -> SwatchView {
        match self {
            Swatch::Colour(c) => SwatchView::Colour(*c),
            Swatch::Distinct(k) => SwatchView::Distinct(k@),
        }
    }
}

pub struct MapData {
    /// Mod folder this map was built from, so a cache can tell it is stale.
    pub folder: String,
    pub width: u32,
    pub height: u32,
    /// Province index per pixel, row major from the top row.
    pub province_at: Vec<u16>,
    pub provinces: Vec<ProvinceInfo>,
    /// Province id to the state that lists it.
    pub state_of_province: HashMap<u32, usize>,
    pub states: Vec<StateInfo>,
    /// State index per province index, so painting never hashes.
    /// `usize::MAX` means no state claims it.
    pub state_of_index: Vec<usize>,
    /// Country tag and colour; a later entry for a tag overrides an earlier.
    pub country_colors: Vec<(String, [u8; 3])>,
}

/// The land provinces no state lists.
pub open spec fn unassigned_count(ps: Seq<ProvinceInfo>, claimed: Map<u32, usize>) -> nat
    decreases ps.len(),
{
    if ps.len() == 0 {
        0
    } else {
        let p = ps.last();
        unassigned_count(ps.drop_last(), claimed) + if p.kind@ == "land"@ && !claimed.contains_key(
            p.id,
        ) {
            1nat
        } else {
            0nat
        }
    }
}

/// The colour a country tag was given last, if any.
pub open spec fn colour_of_tag(colours: Seq<(String, [u8; 3])>, tag: Seq<char>) -> Option<[u8; 3]>
    decreases colours.len(),
{
    if colours.len() == 0 {
        None
    } else if colours.last().0@ == tag {
        Some(colours.last().1)
    } else {
        colour_of_tag(colours.drop_last(), tag)
    }
}

impl MapData {
    /// The one shape requirement: a province index for every pixel.
    pub open spec fn wf(&self) -> bool {
        self.province_at.len() == self.width * self.height
    }

    /// The state that a province index belongs to, `usize::MAX` for none.
    pub open spec fn state_of_spec(&self, province: u16) -> usize {
        if (province as int) < self.state_of_index.len() {
            self.state_of_index@[province as int]
        } else {
            usize::MAX
        }
    }

    /// Palette slot for a province index: everything the definitions do not
    /// name falls to the last slot.
    pub open spec fn palette_index_spec(&self, province: u16) -> int {
        if (province as int) < self.provinces.len() {
            province as int
        } else {
            self.provinces.len() as int
        }
    }

    /// The state listing province number `i`, when there is one.
    pub open spec fn state_at(&self, i: int) -> Option<StateInfo> {
        let at = self.state_of_index@[i];
        if i < self.state_of_index.len() && at != usize::MAX && at < self.states.len() {
            Some(self.states@[at as int])
        } else {
            None
        }
    }

    /// What slot `i` of the palette shows in `mode`.
    pub open spec fn swatch_spec(&self, mode: MapMode, i: int) -> SwatchView {
        if i >= self.provinces.len() {
            SwatchView::Colour(BORDER)
        } else if self.provinces@[i].kind@ != "land"@ {
            SwatchView::Colour(WATER)
        } else {
            match self.state_at(i) {
                None => SwatchView::Colour(UNCLAIMED),
                Some(state) => match mode {
                    MapMode::States => SwatchView::Distinct(state.id@),
                    MapMode::Owners => if state.owner@.len() == 0 {
                        SwatchView::Colour(UNCLAIMED)
                    } else {
                        match colour_of_tag(self.country_colors@, state.owner@) {
                            Some(c) => SwatchView::Colour(c),
                            None => SwatchView::Distinct(state.owner@),
                        }
                    },
                },
            }
        }
    }

    /// Mod folder this map was built from, so a cache can tell it is stale.
    pub fn folder(&self) -> (r: &str)
        ensures
            r@ == self.folder@,
    {
        self.folder.as_str()
    }

    pub fn summary(&self) -> (r: MapSummary)
        ensures
            r.width == self.width,
            r.height == self.height,
            r.province_count == self.provinces.len(),
            r.state_count == self.states.len(),
            r.unassigned_land == unassigned_count(self.provinces@, self.state_of_province@),
    {
        let mut count: usize = 0;
        let mut i: usize = 0;
        while i < self.provinces.len()
            invariant
                i <= self.provinces.len(),
                count == unassigned_count(self.provinces@.take(i as int), self.state_of_province@),
                count <= i,
            decreases self.provinces.len() - i,
        {
            let province = &self.provinces[i];
            proof {
                assert(self.provinces@.take(i as int + 1).drop_last() =~= self.provinces@.take(
                    i as int,
                ));
            }
            if str_eq(province.kind.as_str(), "land") && !self.state_of_province.contains_key(
                &province.id,
            ) {
                count = count + 1;
            }
            i = i + 1;
        }
        proof {
            assert(self.provinces@.take(i as int) =~= self.provinces@);
        }
        MapSummary {
            width: self.width,
            height: self.height,
            province_count: self.provinces.len(),
            state_count: self.states.len(),
            unassigned_land: count,
        }
    }

    /// The province under pixel `(x, y)`, by its index, when there is one.
    pub open spec fn province_under(&self, x: u32, y: u32) -> Option<int> {
        if x >= self.width || y >= self.height {
            None
        } else {
            let index = self.province_at@[y * self.width + x] as int;
            if index == NO_PROVINCE as int || index >= self.provinces.len() {
                None
            } else {
                Some(index)
            }
        }
    }

    /// The state listing the province with id `id`, when there is one.
    pub open spec fn state_of_id(&self, id: u32) -> Option<StateInfo> {
        if self.state_of_province@.contains_key(id) && self.state_of_province@[id]
            < self.states.len() {
            Some(self.states@[self.state_of_province@[id] as int])
        } else {
            None
        }
    }

    /// The province and state under a pixel of the full sized map.
    pub fn pick(&self, x: u32, y: u32) -> (r: Option<ProvincePick>)
        requires
            self.wf(),
        ensures
            r is None <==> self.province_under(x, y) is None,
            r matches Some(p) ==> {
                let province = self.provinces@[self.province_under(x, y)->0];
                &&& p.province_id == province.id
                &&& p.kind@ == province.kind@
                &&& p.terrain@ == province.terrain@
                &&& match self.state_of_id(province.id) {
                    Some(state) => p.state_id@ == state.id@ && p.state_name@ == state.name@
                        && p.owner@ == state.owner@ && p.state_path@ == state.path@,
                    None => p.state_id@.len() == 0 && p.state_name@.len() == 0 && p.owner@.len()
                        == 0 && p.state_path@.len() == 0,
                }
            },
    {
        if x >= self.width || y >= self.height {
            return None;
        }
        proof {
            let (w, h) = (self.width as int, self.height as int);
            assert((y as int) * w + (x as int) < w * h) by (nonlinear_arith)
                requires
                    0 <= x < w,
                    0 <= y < h,
            ;
            assert(0 <= (y as int) * w) by (nonlinear_arith)
                requires
                    0 <= y,
                    0 <= w,
            ;
        }
        let at = (y as usize) * (self.width as usize) + x as usize;
        let index = self.province_at[at];
        if index == NO_PROVINCE || index as usize >= self.provinces.len() {
            return None;
        }
        let province = &self.provinces[index as usize];
        let found = match self.state_of_province.get(&province.id) {
            Some(at) => if *at < self.states.len() {
                Some(&self.states[*at])
            } else {
                None
            },
            None => None,
        };
        let (state_id, state_name, owner, state_path) = match found {
            Some(state) => (
                state.id.as_str().to_owned(),
                state.name.as_str().to_owned(),
                state.owner.as_str().to_owned(),
                state.path.as_str().to_owned(),
            ),
            None => (String::new(), String::new(), String::new(), String::new()),
        };
        Some(
            ProvincePick {
                province_id: province.id,
                kind: province.kind.as_str().to_owned(),
                terrain: province.terrain.as_str().to_owned(),
                state_id,
                state_name,
                owner,
                state_path,
            },
        )
    }

    /// State a province belongs to, or `usize::MAX` for none.
    pub fn state_of(&self, province: u16) -> (r: usize)
        ensures
            r == self.state_of_spec(province),
    {
        if (province as usize) < self.state_of_index.len() {
            self.state_of_index[province as usize]
        } else {
            usize::MAX
        }
    }

    /// Palette slot for a province index. Everything the definitions do not
    /// name falls to the last entry rather than borrowing another province's
    /// colour, which is what plain wrapping would do.
    pub fn palette_index(&self, province: u16) -> (r: usize)
        ensures
            r == self.palette_index_spec(province),
    {
        if (province as usize) < self.provinces.len() {
            province as usize
        } else {
            self.provinces.len()
        }
    }

    /// One swatch per province index, plus a trailing one for no province.
    pub fn palette(&self, mode: MapMode) -> (r: Vec<Swatch>)
        ensures
            r.len() == self.provinces.len() + 1,
            forall|i: int| 0 <= i < r.len() ==> #[trigger] r@[i]@ == self.swatch_spec(mode, i),
    {
        let mut r: Vec<Swatch> = Vec::new();
        let mut i: usize = 0;
        while i < self.provinces.len()
            invariant
                i <= self.provinces.len(),
                r.len() == i,
                forall|k: int| 0 <= k < i ==> #[trigger] r@[k]@ == self.swatch_spec(mode, k),
            decreases self.provinces.len() - i,
        {
            let swatch = self.swatch(mode, i);
            r.push(swatch);
            i = i + 1;
        }
        r.push(Swatch::Colour(BORDER));
        r
    }

    /// Paints every pixel of the map as raw RGB, `palette` holding a colour
    /// per province index and a last one for no province.
    ///
    /// Both outlines are drawn in the one pass: an edge between two provinces
    /// is darkened a little, an edge between two states a lot.
    pub fn paint_with(&self, palette: &Vec<[u8; 3]>) -> (pixels: Vec<u8>)
        requires
            self.wf(),
            palette.len() == self.provinces.len() + 1,
            self.province_at.len() * 3 <= usize::MAX,
        ensures
            pixels@ == self.painted(palette@, self.province_at.len() as nat),
    {
        let width = self.width as usize;
        let total = self.province_at.len();
        let mut pixels: Vec<u8> = Vec::new();
        let mut at: usize = 0;
        let mut x: usize = 0;
        let mut y: usize = 0;
        proof {
            if total > 0 {
                assert(width > 0) by (nonlinear_arith)
                    requires
                        total == (width as int) * (self.height as int),
                        total > 0,
                ;
            }
        }
        while at < total
            invariant
                self.wf(),
                palette.len() == self.provinces.len() + 1,
                total == self.province_at.len(),
                total * 3 <= usize::MAX,
                width == self.width,
                at <= total,
                at == y * width + x,
                at < total ==> x < width,
                pixels@ == self.painted(palette@, at as nat),
            decreases total - at,
        {
            proof {
                let (w, h) = (width as int, self.height as int);
                assert(y < h) by (nonlinear_arith)
                    requires
                        at == y * w + x,
                        0 <= x < w,
                        at < total,
                        total == w * h,
                ;
                vstd::arithmetic::div_mod::lemma_fundamental_div_mod_converse(at as int, w, y as int, x as int);
                assert(x + 1 < w ==> at + 1 < total) by (nonlinear_arith)
                    requires
                        at == y * w + x,
                        0 <= x < w,
                        y < h,
                        total == w * h,
                ;
                assert(y + 1 < h ==> at + w < total) by (nonlinear_arith)
                    requires
                        at == y * w + x,
                        0 <= x < w,
                        total == w * h,
                ;
            }
            let mine = self.province_at[at];
            let colour = palette[self.palette_index(mine)];
            let mut shade: u16 = INSIDE;
            if x + 1 < width {
                let other = self.province_at[at + 1];
                if other != mine {
                    shade = if self.state_of(other) == self.state_of(mine) {
                        PROVINCE_EDGE
                    } else {
                        STATE_EDGE
                    };
                }
            }
            if y + 1 < self.height as usize {
                let other = self.province_at[at + width];
                if other != mine {
                    let edge = if self.state_of(other) == self.state_of(mine) {
                        PROVINCE_EDGE
                    } else {
                        STATE_EDGE
                    };
                    if edge < shade {
                        shade = edge;
                    }
                }
            }
            assert(shade == self.shade_spec(at as int));
            proof {
                let (c0, c1, c2) = (colour[0] as int, colour[1] as int, colour[2] as int);
                assert(c0 * shade <= 25500 && c1 * shade <= 25500 && c2 * shade <= 25500)
                    by (nonlinear_arith)
                    requires
                        c0 <= 255,
                        c1 <= 255,
                        c2 <= 255,
                        shade <= 100,
                ;
            }
            pixels.push(((colour[0] as u16) * shade / 100) as u8);
            pixels.push(((colour[1] as u16) * shade / 100) as u8);
            pixels.push(((colour[2] as u16) * shade / 100) as u8);
            proof {
                assert(pixels@ =~= self.painted(palette@, (at + 1) as nat));
                if x + 1 == width {
                    assert((y + 1) * width == y * width + width) by (nonlinear_arith);
                }
            }
            at = at + 1;
            if x + 1 == width {
                x = 0;
                y = y + 1;
            } else {
                x = x + 1;
            }
        }
        pixels
    }

    fn swatch(&self, mode: MapMode, i: usize) -> (r: Swatch)
        requires
            i < self.provinces.len(),
        ensures
            r@ == self.swatch_spec(mode, i as int),
    {
        let province = &self.provinces[i];
        if !str_eq(province.kind.as_str(), "land") {
            return Swatch::Colour(WATER);
        }
        if i >= self.state_of_index.len() {
            return Swatch::Colour(UNCLAIMED);
        }
        let at = self.state_of_index[i];
        if at == usize::MAX || at >= self.states.len() {
            return Swatch::Colour(UNCLAIMED);
        }
        let state = &self.states[at];
        proof {
            assert(self.state_at(i as int) == Some(*state));
        }
        match mode {
            MapMode::States => Swatch::Distinct(state.id.as_str().to_owned()),
            MapMode::Owners => {
                if state.owner.as_str().is_empty() {
                    Swatch::Colour(UNCLAIMED)
                } else {
                    match country_colour(&self.country_colors, state.owner.as_str()) {
                        Some(c) => Swatch::Colour(c),
                        None => Swatch::Distinct(state.owner.as_str().to_owned()),
                    }
                }
            },
        }
    }
}


/// A channel of a colour with `shade` percent of it kept.
pub open spec fn shaded(channel: u8, shade: u16) -> u8 {
    ((channel as int * shade as int) / 100) as u8
}

impl MapData {
    /// How dark the edge to `other` makes a pixel of province `mine`: not at
    /// all inside a province, a little between provinces of one state and a
    /// lot between states.
    pub open spec fn edge_shade(&self, mine: u16, other: Option<u16>) -> u16 {
        match other {
            Some(o) => if o == mine {
                INSIDE
            } else if self.state_of_spec(o) == self.state_of_spec(mine) {
                PROVINCE_EDGE
            } else {
                STATE_EDGE
            },
            None => INSIDE,
        }
    }

    /// The share of its colour the pixel at `at` keeps. Only the right and
    /// lower neighbours are compared: the pixel on the other side of an edge
    /// darkens itself when its turn comes, so every border is one pixel wide.
    pub open spec fn shade_spec(&self, at: int) -> u16 {
        let w = self.width as int;
        let mine = self.province_at@[at];
        let right = if at % w + 1 < w {
            Some(self.province_at@[at + 1])
        } else {
            None
        };
        let below = if at / w + 1 < self.height {
            Some(self.province_at@[at + w])
        } else {
            None
        };
        let r = self.edge_shade(mine, right);
        let b = self.edge_shade(mine, below);
        if r < b {
            r
        } else {
            b
        }
    }

    /// The three channels of the pixel at `at`, given one colour per
    /// palette slot.
    pub open spec fn pixel_spec(&self, palette: Seq<[u8; 3]>, at: int) -> Seq<u8> {
        let colour = palette[self.palette_index_spec(self.province_at@[at])];
        let shade = self.shade_spec(at);
        seq![shaded(colour[0], shade), shaded(colour[1], shade), shaded(colour[2], shade)]
    }

    /// The first `n` pixels as raw RGB, row major from the top row.
    pub open spec fn painted(&self, palette: Seq<[u8; 3]>, n: nat) -> Seq<u8>
        decreases n,
    {
        if n == 0 {
            Seq::empty()
        } else {
            self.painted(palette, (n - 1) as nat) + self.pixel_spec(palette, n - 1)
        }
    }
}

/// The colour a country tag was given last, if any.
pub fn country_colour(colours: &Vec<(String, [u8; 3])>, tag: &str) -> (r: Option<[u8; 3]>)
    ensures
        r == colour_of_tag(colours@, tag@),
{
    let mut i: usize = colours.len();
    proof {
        assert(colours@.take(i as int) =~= colours@);
    }
    while i > 0
        invariant
            i <= colours.len(),
            colour_of_tag(colours@.take(i as int), tag@) == colour_of_tag(colours@, tag@),
        decreases i,
    {
        proof {
            assert(colours@.take(i as int).drop_last() =~= colours@.take(i as int - 1));
        }
        if str_eq(colours[i - 1].0.as_str(), tag) {
            return Some(colours[i - 1].1);
        }
        i = i - 1;
    }
    None
}



/// The 64-bit FNV-1a hash of some bytes.
pub open spec fn fnv_hash(b: Seq<u8>) -> u64
    decreases b.len(),
{
    if b.len() == 0 {
        0xcbf2_9ce4_8422_2325u64
    } else {
        (fnv_hash(b.drop_last()) ^ (b.last() as u64)).wrapping_mul(0x0100_0000_01b3u64)
    }
}

/// A stable colour for a key, as hue and steps of saturation and value: the
/// colour is hue `hue` degrees, saturation `0.45 + saturation_step / 100`
/// and value `0.55 + value_step / 100`, spread around the hue circle so
/// neighbouring states rarely share a shade.
#[derive(Debug, Clone, Copy, PartialEq, Eq, Structural)]
pub struct Hsv {
    pub hue: u32,
    pub saturation_step: u32,
    pub value_step: u32,
}

/// The hue and steps that [`distinct_hsv`] gives a key.
pub open spec fn distinct_hsv_spec(key: Seq<u8>) -> Hsv {
    let hash = fnv_hash(key);
    Hsv {
        hue: (hash % 360) as u32,
        saturation_step: ((hash >> 9u64) % 25) as u32,
        value_step: ((hash >> 17u64) % 30) as u32,
    }
}

/// The colour a key stands for on the map, before it is turned into RGB.
pub fn distinct_hsv(key: &str) -> (r: Hsv)
    ensures
        r == distinct_hsv_spec(crate::text::bytes_of(key)),
        r.hue < 360,
        r.saturation_step < 25,
        r.value_step < 30,
{
    let bytes = key.as_bytes();
    let mut hash: u64 = 0xcbf2_9ce4_8422_2325;
    let mut i: usize = 0;
    while i < bytes.len()
        invariant
            i <= bytes@.len(),
            hash == fnv_hash(bytes@.take(i as int)),
        decreases bytes@.len() - i,
    {
        proof {
            assert(bytes@.take(i as int + 1).drop_last() =~= bytes@.take(i as int));
        }
        hash = (hash ^ (bytes[i] as u64)).wrapping_mul(0x0100_0000_01b3);
        i = i + 1;
    }
    proof {
        assert(bytes@.take(i as int) =~= bytes@);
    }
    Hsv {
        hue: (hash % 360) as u32,
        saturation_step: ((hash >> 9u64) % 25) as u32,
        value_step: ((hash >> 17u64) % 30) as u32,
    }
}


/// `s` split at every `c`, as `str::split` does: each separator ends one
/// field and starts the next, so there is always at least one field.
pub open spec fn split_spec(s: Seq<char>, c: char) -> Seq<Seq<char>>
    decreases s.len(),
{
    if s.len() == 0 {
        seq![Seq::empty()]
    } else {
        let rest = split_spec(s.drop_last(), c);
        if s.last() == c {
            rest.push(Seq::empty())
        } else {
            rest.update(rest.len() - 1, rest.last().push(s.last()))
        }
    }
}

proof fn lemma_split_nonempty(s: Seq<char>, c: char)
    ensures
        split_spec(s, c).len() >= 1,
    decreases s.len(),
{
    if s.len() > 0 {
        lemma_split_nonempty(s.drop_last(), c);
    }
}

/// The fields of `s` between the separators `c`.
pub fn split_fields(s: &str, c: char) -> (r: Vec<String>)
    ensures
        crate::text::views(r@) == split_spec(s@, c),
{
    let chars = crate::text::chars_of(s);
    let mut fields: Vec<String> = Vec::new();
    let mut current: Vec<char> = Vec::new();
    let mut i: usize = 0;
    while i < chars.len()
        invariant
            chars@ == s@,
            i <= chars.len(),
            crate::text::views(fields@).push(current@) == split_spec(chars@.take(i as int), c),
        decreases chars.len() - i,
    {
        let ghost before = crate::text::views(fields@);
        proof {
            assert(chars@.take(i as int + 1).drop_last() =~= chars@.take(i as int));
            lemma_split_nonempty(chars@.take(i as int), c);
        }
        if chars[i] == c {
            let field = crate::text::string_of(&current);
            fields.push(field);
            current = Vec::new();
            proof {
                assert(crate::text::views(fields@) =~= before.push(field@));
                assert(crate::text::views(fields@).push(current@) =~= before.push(field@).push(
                    Seq::empty(),
                ));
            }
        } else {
            current.push(chars[i]);
            proof {
                assert(crate::text::views(fields@).push(current@) =~= before.push(current@));
                assert(before.push(current@) =~= split_spec(chars@.take(i as int + 1), c));
            }
        }
        i = i + 1;
    }
    let last = crate::text::string_of(&current);
    let ghost before = crate::text::views(fields@);
    fields.push(last);
    proof {
        assert(crate::text::views(fields@) =~= before.push(last@));
        assert(chars@.take(i as int) =~= chars@);
    }
    fields
}

/// The number the decimal digits `d` spell.
pub open spec fn digits_value(d: Seq<char>) -> nat
    decreases d.len(),
{
    if d.len() == 0 {
        0
    } else {
        digits_value(d.drop_last()) * 10 + (d.last() as nat - '0' as nat) as nat
    }
}

pub open spec fn is_digit(c: char) -> bool {
    '0' <= c <= '9'
}

/// `d` is one or more ASCII digits.
pub open spec fn all_digits(d: Seq<char>) -> bool {
    d.len() > 0 && forall|k: int| 0 <= k < d.len() ==> is_digit(#[trigger] d[k])
}

/// What `u32::from_str` and `u8::from_str` accept: an optional `+`, then one
/// or more ASCII digits spelling a number no larger than `max`.
pub open spec fn decimal_spec(s: Seq<char>, max: nat) -> Option<nat> {
    let d = if s.len() > 0 && s[0] == '+' {
        s.drop_first()
    } else {
        s
    };
    if all_digits(d) && digits_value(d) <= max {
        Some(digits_value(d))
    } else {
        None
    }
}

/// Reads a decimal number no larger than `max`, the way the standard
/// library's unsigned `from_str` does.
pub fn parse_decimal(s: &str, max: u32) -> (r: Option<u32>)
    ensures
        match decimal_spec(s@, max as nat) {
            Some(n) => r == Some(n as u32),
            None => r is None,
        },
{
    let chars = crate::text::chars_of(s);
    let start: usize = if chars.len() > 0 && chars[0] == '+' {
        1
    } else {
        0
    };
    let ghost d = chars@.subrange(start as int, chars@.len() as int);
    proof {
        if chars@.len() > 0 && chars@[0] == '+' {
            assert(d =~= s@.drop_first());
        } else {
            assert(d =~= s@);
        }
    }
    if start == chars.len() {
        return None;
    }
    let mut value: u32 = 0;
    let mut too_large = false;
    let mut i: usize = start;
    while i < chars.len()
        invariant
            chars@ == s@,
            start <= i <= chars.len(),
            d == chars@.subrange(start as int, chars@.len() as int),
            d == (if s@.len() > 0 && s@[0] == '+' {
                s@.drop_first()
            } else {
                s@
            }),
            forall|k: int| 0 <= k < i - start ==> is_digit(#[trigger] d[k]),
            !too_large ==> value == digits_value(d.take(i - start)),
            !too_large ==> value <= max,
            too_large ==> digits_value(d.take(i - start)) > max,
        decreases chars.len() - i,
    {
        let c = chars[i];
        if !('0' <= c && c <= '9') {
            proof {
                assert(d[i - start] == c);
                assert(!is_digit(d[i - start]));
                assert(!all_digits(d));
            }
            return None;
        }
        proof {
            assert(d[i - start] == c);
            assert(d.take(i - start + 1).drop_last() =~= d.take(i - start));
        }
        let digit = (c as u32) - ('0' as u32);
        proof {
            assert(digits_value(d.take(i - start + 1)) == digits_value(d.take(i - start)) * 10
                + digit);
        }
        if !too_large {
            if digit > max || value > (max - digit) / 10 {
                too_large = true;
                assert(value * 10 + digit > max) by (nonlinear_arith)
                    requires
                        digit > max || value > (max - digit) / 10,
                        digit <= 9,
                ;
            } else {
                assert(value * 10 + digit <= max) by (nonlinear_arith)
                    requires
                        value <= (max - digit) / 10,
                        digit <= max,
                ;
                value = value * 10 + digit;
            }
        }
        i = i + 1;
    }
    proof {
        assert(d.take(i - start) =~= d);
    }
    if too_large {
        None
    } else {
        Some(value)
    }
}


/// One line of `definition.csv`:
/// `id;red;green;blue;type;coastal;terrain;continent`.
pub struct Definition {
    pub id: u32,
    pub red: u8,
    pub green: u8,
    pub blue: u8,
    pub kind: Seq<char>,
    pub terrain: Seq<char>,
}

/// The province a line defines. Blank lines, `#` comments, lines with fewer
/// than seven fields or numbers that do not read are skipped, and so is
/// province zero, the placeholder every map carries.
pub open spec fn definition_of(line: Seq<char>) -> Option<Definition> {
    let t = trim_spec(line);
    let f = split_spec(t, ';');
    if t.len() == 0 || t[0] == '#' || f.len() < 7 {
        None
    } else {
        match (
            decimal_spec(trim_spec(f[0]), 0xffff_ffff),
            decimal_spec(trim_spec(f[1]), 255),
            decimal_spec(trim_spec(f[2]), 255),
            decimal_spec(trim_spec(f[3]), 255),
        ) {
            (Some(id), Some(red), Some(green), Some(blue)) => if id == 0 {
                None
            } else {
                Some(
                    Definition {
                        id: id as u32,
                        red: red as u8,
                        green: green as u8,
                        blue: blue as u8,
                        kind: trim_spec(f[4]),
                        terrain: trim_spec(f[6]),
                    },
                )
            },
            _ => None,
        }
    }
}

/// The provinces the lines define, in order.
pub open spec fn definitions_in(lines: Seq<Seq<char>>) -> Seq<Definition>
    decreases lines.len(),
{
    if lines.len() == 0 {
        Seq::empty()
    } else {
        let rest = definitions_in(lines.drop_last());
        match definition_of(lines.last()) {
            Some(d) => rest.push(d),
            None => rest,
        }
    }
}

/// The provinces a `definition.csv` defines: every one up to the last index
/// a province can have, `NO_PROVINCE` being taken.
pub open spec fn province_definitions(content: Seq<char>) -> Seq<Definition> {
    let all = definitions_in(lines_of(content));
    if all.len() > NO_PROVINCE as nat {
        all.take(NO_PROVINCE as int)
    } else {
        all
    }
}

/// One number for a colour, so colours index a table.
pub open spec fn colour_key_spec(red: u8, green: u8, blue: u8) -> int {
    red as int * 65536 + green as int * 256 + blue as int
}

/// The index of the last province painted in colour `key`, or
/// `NO_PROVINCE` when none is.
pub open spec fn colour_slot(defs: Seq<Definition>, key: int) -> u16
    decreases defs.len(),
{
    if defs.len() == 0 {
        NO_PROVINCE
    } else {
        let d = defs.last();
        if colour_key_spec(d.red, d.green, d.blue) == key {
            (defs.len() - 1) as u16
        } else {
            colour_slot(defs.drop_last(), key)
        }
    }
}

pub fn colour_key(red: u8, green: u8, blue: u8) -> (r: usize)
    ensures
        r == colour_key_spec(red, green, blue),
        r < 16777216,
{
    (red as usize) * 65536 + (green as usize) * 256 + blue as usize
}

struct DefinitionLine {
    id: u32,
    red: u8,
    green: u8,
    blue: u8,
    kind: String,
    terrain: String,
}

fn definition_line(line: &str) -> (r: Option<DefinitionLine>)
    ensures
        match definition_of(line@) {
            Some(d) => r matches Some(e) && e.id == d.id && e.red == d.red && e.green == d.green
                && e.blue == d.blue && e.kind@ == d.kind && e.terrain@ == d.terrain,
            None => r is None,
        },
{
    let t = trim(line);
    if t.as_str().is_empty() {
        return None;
    }
    let first = crate::text::chars_of(t.as_str());
    if first[0] == '#' {
        return None;
    }
    let f = split_fields(t.as_str(), ';');
    if f.len() < 7 {
        return None;
    }
    proof {
        assert(f@[0]@ == split_spec(t@, ';')[0]);
        assert(f@[1]@ == split_spec(t@, ';')[1]);
        assert(f@[2]@ == split_spec(t@, ';')[2]);
        assert(f@[3]@ == split_spec(t@, ';')[3]);
        assert(f@[4]@ == split_spec(t@, ';')[4]);
        assert(f@[6]@ == split_spec(t@, ';')[6]);
    }
    let id = parse_decimal(trim(f[0].as_str()).as_str(), 0xffff_ffff);
    let red = parse_decimal(trim(f[1].as_str()).as_str(), 255);
    let green = parse_decimal(trim(f[2].as_str()).as_str(), 255);
    let blue = parse_decimal(trim(f[3].as_str()).as_str(), 255);
    match (id, red, green, blue) {
        (Some(id), Some(red), Some(green), Some(blue)) => {
            if id == 0 {
                None
            } else {
                Some(
                    DefinitionLine {
                        id,
                        red: red as u8,
                        green: green as u8,
                        blue: blue as u8,
                        kind: trim(f[4].as_str()),
                        terrain: trim(f[6].as_str()),
                    },
                )
            }
        },
        _ => None,
    }
}

proof fn lemma_definitions_prefix(lines: Seq<Seq<char>>, i: int)
    requires
        0 <= i <= lines.len(),
    ensures
        definitions_in(lines.take(i)).len() <= definitions_in(lines).len(),
        definitions_in(lines.take(i)) == definitions_in(lines).take(
            definitions_in(lines.take(i)).len() as int,
        ),
    decreases lines.len(),
{
    let all = definitions_in(lines);
    if i == lines.len() {
        assert(lines.take(i) =~= lines);
        assert(all.take(all.len() as int) =~= all);
    } else {
        let shorter = lines.drop_last();
        lemma_definitions_prefix(shorter, i);
        assert(shorter.take(i) =~= lines.take(i));
        let part = definitions_in(lines.take(i));
        let mid = definitions_in(shorter);
        assert(all.take(part.len() as int) =~= mid.take(part.len() as int));
    }
}

/// Reads `definition.csv`: the provinces it defines, in order, and for
/// every colour the index of the province painted in it.
pub fn read_definitions(content: &str) -> (r: (Vec<ProvinceInfo>, Vec<u16>))
    ensures
        r.0.len() == province_definitions(content@).len(),
        forall|i: int|
            0 <= i < r.0.len() ==> {
                let d = #[trigger] province_definitions(content@)[i];
                &&& r.0@[i].id == d.id
                &&& r.0@[i].kind@ == d.kind
                &&& r.0@[i].terrain@ == d.terrain
            },
        r.1.len() == 16777216,
        forall|k: int|
            0 <= k < 16777216 ==> #[trigger] r.1@[k] == colour_slot(
                province_definitions(content@),
                k,
            ),
{
    let chars = crate::text::chars_of(content);
    let lines = crate::localisation::split_lines(&chars);
    let ghost all_lines = lines_of(content@);
    let ghost all = definitions_in(all_lines);
    let mut provinces: Vec<ProvinceInfo> = Vec::new();
    let mut by_colour: Vec<u16> = Vec::new();
    let mut k: usize = 0;
    while k < 16777216
        invariant
            k <= 16777216,
            by_colour.len() == k,
            forall|j: int| 0 <= j < k ==> #[trigger] by_colour@[j] == NO_PROVINCE,
        decreases 16777216 - k,
    {
        by_colour.push(NO_PROVINCE);
        k = k + 1;
    }
    let mut i: usize = 0;
    while i < lines.len()
        invariant_except_break
            i <= lines.len(),
            crate::text::views(lines@) == all_lines,
            all_lines == lines_of(content@),
            all_lines.len() == lines.len(),
            i == lines.len() ==> all_lines.take(i as int) =~= all_lines,
            all == definitions_in(all_lines),
            provinces.len() == definitions_in(all_lines.take(i as int)).len(),
            provinces.len() <= NO_PROVINCE,
            forall|j: int|
                0 <= j < provinces.len() ==> {
                    let d = #[trigger] definitions_in(all_lines.take(i as int))[j];
                    &&& provinces@[j].id == d.id
                    &&& provinces@[j].kind@ == d.kind
                    &&& provinces@[j].terrain@ == d.terrain
                },
            by_colour.len() == 16777216,
            forall|j: int|
                0 <= j < 16777216 ==> #[trigger] by_colour@[j] == colour_slot(
                    definitions_in(all_lines.take(i as int)),
                    j,
                ),
        ensures
            provinces.len() == province_definitions(content@).len(),
            forall|j: int|
                0 <= j < provinces.len() ==> {
                    let d = #[trigger] province_definitions(content@)[j];
                    &&& provinces@[j].id == d.id
                    &&& provinces@[j].kind@ == d.kind
                    &&& provinces@[j].terrain@ == d.terrain
                },
            by_colour.len() == 16777216,
            forall|j: int|
                0 <= j < 16777216 ==> #[trigger] by_colour@[j] == colour_slot(
                    province_definitions(content@),
                    j,
                ),
        decreases lines.len() - i,
    {
        let ghost so_far = definitions_in(all_lines.take(i as int));
        proof {
            assert(all_lines.take(i as int + 1).drop_last() =~= all_lines.take(i as int));
            assert(lines@[i as int]@ == all_lines[i as int]);
            assert(all_lines.take(i as int + 1).last() == all_lines[i as int]);
        }
        match definition_line(lines[i].as_str()) {
            None => {},
            Some(line) => {
                if provinces.len() >= 65535 {
                    proof {
                        lemma_definitions_prefix(all_lines, i as int + 1);
                        let next = definitions_in(all_lines.take(i as int + 1));
                        assert(next.take(so_far.len() as int) =~= so_far);
                        assert(all.take(65535) =~= so_far);
                    }
                    break;
                }
                let key = colour_key(line.red, line.green, line.blue);
                let index = provinces.len() as u16;
                by_colour.set(key, index);
                provinces.push(
                    ProvinceInfo { id: line.id, kind: line.kind, terrain: line.terrain },
                );
                proof {
                    let next = definitions_in(all_lines.take(i as int + 1));
                    assert(next =~= so_far.push(definition_of(all_lines[i as int])->0));
                    assert(next.drop_last() =~= so_far);
                }
            },
        }
        i = i + 1;
    }
    proof {
        if i == lines.len() {
            assert(all_lines.take(i as int) =~= all_lines);
        }
    }
    (provinces, by_colour)
}


/// Every state of the files, in order, with the path of the file listing it.
pub open spec fn listed_states(files: Seq<StateFile>) -> Seq<(State, Seq<char>)>
    decreases files.len(),
{
    if files.len() == 0 {
        Seq::empty()
    } else {
        let file = files.last();
        listed_states(files.drop_last()) + file.states@.map_values(|s: State| (s, file.path@))
    }
}

/// `claims` after the provinces a state at index `at` lists: each one that
/// reads as a province id now points at `at`.
pub open spec fn claims_of(claims: Map<u32, usize>, provinces: Seq<String>, at: usize) -> Map<
    u32,
    usize,
>
    decreases provinces.len(),
{
    if provinces.len() == 0 {
        claims
    } else {
        let before = claims_of(claims, provinces.drop_last(), at);
        match decimal_spec(provinces.last()@, 0xffff_ffff) {
            Some(id) => before.insert(id as u32, at),
            None => before,
        }
    }
}

/// Which state each province id belongs to: the last state listing it.
pub open spec fn claims_spec(listed: Seq<(State, Seq<char>)>) -> Map<u32, usize>
    decreases listed.len(),
{
    if listed.len() == 0 {
        Map::empty()
    } else {
        claims_of(claims_spec(listed.drop_last()), listed.last().0.provinces@, (listed.len() - 1) as usize)
    }
}

fn claim_provinces(claims: &mut HashMap<u32, usize>, provinces: &Vec<String>, at: usize)
    ensures
        final(claims)@ == claims_of(old(claims)@, provinces@, at),
{
    let mut i: usize = 0;
    while i < provinces.len()
        invariant
            i <= provinces.len(),
            claims@ == claims_of(old(claims)@, provinces@.take(i as int), at),
        decreases provinces.len() - i,
    {
        proof {
            assert(provinces@.take(i as int + 1).drop_last() =~= provinces@.take(i as int));
        }
        match parse_decimal(provinces[i].as_str(), 0xffff_ffff) {
            Some(id) => {
                claims.insert(id, at);
            },
            None => {},
        }
        i = i + 1;
    }
    proof {
        assert(provinces@.take(i as int) =~= provinces@);
    }
}

/// The states of the map and, for every province id a state lists, the
/// index of the last state listing it.
pub fn index_states(files: &Vec<StateFile>) -> (r: (Vec<StateInfo>, HashMap<u32, usize>))
    ensures
        r.0.len() == listed_states(files@).len(),
        forall|i: int|
            0 <= i < r.0.len() ==> {
                let (state, path) = #[trigger] listed_states(files@)[i];
                &&& r.0@[i].id@ == state.id@
                &&& r.0@[i].name@ == state.name@
                &&& r.0@[i].owner@ == state.owner@
                &&& r.0@[i].path@ == path
            },
        r.1@ == claims_spec(listed_states(files@)),
{
    let mut states: Vec<StateInfo> = Vec::new();
    let mut claims: HashMap<u32, usize> = HashMap::new();
    let mut f: usize = 0;
    while f < files.len()
        invariant
            f <= files.len(),
            states.len() == listed_states(files@.take(f as int)).len(),
            forall|i: int|
                0 <= i < states.len() ==> {
                    let (state, path) = #[trigger] listed_states(files@.take(f as int))[i];
                    &&& states@[i].id@ == state.id@
                    &&& states@[i].name@ == state.name@
                    &&& states@[i].owner@ == state.owner@
                    &&& states@[i].path@ == path
                },
            claims@ == claims_spec(listed_states(files@.take(f as int))),
        decreases files.len() - f,
    {
        let file = &files[f];
        let ghost before = listed_states(files@.take(f as int));
        let ghost here = file.states@.map_values(|s: State| (s, file.path@));
        proof {
            assert(files@.take(f as int + 1).drop_last() =~= files@.take(f as int));
            assert(listed_states(files@.take(f as int + 1)) == before + here);
        }
        let mut k: usize = 0;
        while k < file.states.len()
            invariant
                f < files.len(),
                *file == files@[f as int],
                here == file.states@.map_values(|s: State| (s, file.path@)),
                k <= file.states.len(),
                states.len() == before.len() + k,
                forall|i: int|
                    0 <= i < states.len() ==> {
                        let (state, path) = #[trigger] (before + here.take(k as int))[i];
                        &&& states@[i].id@ == state.id@
                        &&& states@[i].name@ == state.name@
                        &&& states@[i].owner@ == state.owner@
                        &&& states@[i].path@ == path
                    },
                claims@ == claims_spec(before + here.take(k as int)),
            decreases file.states.len() - k,
        {
            let state = &file.states[k];
            let at = states.len();
            proof {
                assert((before + here.take(k as int + 1)).drop_last() =~= before + here.take(
                    k as int,
                ));
                assert((before + here.take(k as int + 1)).last() == (*state, file.path@));
            }
            claim_provinces(&mut claims, &state.provinces, at);
            states.push(
                StateInfo {
                    id: state.id.as_str().to_owned(),
                    name: state.name.as_str().to_owned(),
                    owner: state.owner.as_str().to_owned(),
                    path: file.path.as_str().to_owned(),
                },
            );
            proof {
                assert forall|i: int| 0 <= i < states.len() implies {
                    let (st, path) = #[trigger] (before + here.take(k as int + 1))[i];
                    &&& states@[i].id@ == st.id@
                    &&& states@[i].name@ == st.name@
                    &&& states@[i].owner@ == st.owner@
                    &&& states@[i].path@ == path
                } by {
                    if i < states.len() - 1 {
                        assert((before + here.take(k as int + 1))[i] == (before + here.take(
                            k as int,
                        ))[i]);
                    }
                }
            }
            k = k + 1;
        }
        proof {
            assert(here.take(k as int) =~= here);
        }
        f = f + 1;
    }
    proof {
        assert(files@.take(f as int) =~= files@);
    }
    (states, claims)
}

/// The state of each province index, `usize::MAX` for none, with one more
/// slot for no province.
pub fn state_index(provinces: &Vec<ProvinceInfo>, claims: &HashMap<u32, usize>) -> (r: Vec<usize>)
    ensures
        r.len() == provinces.len() + 1,
        r@[provinces.len() as int] == usize::MAX,
        forall|i: int|
            0 <= i < provinces.len() ==> #[trigger] r@[i] == if claims@.contains_key(
                provinces@[i].id,
            ) {
                claims@[provinces@[i].id]
            } else {
                usize::MAX
            },
{
    let mut r: Vec<usize> = Vec::new();
    let mut i: usize = 0;
    while i < provinces.len()
        invariant
            i <= provinces.len(),
            r.len() == i,
            forall|j: int|
                0 <= j < i ==> #[trigger] r@[j] == if claims@.contains_key(provinces@[j].id) {
                    claims@[provinces@[j].id]
                } else {
                    usize::MAX
                },
        decreases provinces.len() - i,
    {
        let at = match claims.get(&provinces[i].id) {
            Some(at) => *at,
            None => usize::MAX,
        };
        r.push(at);
        i = i + 1;
    }
    r.push(usize::MAX);
    r
}

/// The province index of every pixel of raw RGB, by its colour.
pub fn provinces_of_pixels(rgb: &Vec<u8>, by_colour: &Vec<u16>) -> (r: Vec<u16>)
    requires
        by_colour.len() == 16777216,
        rgb.len() % 3 == 0,
    ensures
        r.len() * 3 == rgb.len(),
        forall|at: int|
            0 <= at < r.len() ==> #[trigger] r@[at] == by_colour@[colour_key_spec(
                rgb@[3 * at],
                rgb@[3 * at + 1],
                rgb@[3 * at + 2],
            )],
{
    let mut r: Vec<u16> = Vec::new();
    let mut j: usize = 0;
    while j < rgb.len()
        invariant
            by_colour.len() == 16777216,
            rgb.len() % 3 == 0,
            j == 3 * r.len(),
            j <= rgb.len(),
            forall|at: int|
                0 <= at < r.len() ==> #[trigger] r@[at] == by_colour@[colour_key_spec(
                    rgb@[3 * at],
                    rgb@[3 * at + 1],
                    rgb@[3 * at + 2],
                )],
        decreases rgb.len() - j,
    {
        proof {
            let (n, len) = (r.len() as int, rgb.len() as int);
            assert(j + 3 <= len) by (nonlinear_arith)
                requires
                    j == 3 * n,
                    len % 3 == 0,
                    j < len,
            ;
        }
        let key = colour_key(rgb[j], rgb[j + 1], rgb[j + 2]);
        r.push(by_colour[key]);
        j = j + 3;
    }
    r
}

/// What the `image` crate decodes a BMP file's bytes to, as 8-bit RGB:
/// width, height and the pixels row major from the top row, or the
/// decoder's message.
pub uninterp spec fn provinces_rgb(bytes: Seq<u8>) -> Result<(u32, u32, Seq<u8>), Seq<char>>;

/// Decodes a BMP file with `image::load_from_memory_with_format` and
/// converts it with `to_rgb8`. The outcome is named as a function of the
/// bytes; an RGB buffer holds three bytes for each pixel.
#[verifier::external_body]
fn decode_rgb(bytes: &[u8]) -> (r: Result<(u32, u32, Vec<u8>), String>)
    ensures
        match r {
            Ok((width, height, pixels)) => provinces_rgb(bytes@) == Ok::<(u32, u32, Seq<u8>), Seq<char>>(
                (width, height, pixels@),
            ) && pixels@.len() == width as int * height as int * 3,
            Err(message) => provinces_rgb(bytes@) == Err::<(u32, u32, Seq<u8>), Seq<char>>(message@),
        },
{
    match image::load_from_memory_with_format(bytes, image::ImageFormat::Bmp) {
        Ok(picture) => {
            let rgb = picture.to_rgb8();
            let (width, height) = rgb.dimensions();
            Ok((width, height, rgb.into_raw()))
        },
        Err(error) => Err(error.to_string()),
    }
}

/// The map read from the bytes of `provinces.bmp`: the bitmap decoded to
/// RGB and put together with the definitions, states and country colours
/// as `assemble` does; the decoder's message where the bitmap does not
/// decode.
pub fn map_from_bitmap(
    folder: &str,
    bitmap: &[u8],
    definitions: (Vec<ProvinceInfo>, Vec<u16>),
    states: (Vec<StateInfo>, HashMap<u32, usize>),
    country_colors: Vec<(String, [u8; 3])>,
) -> (r: Result<MapData, String>)
    requires
        definitions.1.len() == 16777216,
    ensures
        match provinces_rgb(bitmap@) {
            Err(message) => r matches Err(m) && m@ == message,
            Ok((width, height, rgb)) => r matches Ok(map) && {
                &&& map.wf()
                &&& map.folder@ == folder@
                &&& map.width == width
                &&& map.height == height
                &&& forall|at: int|
                    0 <= at < map.province_at.len() ==> #[trigger] map.province_at@[at]
                        == definitions.1@[colour_key_spec(rgb[3 * at], rgb[3 * at + 1], rgb[3 * at + 2])]
                &&& map.provinces@ == definitions.0@
                &&& map.states@ == states.0@
                &&& map.state_of_province@ == states.1@
                &&& map.country_colors@ == country_colors@
            },
        },
{
    match decode_rgb(bitmap) {
        Ok((width, height, rgb)) => Ok(assemble(folder, width, height, &rgb, definitions, states, country_colors)),
        Err(message) => Err(message),
    }
}

/// A map put together from what was read: the bitmap's raw RGB pixels, the
/// definitions (provinces and the province of each colour), the states with
/// the provinces they claim, and the country colours.
pub fn assemble(
    folder: &str,
    width: u32,
    height: u32,
    rgb: &Vec<u8>,
    definitions: (Vec<ProvinceInfo>, Vec<u16>),
    states: (Vec<StateInfo>, HashMap<u32, usize>),
    country_colors: Vec<(String, [u8; 3])>,
) -> (r: MapData)
    requires
        rgb.len() == width as int * height as int * 3,
        definitions.1.len() == 16777216,
    ensures
        r.wf(),
        r.folder@ == folder@,
        r.width == width,
        r.height == height,
        forall|at: int|
            0 <= at < r.province_at.len() ==> #[trigger] r.province_at@[at] == definitions.1@[colour_key_spec(
                rgb@[3 * at],
                rgb@[3 * at + 1],
                rgb@[3 * at + 2],
            )],
        r.provinces@ == definitions.0@,
        r.states@ == states.0@,
        r.state_of_province@ == states.1@,
        r.state_of_index.len() == definitions.0.len() + 1,
        r.state_of_index@[definitions.0.len() as int] == usize::MAX,
        forall|i: int|
            0 <= i < definitions.0.len() ==> #[trigger] r.state_of_index@[i] == if states.1@.contains_key(
                definitions.0@[i].id,
            ) {
                states.1@[definitions.0@[i].id]
            } else {
                usize::MAX
            },
        r.country_colors@ == country_colors@,
{
    let (provinces, by_colour) = definitions;
    let (states, claims) = states;
    let province_at = provinces_of_pixels(rgb, &by_colour);
    let state_of_index = state_index(&provinces, &claims);
    MapData {
        folder: folder.to_owned(),
        width,
        height,
        province_at,
        provinces,
        state_of_province: claims,
        states,
        state_of_index,
        country_colors,
    }
}


/// The block a country's colour is written in: the first `color = { ... }`,
/// or, for `color = rgb { ... }`, which reads as the scalar `rgb` followed by
/// a separate block, the first brace block after it.
pub open spec fn colour_block_from(items: Seq<Item>, i: int, take_next: bool) -> Option<Block>
    decreases items.len() - i,
{
    if i < 0 || i >= items.len() {
        None
    } else {
        match items[i] {
            Item::Pair(p) => if eq_ignore_ascii_case_spec(p.key@, "color"@) {
                match p.value {
                    Value::Block(b) => Some(b),
                    Value::Scalar(_) => colour_block_from(items, i + 1, true),
                }
            } else {
                colour_block_from(items, i + 1, take_next)
            },
            Item::Value(Value::Block(b)) => if take_next {
                Some(b)
            } else {
                colour_block_from(items, i + 1, take_next)
            },
            Item::Value(Value::Scalar(_)) => colour_block_from(items, i + 1, take_next),
        }
    }
}

/// The bare scalars of a block, in order, as text.
pub open spec fn bare_scalars(items: Seq<Item>) -> Seq<Seq<char>>
    decreases items.len(),
{
    if items.len() == 0 {
        Seq::empty()
    } else {
        let rest = bare_scalars(items.drop_last());
        match items.last() {
            Item::Value(Value::Scalar(s)) => rest.push(scalar_text(s)),
            _ => rest,
        }
    }
}

/// The numbers a country's colour block holds, as written; `None` when the
/// block names no colour. Reading them as channels is left to the caller.
pub fn colour_numbers(block: &Block) -> (r: Option<Vec<String>>)
    ensures
        match colour_block_from(block.items@, 0, false) {
            Some(b) => r matches Some(v) && views(v@) == bare_scalars(b.items@),
            None => r is None,
        },
{
    let mut take_next = false;
    let mut i: usize = 0;
    while i < block.items.len()
        invariant
            i <= block.items.len(),
            colour_block_from(block.items@, 0, false) == colour_block_from(
                block.items@,
                i as int,
                take_next,
            ),
        decreases block.items.len() - i,
    {
        match &block.items[i] {
            Item::Pair(pair) => {
                if eq_ignore_ascii_case(pair.key.as_str(), "color") {
                    match &pair.value {
                        Value::Block(inner) => {
                            return Some(scalars_of(inner));
                        },
                        Value::Scalar(_) => {
                            take_next = true;
                        },
                    }
                }
            },
            Item::Value(Value::Block(inner)) => {
                if take_next {
                    return Some(scalars_of(inner));
                }
            },
            Item::Value(Value::Scalar(_)) => {},
        }
        i = i + 1;
    }
    None
}

fn scalars_of(block: &Block) -> (r: Vec<String>)
    ensures
        views(r@) == bare_scalars(block.items@),
{
    let mut r: Vec<String> = Vec::new();
    let mut i: usize = 0;
    while i < block.items.len()
        invariant
            i <= block.items.len(),
            views(r@) == bare_scalars(block.items@.take(i as int)),
        decreases block.items.len() - i,
    {
        proof {
            assert(block.items@.take(i as int + 1).drop_last() =~= block.items@.take(i as int));
        }
        let ghost before = views(r@);
        match &block.items[i] {
            Item::Value(Value::Scalar(scalar)) => {
                let text = scalar.value();
                r.push(text);
                proof {
                    assert(views(r@) =~= before.push(text@));
                }
            },
            _ => {},
        }
        i = i + 1;
    }
    proof {
        assert(block.items@.take(i as int) =~= block.items@);
    }
    r
}

/// The colour entries of `common/countries/colors.txt`: each top-level
/// `TAG = { ... }` naming a colour, with the tag upper cased.
pub open spec fn colour_entries(pairs: Seq<Pair>) -> Seq<(Seq<char>, Seq<Seq<char>>)>
    decreases pairs.len(),
{
    if pairs.len() == 0 {
        Seq::empty()
    } else {
        let rest = colour_entries(pairs.drop_last());
        let p = pairs.last();
        match p.value {
            Value::Block(b) => match colour_block_from(b.items@, 0, false) {
                Some(c) => rest.push((uppercase(p.key@), bare_scalars(c.items@))),
                None => rest,
            },
            Value::Scalar(_) => rest,
        }
    }
}

/// The country colours a parsed `colors.txt` names, in file order, each as
/// the upper cased tag and the numbers written for it.
pub fn country_colour_entries(document: &Document) -> (r: Vec<(String, Vec<String>)>)
    ensures
        r.len() == colour_entries(pairs_of(document.items@)).len(),
        forall|i: int|
            0 <= i < r.len() ==> {
                let (tag, numbers) = #[trigger] colour_entries(pairs_of(document.items@))[i];
                r@[i].0@ == tag && views(r@[i].1@) == numbers
            },
{
    let pairs = document.pairs();
    let ghost ps = pairs_of(document.items@);
    let mut r: Vec<(String, Vec<String>)> = Vec::new();
    let mut i: usize = 0;
    while i < pairs.len()
        invariant
            i <= pairs.len(),
            pairs@.len() == ps.len(),
            forall|k: int| 0 <= k < pairs@.len() ==> *#[trigger] pairs@[k] == ps[k],
            ps == pairs_of(document.items@),
            r.len() == colour_entries(ps.take(i as int)).len(),
            forall|k: int|
                0 <= k < r.len() ==> {
                    let (tag, numbers) = #[trigger] colour_entries(ps.take(i as int))[k];
                    r@[k].0@ == tag && views(r@[k].1@) == numbers
                },
        decreases pairs.len() - i,
    {
        let pair = pairs[i];
        proof {
            assert(ps.take(i as int + 1).drop_last() =~= ps.take(i as int));
            assert(ps.take(i as int + 1).last() == *pair);
        }
        match &pair.value {
            Value::Block(block) => {
                match colour_numbers(block) {
                    Some(numbers) => {
                        let tag = to_uppercase(pair.key.as_str());
                        r.push((tag, numbers));
                    },
                    None => {},
                }
            },
            Value::Scalar(_) => {},
        }
        i = i + 1;
    }
    proof {
        assert(ps.take(i as int) =~= ps);
    }
    r
}


impl MapData {
    /// Paints the map and encodes it as a PNG data URL, `palette` holding a
    /// colour per province index and a last one for no province.
    pub fn render_with(&self, palette: &Vec<[u8; 3]>) -> (r: Result<String, EditError>)
        requires
            self.wf(),
            palette.len() == self.provinces.len() + 1,
            self.province_at.len() * 3 <= usize::MAX,
        ensures
            match png_encoding(
                self.width,
                self.height,
                self.painted(palette@, self.province_at.len() as nat),
            ) {
                Ok(bytes) => r matches Ok(url) && url@ == data_url_spec("image/png"@, bytes),
                Err(message) => r matches Err(EditError::Image { path, message: m }) && path@
                    == self.folder@ + "/map/provinces.bmp"@ && m@ == message,
            },
    {
        let pixels = self.paint_with(palette);
        proof {
            assert(pixels@.len() == self.province_at.len() * 3) by {
                self.lemma_painted_len(palette@, self.province_at.len() as nat);
            }
        }
        match encode_png(self.width, self.height, pixels.as_slice()) {
            Ok(bytes) => Ok(data_url_of("image/png", bytes.as_slice())),
            Err(message) => {
                let mut path = self.folder.as_str().to_owned();
                path.push_str("/map/provinces.bmp");
                Err(EditError::Image { path, message })
            },
        }
    }

    proof fn lemma_painted_len(&self, palette: Seq<[u8; 3]>, n: nat)
        ensures
            self.painted(palette, n).len() == 3 * n,
        decreases n,
    {
        if n > 0 {
            self.lemma_painted_len(palette, (n - 1) as nat);
        }
    }
}


/// Law: a key's colour is stable: the same text always gets the same hue
/// and steps, whenever and wherever it is asked for.
pub proof fn law_distinct_colour_is_stable(a: &str, b: &str)
    requires
        a@ == b@,
    ensures
        distinct_hsv_spec(crate::text::bytes_of(a)) == distinct_hsv_spec(crate::text::bytes_of(b)),
{
}

} // verus!
