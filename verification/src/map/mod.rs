pub mod cultures;
pub mod index;
pub mod layout;
pub mod named_colors;
pub mod professions;
pub mod religions;
pub mod statetemplates;
pub mod strategic;
pub mod traits;
pub mod water;

use vstd::prelude::*;

use std::collections::HashMap;

use crate::data::map::countries::{Country, CountryDefView};
use crate::data::map::laws::{Law, LawGroup, LawGroupView, LawView};
use crate::data::map::strategic::{opt_color, StrategicRegion, StrategicRegionView};
use crate::wrappers::{ColorSpec, ColorSpecView};
use cultures::{Culture, CultureDefView};
use index::{
    index_pixels, index_run, keys_view, opt_rgb, pack, places_fit, slots_view,
    IndexView,
};
use layout::{
    count_provinces, lemma_places_fit, lemma_sizes_total_same, number_all, numbered_all,
    place_all, place_regions, places_end, regions_numbered, sizes_total,
};
use named_colors::{NamedColor, NamedColorView};
use professions::{Profession, ProfessionView};
use religions::{Religion, ReligionView};
use statetemplates::{template_contains, StateTemplate, StateTemplateView};
use traits::{Trait, TraitView};
use water::{Water, WaterView};

verus! {

broadcast use vstd::std_specs::hash::group_hash_axioms;

/// What the game files hold, as read, before the map is laid out.
pub struct MapParts {
    pub regions: Vec<StrategicRegion>,
    pub states: Vec<StateTemplate>,
    pub water: Vec<Water>,
    pub countries: Vec<Country>,
    pub named_colors: Vec<NamedColor>,
    pub cultures: Vec<Culture>,
    pub religions: Vec<Religion>,
    pub lawgroups: Vec<LawGroup>,
    pub laws: Vec<Law>,
    pub professions: Vec<Profession>,
    pub traits: Vec<Trait>,
}

pub ghost struct MapPartsView {
    pub regions: Seq<StrategicRegionView>,
    pub states: Seq<StateTemplateView>,
    pub water: Seq<WaterView>,
    pub countries: Seq<CountryDefView>,
    pub named_colors: Seq<NamedColorView>,
    pub cultures: Seq<CultureDefView>,
    pub religions: Seq<ReligionView>,
    pub lawgroups: Seq<LawGroupView>,
    pub laws: Seq<LawView>,
    pub professions: Seq<ProfessionView>,
    pub traits: Seq<TraitView>,
}

impl View for MapParts {
    type V = MapPartsView;

    open spec fn view(&self) -> MapPartsView {
        MapPartsView {
            regions: self.regions@.map_values(|x: StrategicRegion| x@),
            states: self.states@.map_values(|x: StateTemplate| x@),
            water: self.water@.map_values(|x: Water| x@),
            countries: self.countries@.map_values(|x: Country| x@),
            named_colors: self.named_colors@.map_values(|x: NamedColor| x@),
            cultures: self.cultures@.map_values(|x: Culture| x@),
            religions: self.religions@.map_values(|x: Religion| x@),
            lawgroups: self.lawgroups@.map_values(|x: LawGroup| x@),
            laws: self.laws@.map_values(|x: Law| x@),
            professions: self.professions@.map_values(|x: Profession| x@),
            traits: self.traits@.map_values(|x: Trait| x@),
        }
    }
}

/// The game map: what the game files hold, the templates laid out, and the numbering
/// of the provinces of the province map with the pixels of each.
pub struct GameMap {
    regions: Vec<StrategicRegion>,
    states: Vec<StateTemplate>,
    countries: Vec<Country>,
    religions: Vec<Religion>,
    cultures: Vec<Culture>,
    professions: Vec<Profession>,
    water: Vec<Water>,
    named_colors: Vec<NamedColor>,
    laws: Vec<Law>,
    lawgroups: Vec<LawGroup>,
    traits: Vec<Trait>,
    index_color: Vec<([u8; 3], usize)>,
    provinces: HashMap<u32, usize>,
    /// the name given to a province of the map that no template lists
    unorganized: String,
}

pub ghost struct GameMapView {
    pub regions: Seq<StrategicRegionView>,
    pub states: Seq<StateTemplateView>,
    pub countries: Seq<CountryDefView>,
    pub religions: Seq<ReligionView>,
    pub cultures: Seq<CultureDefView>,
    pub professions: Seq<ProfessionView>,
    pub water: Seq<WaterView>,
    pub named_colors: Seq<NamedColorView>,
    pub laws: Seq<LawView>,
    pub lawgroups: Seq<LawGroupView>,
    pub traits: Seq<TraitView>,
    pub index_color: Seq<(Seq<u8>, nat)>,
    pub provinces: Map<u32, nat>,
}

pub open spec fn colors_view(v: Seq<([u8; 3], usize)>) -> Seq<(Seq<u8>, nat)> {
    v.map_values(|x: ([u8; 3], usize)| (x.0@, x.1 as nat))
}

impl View for GameMap {
    type V = GameMapView;

    closed spec fn view(&self) -> GameMapView {
        GameMapView {
            regions: self.regions@.map_values(|x: StrategicRegion| x@),
            states: self.states@.map_values(|x: StateTemplate| x@),
            countries: self.countries@.map_values(|x: Country| x@),
            religions: self.religions@.map_values(|x: Religion| x@),
            cultures: self.cultures@.map_values(|x: Culture| x@),
            professions: self.professions@.map_values(|x: Profession| x@),
            water: self.water@.map_values(|x: Water| x@),
            named_colors: self.named_colors@.map_values(|x: NamedColor| x@),
            laws: self.laws@.map_values(|x: Law| x@),
            lawgroups: self.lawgroups@.map_values(|x: LawGroup| x@),
            traits: self.traits@.map_values(|x: Trait| x@),
            index_color: colors_view(self.index_color@),
            provinces: keys_view(self.provinces@),
        }
    }
}

/// The regions and templates numbered and placed, and the next free place.
pub open spec fn laid_out(p: MapPartsView) -> (Seq<StrategicRegionView>, Seq<StateTemplateView>, nat) {
    place_regions(
        regions_numbered(p.regions),
        numbered_all(p.states, p.water),
        p.regions.len(),
    )
}

/// The numbering of the pixels of the province map over the laid out templates.
pub open spec fn map_index(p: MapPartsView, pixels: Seq<Seq<u8>>) -> IndexView {
    index_run(laid_out(p).1, pixels, sizes_total(p.states) + 1, pixels.len())
}

/// Every slot but slot 0 has been taken by a color.
pub open spec fn index_complete(ix: IndexView) -> bool {
    forall|i: int| 1 <= i < ix.slots.len() ==> (#[trigger] ix.slots[i]).0 is Some
}

/// The slots with their colors, slot 0 being black and empty.
pub open spec fn finished(slots: Seq<(Option<Seq<u8>>, nat)>) -> Seq<(Seq<u8>, nat)> {
    Seq::new(
        slots.len(),
        |i: int|
            if i == 0 {
                (seq![0u8, 0u8, 0u8], 0nat)
            } else {
                (slots[i].0.unwrap(), slots[i].1)
            },
    )
}

/// The map can be built: the templates are as read (without places), the places
/// handed out fit the numbering of all provinces, and every slot is taken by a
/// color of the province map.
pub open spec fn map_fits(p: MapPartsView, pixels: Seq<Seq<u8>>) -> bool {
    &&& forall|k: int| 0 <= k < p.states.len() ==> (#[trigger] p.states[k]).offset is None
    &&& sizes_total(p.states) + 1 <= usize::MAX
    &&& laid_out(p).2 <= sizes_total(p.states) + 1
    &&& index_complete(map_index(p, pixels))
}

/// The map built from the parts and the pixels of the province map.
pub open spec fn map_of(p: MapPartsView, pixels: Seq<Seq<u8>>) -> GameMapView {
    GameMapView {
        regions: laid_out(p).0,
        states: laid_out(p).1,
        countries: p.countries,
        religions: p.religions,
        cultures: p.cultures,
        professions: p.professions,
        water: p.water,
        named_colors: p.named_colors,
        laws: p.laws,
        lawgroups: p.lawgroups,
        traits: p.traits,
        index_color: finished(map_index(p, pixels).slots),
        provinces: map_index(p, pixels).keys,
    }
}

pub open spec fn pixels_view(pixels: Seq<[u8; 3]>) -> Seq<Seq<u8>> {
    pixels.map_values(|p: [u8; 3]| p@)
}

/// The slots with their colors; slot 0 black and empty.
fn finish_slots(slots: &Vec<(Option<[u8; 3]>, usize)>) -> (r: Vec<([u8; 3], usize)>)
    requires
        index_complete(IndexView { slots: slots_view(slots@), keys: Map::empty() }),
    ensures
        colors_view(r@) == finished(slots_view(slots@)),
{
    let ghost sv = slots_view(slots@);
    let mut out: Vec<([u8; 3], usize)> = Vec::new();
    let mut i: usize = 0;
    while i < slots.len()
        invariant
            sv == slots_view(slots@),
            index_complete(IndexView { slots: sv, keys: Map::empty() }),
            i <= slots@.len(),
            out@.len() == i,
            colors_view(out@) == finished(sv).take(i as int),
        decreases slots@.len() - i,
    {
        let ghost before = out@;
        if i == 0 {
            out.push(([0u8, 0u8, 0u8], 0));
            assert([0u8, 0u8, 0u8]@ =~= seq![0u8, 0u8, 0u8]);
            assert(colors_view(out@)[i as int] == finished(sv)[i as int]);
        } else {
            assert(sv[i as int].0 is Some);
            let (c, n) = slots[i];
            assert(sv[i as int] == (opt_rgb(c), n as nat));
            match c {
                Some(a) => out.push((a, n)),
                None => out.push(([0u8, 0u8, 0u8], n)),
            }
            assert(colors_view(out@)[i as int] == finished(sv)[i as int]);
        }
        assert(forall|k: int| 0 <= k < i ==> colors_view(out@)[k] == #[trigger] colors_view(before)[k]);
        assert(colors_view(out@) =~= finished(sv).take(i + 1));
        i = i + 1;
    }
    assert(finished(sv).take(i as int) =~= finished(sv));
    out
}

impl GameMap {
    /// Lays out the map: numbers the templates and the regions, marks the templates
    /// that touch water as ocean, gives the templates their places region by region,
    /// and numbers the colors of the province map (`pixels`, rows from the bottom up).
    pub fn new(parts: MapParts, pixels: &Vec<[u8; 3]>) -> (r: GameMap)
        requires
            map_fits(parts@, pixels_view(pixels@)),
        ensures
            r@ == map_of(parts@, pixels_view(pixels@)),
    {
        let ghost p = parts@;
        let MapParts {
            mut regions,
            mut states,
            water,
            countries,
            named_colors,
            cultures,
            religions,
            lawgroups,
            laws,
            professions,
            traits,
        } = parts;
        let (total, slots, provinces) = Self::lay_out(&mut regions, &mut states, &water, pixels);
        let index_color = finish_slots(&slots);
        let np = pixels.len();
        proof {
            let px = pixels_view(pixels@);
            assert(forall|k: int| 0 <= k < px.len() ==> #[trigger] index::is_rgb(px[k]));
            lemma_map_counted(p, px);
            assert(colors_view(index_color@) == finished(map_index(p, px).slots));
            assert(colors_view(index_color@).len() == index_color@.len());
            assert(finished(map_index(p, px).slots).len() == map_index(p, px).slots.len());
            assert(index_color@.len() == map_index(p, px).slots.len());
            assert(px.len() == pixels@.len());
            assert(np == pixels@.len());
            assert(counted(colors_view(index_color@), index_color@.len()) == np);
        }
        GameMap {
            regions,
            states,
            countries,
            religions,
            cultures,
            professions,
            water,
            named_colors,
            laws,
            lawgroups,
            traits,
            index_color,
            provinces,
            unorganized: String::from_str("UNORGANIZED"),
        }
    }

    /// As `new`, where the map can be built; `None` where it cannot.
    pub fn try_new(parts: MapParts, pixels: &Vec<[u8; 3]>) -> (r: Option<GameMap>)
        requires
            forall|k: int|
                0 <= k < parts@.states.len() ==> (#[trigger] parts@.states[k]).offset is None,
        ensures
            r is Some <==> map_fits(parts@, pixels_view(pixels@)),
            r matches Some(m) ==> m@ == map_of(parts@, pixels_view(pixels@)),
    {
        let ghost p = parts@;
        let ghost px = pixels_view(pixels@);
        let total = match count_provinces(&parts.states) {
            Some(t) => t,
            None => return None,
        };
        if total == usize::MAX {
            return None;
        }
        let ghost ts1 = numbered_all(p.states, p.water);
        let ghost rs1 = regions_numbered(p.regions);
        let MapParts {
            mut regions,
            mut states,
            water,
            countries,
            named_colors,
            cultures,
            religions,
            lawgroups,
            laws,
            professions,
            traits,
        } = parts;
        number_all(&mut regions, &mut states, &water);
        assert(regions@.map_values(|x: StrategicRegion| x@) == rs1);
        assert(states@.map_values(|x: StateTemplate| x@) == ts1);
        assert(regions@.len() == p.regions.len());
        match places_end(&regions, &states) {
            Some(end) => {
                if end > total + 1 {
                    return None;
                }
            },
            None => return None,
        }
        let ghost tv = states@.map_values(|t: StateTemplate| t@);
        proof {
            lemma_sizes_total_same(tv, p.states);
        }
        let _ = place_all(&mut regions, &mut states);
        proof {
            lemma_laid_out(p, ts1, rs1, states@.map_values(|t: StateTemplate| t@), total as nat);
        }
        let (slots, provinces) = index_pixels(&states, pixels, total);
        if !Self::complete(&slots) {
            return None;
        }
        let index_color = finish_slots(&slots);
        let np = pixels.len();
        proof {
            assert(forall|k: int| 0 <= k < px.len() ==> #[trigger] index::is_rgb(px[k]));
            lemma_map_counted(p, px);
            assert(colors_view(index_color@) == finished(map_index(p, px).slots));
            assert(colors_view(index_color@).len() == index_color@.len());
            assert(finished(map_index(p, px).slots).len() == map_index(p, px).slots.len());
            assert(index_color@.len() == map_index(p, px).slots.len());
            assert(px.len() == pixels@.len());
            assert(np == pixels@.len());
            assert(counted(colors_view(index_color@), index_color@.len()) == np);
        }
        Some(
            GameMap {
                regions,
                states,
                countries,
                religions,
                cultures,
                professions,
                water,
                named_colors,
                laws,
                lawgroups,
                traits,
                index_color,
                provinces,
                unorganized: String::from_str("UNORGANIZED"),
            },
        )
    }

    /// Whether every slot but slot 0 has been taken.
    fn complete(slots: &Vec<(Option<[u8; 3]>, usize)>) -> (r: bool)
        ensures
            r == index_complete(IndexView { slots: slots_view(slots@), keys: Map::empty() }),
    {
        let ghost sv = slots_view(slots@);
        let mut i: usize = 1;
        while i < slots.len()
            invariant
                sv == slots_view(slots@),
                1 <= i,
                forall|k: int| 1 <= k < i && k < sv.len() ==> (#[trigger] sv[k]).0 is Some,
            decreases slots@.len() - i,
        {
            if slots[i].0.is_none() {
                assert(sv[i as int].0 is None);
                return false;
            }
            i = i + 1;
        }
        true
    }

    /// Numbers and places the templates and the regions and numbers the colors of the
    /// province map; returns the number of provinces of all templates.
    fn lay_out(
        regions: &mut Vec<StrategicRegion>,
        states: &mut Vec<StateTemplate>,
        water: &Vec<Water>,
        pixels: &Vec<[u8; 3]>,
    ) -> (r: (usize, Vec<(Option<[u8; 3]>, usize)>, HashMap<u32, usize>))
        requires
            ({
                let p = MapPartsView {
                    regions: old(regions)@.map_values(|x: StrategicRegion| x@),
                    states: old(states)@.map_values(|x: StateTemplate| x@),
                    water: water@.map_values(|x: Water| x@),
                    ..arbitrary()
                };
                &&& forall|k: int| 0 <= k < p.states.len() ==> (#[trigger] p.states[k]).offset is None
                &&& sizes_total(p.states) + 1 <= usize::MAX
                &&& laid_out(p).2 <= sizes_total(p.states) + 1
            }),
        ensures
            ({
                let p = MapPartsView {
                    regions: old(regions)@.map_values(|x: StrategicRegion| x@),
                    states: old(states)@.map_values(|x: StateTemplate| x@),
                    water: water@.map_values(|x: Water| x@),
                    ..arbitrary()
                };
                let ix = map_index(p, pixels_view(pixels@));
                &&& final(regions)@.map_values(|x: StrategicRegion| x@) == laid_out(p).0
                &&& final(states)@.map_values(|x: StateTemplate| x@) == laid_out(p).1
                &&& r.0 as nat == sizes_total(p.states)
                &&& slots_view(r.1@) == ix.slots
                &&& keys_view(r.2@) == ix.keys
            }),
    {
        let ghost p = MapPartsView {
            regions: regions@.map_values(|x: StrategicRegion| x@),
            states: states@.map_values(|x: StateTemplate| x@),
            water: water@.map_values(|x: Water| x@),
            ..arbitrary()
        };
        let ghost ts1 = numbered_all(p.states, p.water);
        let ghost rs1 = regions_numbered(p.regions);
        number_all(regions, states, water);
        assert(regions@.map_values(|x: StrategicRegion| x@) == rs1);
        assert(states@.map_values(|x: StateTemplate| x@) == ts1);
        assert(regions@.len() == p.regions.len());
        let total = match count_provinces(states) {
            Some(t) => t,
            None => {
                proof {
                    lemma_sizes_total_same(states@.map_values(|t: StateTemplate| t@), p.states);
                }
                0
            },
        };
        proof {
            lemma_sizes_total_same(states@.map_values(|t: StateTemplate| t@), p.states);
        }
        let _ = place_all(regions, states);
        proof {
            lemma_laid_out(p, ts1, rs1, states@.map_values(|t: StateTemplate| t@), total as nat);
        }
        let (slots, keys) = index_pixels(states, pixels, total);
        (total, slots, keys)
    }
}

/// The first of the first `n` templates that lists the province color `c`.
pub open spec fn first_state_of(ts: Seq<StateTemplateView>, c: Seq<u8>, n: nat) -> Option<int>
    decreases n,
{
    if n == 0 {
        None
    } else {
        match first_state_of(ts, c, (n - 1) as nat) {
            Some(j) => Some(j),
            None => if template_contains(ts[n - 1], c) {
                Some(n - 1)
            } else {
                None
            },
        }
    }
}

/// The color of the first of the first `n` regions that lists the state `name` and
/// has a color.
pub open spec fn region_color_of(rs: Seq<StrategicRegionView>, name: Seq<char>, n: nat) -> Option<
    ColorSpecView,
>
    decreases n,
{
    if n == 0 {
        None
    } else {
        match region_color_of(rs, name, (n - 1) as nat) {
            Some(c) => Some(c),
            None => if rs[n - 1].states.contains(name) {
                rs[n - 1].color
            } else {
                None
            },
        }
    }
}

/// The color of the first of the first `n` countries with tag `tag`.
pub open spec fn country_color_of(cs: Seq<CountryDefView>, tag: Seq<char>, n: nat) -> Option<
    ColorSpecView,
>
    decreases n,
{
    if n == 0 {
        None
    } else {
        match country_color_of(cs, tag, (n - 1) as nat) {
            Some(c) => Some(c),
            None => if cs[n - 1].name == tag {
                Some(cs[n - 1].color)
            } else {
                None
            },
        }
    }
}

/// The color of the first of the first `n` professions named `name`.
pub open spec fn job_color_of(ps: Seq<ProfessionView>, name: Seq<char>, n: nat) -> Option<
    ColorSpecView,
>
    decreases n,
{
    if n == 0 {
        None
    } else {
        match job_color_of(ps, name, (n - 1) as nat) {
            Some(c) => Some(c),
            None => if ps[n - 1].name == name {
                Some(ps[n - 1].color)
            } else {
                None
            },
        }
    }
}

/// The pixels of the slots `provs`.
/// The first culture, from `j` on, named `name`.
pub open spec fn first_culture_named(cs: Seq<CultureDefView>, name: Seq<char>, j: nat) -> Option<nat>
    decreases cs.len() - j,
{
    if j >= cs.len() {
        None
    } else if cs[j as int].name == name {
        Some(j)
    } else {
        first_culture_named(cs, name, j + 1)
    }
}

/// The first religion, from `j` on, named `name`.
pub open spec fn first_religion_named(rs: Seq<ReligionView>, name: Seq<char>, j: nat) -> Option<nat>
    decreases rs.len() - j,
{
    if j >= rs.len() {
        None
    } else if rs[j as int].name == name {
        Some(j)
    } else {
        first_religion_named(rs, name, j + 1)
    }
}

/// The template of a province color is the first template that lists it, and there
/// is none where no template lists it.
pub proof fn law_first_state(ts: Seq<StateTemplateView>, c: Seq<u8>, n: nat)
    requires
        n <= ts.len(),
    ensures
        forall|i: int|
            0 <= i < n && template_contains(#[trigger] ts[i], c) && (forall|m: int|
                0 <= m < i ==> !template_contains(ts[m], c)) ==> first_state_of(ts, c, n) == Some(i),
        (forall|m: int| 0 <= m < n ==> !template_contains(#[trigger] ts[m], c)) ==> first_state_of(
            ts,
            c,
            n,
        ) is None,
        first_state_of(ts, c, n) matches Some(j) ==> 0 <= j < n && template_contains(ts[j], c),
    decreases n,
{
    if n > 0 {
        law_first_state(ts, c, (n - 1) as nat);
    }
}

/// A state's region color is the color of the first region that lists the state and
/// has a color, and there is none where no region listing the state has one.
pub proof fn law_region_color(rs: Seq<StrategicRegionView>, name: Seq<char>, n: nat)
    requires
        n <= rs.len(),
    ensures
        forall|i: int|
            0 <= i < n && (#[trigger] rs[i]).states.contains(name) && rs[i].color is Some && (
            forall|m: int| 0 <= m < i ==> !(rs[m].states.contains(name) && rs[m].color is Some))
                ==> region_color_of(rs, name, n) == rs[i].color,
        (forall|m: int| 0 <= m < n ==> !((#[trigger] rs[m]).states.contains(name) && rs[m].color is Some))
            ==> region_color_of(rs, name, n) is None,
        region_color_of(rs, name, n) is Some ==> exists|i: int|
            0 <= i < n && (#[trigger] rs[i]).states.contains(name) && rs[i].color == region_color_of(
                rs,
                name,
                n,
            ),
    decreases n,
{
    if n > 0 {
        law_region_color(rs, name, (n - 1) as nat);
        if region_color_of(rs, name, (n - 1) as nat) is None && region_color_of(rs, name, n) is Some {
            assert(rs[n - 1].states.contains(name) && rs[n - 1].color == region_color_of(rs, name, n));
        }
    }
}

/// The strategic color of a province color is the color of a region that lists the
/// template holding that color.
pub proof fn law_strat_color(m: GameMapView, prov: Seq<u8>)
    ensures
        (match first_state_of(m.states, prov, m.states.len()) {
            Some(j) => region_color_of(m.regions, m.states[j].name, m.regions.len()),
            None => None,
        }) matches Some(c) ==> exists|j: int, i: int|
            0 <= j < m.states.len() && 0 <= i < m.regions.len() && template_contains(
                #[trigger] m.states[j],
                prov,
            ) && (#[trigger] m.regions[i]).states.contains(m.states[j].name) && m.regions[i].color
                == Some(c),
{
    law_first_state(m.states, prov, m.states.len());
    if let Some(j) = first_state_of(m.states, prov, m.states.len()) {
        law_region_color(m.regions, m.states[j].name, m.regions.len());
    }
}

/// A tag's color is the color of the first country with that tag, and there is none
/// where no country has it.
pub proof fn law_country_color(cs: Seq<CountryDefView>, tag: Seq<char>, n: nat)
    requires
        n <= cs.len(),
    ensures
        forall|i: int|
            0 <= i < n && (#[trigger] cs[i]).name == tag && (forall|m: int| 0 <= m < i ==> cs[m].name != tag)
                ==> country_color_of(cs, tag, n) == Some(cs[i].color),
        (forall|m: int| 0 <= m < n ==> (#[trigger] cs[m]).name != tag) ==> country_color_of(cs, tag, n)
            is None,
        country_color_of(cs, tag, n) matches Some(c) ==> exists|i: int|
            0 <= i < n && (#[trigger] cs[i]).name == tag && cs[i].color == c,
    decreases n,
{
    if n > 0 {
        law_country_color(cs, tag, (n - 1) as nat);
        if country_color_of(cs, tag, (n - 1) as nat) is None && country_color_of(cs, tag, n) is Some {
            assert(cs[n - 1].name == tag);
        }
    }
}

/// A profession's color is the color of the first profession with that name, and
/// there is none where no profession has it.
pub proof fn law_job_color(ps: Seq<ProfessionView>, name: Seq<char>, n: nat)
    requires
        n <= ps.len(),
    ensures
        forall|i: int|
            0 <= i < n && (#[trigger] ps[i]).name == name && (forall|m: int| 0 <= m < i ==> ps[m].name != name)
                ==> job_color_of(ps, name, n) == Some(ps[i].color),
        (forall|m: int| 0 <= m < n ==> (#[trigger] ps[m]).name != name) ==> job_color_of(ps, name, n)
            is None,
        job_color_of(ps, name, n) matches Some(c) ==> exists|i: int|
            0 <= i < n && (#[trigger] ps[i]).name == name && ps[i].color == c,
    decreases n,
{
    if n > 0 {
        law_job_color(ps, name, (n - 1) as nat);
        if job_color_of(ps, name, (n - 1) as nat) is None && job_color_of(ps, name, n) is Some {
            assert(ps[n - 1].name == name);
        }
    }
}

/// The culture found by name is the first from `j` on with that name, and none is
/// found where no culture from `j` on has it.
pub proof fn law_culture_named(cs: Seq<CultureDefView>, name: Seq<char>, j: nat)
    ensures
        first_culture_named(cs, name, j) matches Some(k) ==> j <= k < cs.len() && cs[k as int].name
            == name && forall|m: int| j <= m < k ==> (#[trigger] cs[m]).name != name,
        first_culture_named(cs, name, j) is None ==> forall|m: int|
            j <= m < cs.len() ==> (#[trigger] cs[m]).name != name,
    decreases cs.len() - j,
{
    if j < cs.len() {
        law_culture_named(cs, name, j + 1);
    }
}

/// The religion found by name is the first from `j` on with that name, and none is
/// found where no religion from `j` on has it.
pub proof fn law_religion_named(rs: Seq<ReligionView>, name: Seq<char>, j: nat)
    ensures
        first_religion_named(rs, name, j) matches Some(k) ==> j <= k < rs.len() && rs[k as int].name
            == name && forall|m: int| j <= m < k ==> (#[trigger] rs[m]).name != name,
        first_religion_named(rs, name, j) is None ==> forall|m: int|
            j <= m < rs.len() ==> (#[trigger] rs[m]).name != name,
    decreases rs.len() - j,
{
    if j < rs.len() {
        law_religion_named(rs, name, j + 1);
    }
}

pub open spec fn area_of(ic: Seq<(Seq<u8>, nat)>, provs: Seq<usize>) -> nat
    decreases provs.len(),
{
    if provs.len() == 0 {
        0
    } else {
        area_of(ic, provs.drop_last()) + ic[provs.last() as int].1
    }
}

/// The pixels of the first `n` slots whose color the template lists.
pub open spec fn cover_of(t: StateTemplateView, ic: Seq<(Seq<u8>, nat)>, n: nat) -> nat
    decreases n,
{
    if n == 0 {
        0
    } else {
        cover_of(t, ic, (n - 1) as nat) + if template_contains(t, ic[n - 1].0) {
            ic[n - 1].1
        } else {
            0
        }
    }
}

/// The pixels of the first `n` slots.
pub open spec fn counted(ic: Seq<(Seq<u8>, nat)>, n: nat) -> nat
    decreases n,
{
    if n == 0 {
        0
    } else {
        counted(ic, (n - 1) as nat) + ic[n - 1].1
    }
}

/// The pixels of the finished slots are those of the slots but slot 0.
proof fn lemma_counted_finished(s: Seq<(Option<Seq<u8>>, nat)>, n: nat)
    requires
        1 <= n <= s.len(),
    ensures
        counted(finished(s), n) + s[0].1 == index::slot_total(s.take(n as int)),
    decreases n,
{
    if n == 1 {
        assert(s.take(1).drop_last() =~= s.take(0));
        assert(s.take(0) =~= Seq::<(Option<Seq<u8>>, nat)>::empty());
        assert(index::slot_total(s.take(0)) == 0);
        assert(s.take(1).last() == s[0]);
        assert(finished(s)[0].1 == 0);
    } else {
        lemma_counted_finished(s, (n - 1) as nat);
        assert(s.take(n as int).drop_last() =~= s.take(n - 1));
        assert(s.take(n as int).last() == s[n - 1]);
        assert(finished(s)[n - 1].1 == s[n - 1].1);
    }
}

/// The slots of a built map count every pixel of the province map once.
pub proof fn law_map_area(p: MapPartsView, pixels: Seq<Seq<u8>>)
    requires
        map_fits(p, pixels),
        forall|k: int| 0 <= k < pixels.len() ==> #[trigger] index::is_rgb(pixels[k]),
    ensures
        counted(map_of(p, pixels).index_color, map_of(p, pixels).index_color.len()) == pixels.len(),
{
    lemma_map_counted(p, pixels);
}

/// Looking up the color of any pixel of the province map gives its slot, which holds
/// that color and counts its pixels.
pub proof fn law_map_lookup(p: MapPartsView, pixels: Seq<Seq<u8>>, m: int)
    requires
        map_fits(p, pixels),
        forall|k: int| 0 <= k < pixels.len() ==> #[trigger] index::is_rgb(pixels[k]),
        0 <= m < pixels.len(),
    ensures
        ({
            let g = map_of(p, pixels);
            let key = pack(pixels[m]);
            &&& g.provinces.contains_key(key)
            &&& 1 <= g.provinces[key] < g.index_color.len()
            &&& g.index_color[g.provinces[key] as int] == (
                pixels[m],
                index::count_of(pixels, pixels[m], pixels.len()),
            )
        }),
{
    let ts1 = numbered_all(p.states, p.water);
    let rs1 = regions_numbered(p.regions);
    lemma_laid_out(p, ts1, rs1, laid_out(p).1, sizes_total(p.states));
    let base = sizes_total(p.states) + 1;
    index::law_index_lookup(laid_out(p).1, pixels, base, m);
    index::law_index_totals(laid_out(p).1, pixels, base);
}

/// The finished slots of the province map count all its pixels.
proof fn lemma_map_counted(p: MapPartsView, pixels: Seq<Seq<u8>>)
    requires
        forall|k: int| 0 <= k < p.states.len() ==> (#[trigger] p.states[k]).offset is None,
        laid_out(p).2 <= sizes_total(p.states) + 1,
        forall|k: int| 0 <= k < pixels.len() ==> #[trigger] index::is_rgb(pixels[k]),
    ensures
        counted(finished(map_index(p, pixels).slots), map_index(p, pixels).slots.len()) == pixels.len(),
{
    let ts1 = numbered_all(p.states, p.water);
    let rs1 = regions_numbered(p.regions);
    lemma_laid_out(p, ts1, rs1, laid_out(p).1, sizes_total(p.states));
    let base = sizes_total(p.states) + 1;
    index::law_index_totals(laid_out(p).1, pixels, base);
    let s = map_index(p, pixels).slots;
    index::lemma_index_bounds(laid_out(p).1, pixels, base, pixels.len());
    lemma_counted_finished(s, s.len());
    assert(s.take(s.len() as int) =~= s);
}

proof fn lemma_cover_le(t: StateTemplateView, ic: Seq<(Seq<u8>, nat)>, n: nat)
    ensures
        cover_of(t, ic, n) <= counted(ic, n),
    decreases n,
{
    if n > 0 {
        lemma_cover_le(t, ic, (n - 1) as nat);
    }
}

impl GameMap {
    /// The map is well formed: its slots count no more pixels than a `usize` holds.
    #[verifier::type_invariant]
    closed spec fn wf(self) -> bool {
        &&& counted(colors_view(self.index_color@), self.index_color@.len()) <= usize::MAX
        &&& self.unorganized@ == "UNORGANIZED"@
    }

    /// The color of the strategic region of the state that lists the province color
    /// `prov`: the first template listing it, and the first region listing that
    /// template that has a color.
    pub fn get_strat_color(&self, prov: [u8; 3]) -> (r: Option<ColorSpec>)
        ensures
            opt_color(r) == match first_state_of(self@.states, prov@, self@.states.len()) {
                Some(j) => region_color_of(
                    self@.regions,
                    self@.states[j].name,
                    self@.regions.len(),
                ),
                None => None,
            },
    {
        match self.state_of(prov) {
            Some(j) => {
                let name = self.states[j].name();
                let ghost rs = self@.regions;
                let mut k: usize = 0;
                while k < self.regions.len()
                    invariant
                        rs == self@.regions,
                        first_state_of(self@.states, prov@, self@.states.len()) == Some(j as int),
                        k <= rs.len(),
                        name@ == self@.states[j as int].name,
                        region_color_of(rs, name@, k as nat) is None,
                    decreases rs.len() - k,
                {
                    assert(rs[k as int] == self.regions@[k as int]@);
                    if layout::lists_pub(self.regions[k].states(), name) {
                        let c = self.regions[k].color();
                        if c.is_some() {
                            proof {
                                lemma_region_color_prefix(rs, name@, (k + 1) as nat, rs.len());
                            }
                            return c;
                        }
                    }
                    k = k + 1;
                }
                None
            },
            None => None,
        }
    }

    /// The first template that lists the province color `c`.
    fn state_of(&self, c: [u8; 3]) -> (r: Option<usize>)
        ensures
            r matches Some(j) ==> j < self@.states.len() && first_state_of(
                self@.states,
                c@,
                self@.states.len(),
            ) == Some(j as int),
            r is None ==> first_state_of(self@.states, c@, self@.states.len()) is None,
    {
        let ghost ts = self@.states;
        let mut j: usize = 0;
        while j < self.states.len()
            invariant
                ts == self@.states,
                j <= ts.len(),
                first_state_of(ts, c@, j as nat) is None,
            decreases ts.len() - j,
        {
            if self.states[j].contains(c) {
                proof {
                    lemma_first_state_prefix(ts, c@, (j + 1) as nat, ts.len());
                }
                return Some(j);
            }
            j = j + 1;
        }
        None
    }

    /// Returns the state name if the province belongs to a known state template;
    /// `UNORGANIZED` where the province is on the province map but no state template
    /// lists it; `None` where it is in neither.
    pub fn get_state_name(&self, color: [u8; 3]) -> (r: Option<&String>)
        ensures
            r matches Some(s) ==> match first_state_of(self@.states, color@, self@.states.len()) {
                Some(j) => s@ == self@.states[j].name,
                None => self@.provinces.contains_key(pack(color@)) && s@ == "UNORGANIZED"@,
            },
            r is None ==> first_state_of(self@.states, color@, self@.states.len()) is None
                && !self@.provinces.contains_key(pack(color@)),
    {
        proof {
            use_type_invariant(self);
        }
        match self.state_of(color) {
            Some(j) => Some(self.states[j].name()),
            None => match self.to_index(color) {
                Some(_) => Some(&self.unorganized),
                None => None,
            },
        }
    }

    /// The slot of the province color `inp`, where the province map shows it.
    pub fn to_index(&self, inp: [u8; 3]) -> (r: Option<usize>)
        ensures
            r matches Some(i) ==> self@.provinces.contains_key(pack(inp@))
                && self@.provinces[pack(inp@)] == i as nat,
            r is None ==> !self@.provinces.contains_key(pack(inp@)),
    {
        let key = index::pack_rgb_pub(inp);
        match self.provinces.get(&key) {
            Some(v) => Some(*v),
            None => None,
        }
    }

    /// The color of the first culture of the map named `name`.
    pub fn culture_color(&self, name: &str) -> (r: Option<ColorSpec>)
        ensures
            match first_culture_named(self@.cultures, name@, 0) {
                Some(k) => r matches Some(c) && c@ == self@.cultures[k as int].color,
                None => r is None,
            },
    {
        let ghost cs = self@.cultures;
        let n = String::from_str(name);
        let mut k: usize = 0;
        while k < self.cultures.len()
            invariant
                cs == self@.cultures,
                cs == self.cultures@.map_values(|x: Culture| x@),
                n@ == name@,
                k <= cs.len(),
                first_culture_named(cs, name@, 0) == first_culture_named(cs, name@, k as nat),
            decreases cs.len() - k,
        {
            assert(cs[k as int] == self.cultures@[k as int]@);
            if *self.cultures[k].name() == n {
                return Some(self.cultures[k].color().duplicate());
            }
            k = k + 1;
        }
        None
    }

    /// The color of the first religion of the map named `name`.
    pub fn religion_color(&self, name: &str) -> (r: Option<ColorSpec>)
        ensures
            match first_religion_named(self@.religions, name@, 0) {
                Some(k) => r matches Some(c) && c@ == self@.religions[k as int].color,
                None => r is None,
            },
    {
        let ghost rs = self@.religions;
        let n = String::from_str(name);
        let mut k: usize = 0;
        while k < self.religions.len()
            invariant
                rs == self@.religions,
                rs == self.religions@.map_values(|x: Religion| x@),
                n@ == name@,
                k <= rs.len(),
                first_religion_named(rs, name@, 0) == first_religion_named(rs, name@, k as nat),
            decreases rs.len() - k,
        {
            assert(rs[k as int] == self.religions@[k as int]@);
            if String::from_str(self.religions[k].name()) == n {
                return Some(self.religions[k].color().duplicate());
            }
            k = k + 1;
        }
        None
    }

    /// The color of the first country with tag `tag`.
    pub fn get_country_color(&self, tag: &str) -> (r: Option<ColorSpec>)
        ensures
            opt_color(r) == country_color_of(self@.countries, tag@, self@.countries.len()),
    {
        let ghost cs = self@.countries;
        let tag_s = String::from_str(tag);
        let mut k: usize = 0;
        while k < self.countries.len()
            invariant
                cs == self@.countries,
                tag_s@ == tag@,
                k <= cs.len(),
                country_color_of(cs, tag@, k as nat) is None,
            decreases cs.len() - k,
        {
            assert(cs[k as int] == self.countries@[k as int]@);
            if String::from_str(self.countries[k].name()) == tag_s {
                proof {
                    lemma_country_color_prefix(cs, tag@, (k + 1) as nat, cs.len());
                }
                return Some(self.countries[k].color().duplicate());
            }
            k = k + 1;
        }
        None
    }

    /// The pixels of the slots `provs`.
    pub fn area(&self, provs: &Vec<usize>) -> (r: usize)
        requires
            forall|k: int| 0 <= k < provs@.len() ==> (#[trigger] provs@[k] as int) < self@.index_color.len(),
            area_of(self@.index_color, provs@) <= usize::MAX,
        ensures
            r as nat == area_of(self@.index_color, provs@),
    {
        let ghost ic = self@.index_color;
        let mut acc: usize = 0;
        let mut k: usize = 0;
        while k < provs.len()
            invariant
                ic == self@.index_color,
                forall|q: int| 0 <= q < provs@.len() ==> (#[trigger] provs@[q] as int) < ic.len(),
                area_of(ic, provs@) <= usize::MAX,
                k <= provs@.len(),
                acc as nat == area_of(ic, provs@.take(k as int)),
            decreases provs@.len() - k,
        {
            assert(provs@.take(k + 1).drop_last() =~= provs@.take(k as int));
            proof {
                lemma_area_prefix(ic, provs@, k + 1);
            }
            let x = provs[k];
            acc = acc + self.index_color[x].1;
            k = k + 1;
        }
        assert(provs@.take(k as int) =~= provs@);
        acc
    }

    pub fn get_region(&self, id: usize) -> (r: Option<&StrategicRegion>)
        ensures
            r matches Some(x) ==> id < self@.regions.len() && x@ == self@.regions[id as int],
            r is None ==> id >= self@.regions.len(),
    {
        if id < self.regions.len() {
            Some(&self.regions[id])
        } else {
            None
        }
    }

    pub fn regions(&self) -> (r: &Vec<StrategicRegion>)
        ensures
            r@.map_values(|x: StrategicRegion| x@) == self@.regions,
    {
        &self.regions
    }

    /// The first template that lists the color of slot `id_1`.
    pub fn col_index_to_state(&self, id_1: usize) -> (r: Option<&StateTemplate>)
        requires
            id_1 < self@.index_color.len(),
        ensures
            r matches Some(t) ==> first_state_of(
                self@.states,
                self@.index_color[id_1 as int].0,
                self@.states.len(),
            ) matches Some(j) && t@ == self@.states[j],
            r is None ==> first_state_of(
                self@.states,
                self@.index_color[id_1 as int].0,
                self@.states.len(),
            ) is None,
    {
        let color = self.index_color[id_1].0;
        match self.state_of(color) {
            Some(j) => Some(&self.states[j]),
            None => None,
        }
    }

    /// Each template with the pixels of the slots whose color it lists.
    pub fn state_area(&self) -> (r: Vec<(&StateTemplate, usize)>)
        ensures
            r@.len() == self@.states.len(),
            forall|j: int|
                0 <= j < r@.len() ==> (#[trigger] r@[j]).0@ == self@.states[j] && r@[j].1 as nat
                    == cover_of(self@.states[j], self@.index_color, self@.index_color.len()),
    {
        proof {
            use_type_invariant(self);
        }
        let ghost ic = self@.index_color;
        let mut out: Vec<(&StateTemplate, usize)> = Vec::new();
        let mut j: usize = 0;
        while j < self.states.len()
            invariant
                ic == self@.index_color,
                counted(ic, ic.len()) <= usize::MAX,
                j <= self@.states.len(),
                out@.len() == j,
                forall|q: int|
                    0 <= q < j ==> (#[trigger] out@[q]).0@ == self@.states[q] && out@[q].1 as nat
                        == cover_of(self@.states[q], ic, ic.len()),
            decreases self@.states.len() - j,
        {
            let t = &self.states[j];
            let mut acc: usize = 0;
            let mut i: usize = 0;
            while i < self.index_color.len()
                invariant
                    ic == self@.index_color,
                    counted(ic, ic.len()) <= usize::MAX,
                    i <= ic.len(),
                    t@ == self@.states[j as int],
                    acc as nat == cover_of(t@, ic, i as nat),
                decreases ic.len() - i,
            {
                proof {
                    lemma_cover_le(t@, ic, (i + 1) as nat);
                    lemma_counted_prefix(ic, (i + 1) as nat, ic.len());
                }
                let (c, n) = self.index_color[i];
                assert(ic[i as int] == (c@, n as nat));
                if t.contains(c) {
                    acc = acc + n;
                }
                i = i + 1;
            }
            out.push((t, acc));
            j = j + 1;
        }
        out
    }

    /// The color of the first profession named `name`.
    pub fn job_color(&self, name: &str) -> (r: Option<ColorSpec>)
        ensures
            opt_color(r) == job_color_of(self@.professions, name@, self@.professions.len()),
    {
        let ghost ps = self@.professions;
        let name_s = String::from_str(name);
        let mut k: usize = 0;
        while k < self.professions.len()
            invariant
                ps == self@.professions,
                name_s@ == name@,
                k <= ps.len(),
                job_color_of(ps, name@, k as nat) is None,
            decreases ps.len() - k,
        {
            assert(ps[k as int] == self.professions@[k as int]@);
            if *self.professions[k].name() == name_s {
                proof {
                    lemma_job_color_prefix(ps, name@, (k + 1) as nat, ps.len());
                }
                return Some(self.professions[k].color().duplicate());
            }
            k = k + 1;
        }
        None
    }
}

proof fn lemma_first_state_prefix(ts: Seq<StateTemplateView>, c: Seq<u8>, n: nat, m: nat)
    requires
        n <= m,
        first_state_of(ts, c, n) is Some,
    ensures
        first_state_of(ts, c, m) == first_state_of(ts, c, n),
    decreases m - n,
{
    if n < m {
        lemma_first_state_prefix(ts, c, n, (m - 1) as nat);
    }
}

proof fn lemma_region_color_prefix(rs: Seq<StrategicRegionView>, name: Seq<char>, n: nat, m: nat)
    requires
        n <= m,
        region_color_of(rs, name, n) is Some,
    ensures
        region_color_of(rs, name, m) == region_color_of(rs, name, n),
    decreases m - n,
{
    if n < m {
        lemma_region_color_prefix(rs, name, n, (m - 1) as nat);
    }
}

proof fn lemma_country_color_prefix(cs: Seq<CountryDefView>, tag: Seq<char>, n: nat, m: nat)
    requires
        n <= m,
        country_color_of(cs, tag, n) is Some,
    ensures
        country_color_of(cs, tag, m) == country_color_of(cs, tag, n),
    decreases m - n,
{
    if n < m {
        lemma_country_color_prefix(cs, tag, n, (m - 1) as nat);
    }
}

proof fn lemma_job_color_prefix(ps: Seq<ProfessionView>, name: Seq<char>, n: nat, m: nat)
    requires
        n <= m,
        job_color_of(ps, name, n) is Some,
    ensures
        job_color_of(ps, name, m) == job_color_of(ps, name, n),
    decreases m - n,
{
    if n < m {
        lemma_job_color_prefix(ps, name, n, (m - 1) as nat);
    }
}

proof fn lemma_area_prefix(ic: Seq<(Seq<u8>, nat)>, provs: Seq<usize>, n: int)
    requires
        0 <= n <= provs.len(),
    ensures
        area_of(ic, provs.take(n)) <= area_of(ic, provs),
    decreases provs.len() - n,
{
    if n < provs.len() {
        lemma_area_prefix(ic, provs, n + 1);
        assert(provs.take(n + 1).drop_last() =~= provs.take(n));
    } else {
        assert(provs.take(n) =~= provs);
    }
}

proof fn lemma_counted_prefix(ic: Seq<(Seq<u8>, nat)>, n: nat, m: nat)
    requires
        n <= m,
    ensures
        counted(ic, n) <= counted(ic, m),
    decreases m - n,
{
    if n < m {
        lemma_counted_prefix(ic, n, (m - 1) as nat);
    }
}

/// The laid out templates keep their provinces, and their places fit the numbering.
proof fn lemma_laid_out(
    p: MapPartsView,
    ts1: Seq<StateTemplateView>,
    rs1: Seq<StrategicRegionView>,
    ts2: Seq<StateTemplateView>,
    total: nat,
)
    requires
        ts1 == numbered_all(p.states, p.water),
        rs1 == regions_numbered(p.regions),
        ts2 == laid_out(p).1,
        total == sizes_total(p.states),
        forall|k: int| 0 <= k < p.states.len() ==> (#[trigger] p.states[k]).offset is None,
        laid_out(p).2 <= total + 1,
    ensures
        places_fit(ts2, total + 1),
        sizes_total(ts2) == total,
{
    assert forall|k: int| 0 <= k < ts1.len() implies (#[trigger] ts1[k]).offset is None by {
        assert(p.states[k].offset is None);
    }
    lemma_places_fit(rs1, ts1, rs1.len());
    layout::lemma_place_regions_members_pub(rs1, ts1, rs1.len());
    lemma_sizes_total_same(ts2, p.states);
}

} // verus!
