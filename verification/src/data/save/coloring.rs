//! The base colors of a map drawn by owner: which color each province color of the
//! province map takes under a coloring by state templates, save states or save
//! countries, given a save.
use vstd::prelude::*;

use crate::data::save::countries::Country;
use crate::data::save::{datum_of, key_at, owners_of, Save, SaveView};
use crate::draw::Coloring;
use crate::error::VicError;
use crate::map::index::pack;
use crate::map::{country_color_of, first_state_of, region_color_of, GameMap, GameMapView};
use crate::wrappers::{ColorSpec, ColorSpecView};

verus! {

/// Where a province color takes its color from: a color of the province map, or a
/// color as the game files write it (a region's or a country's).
#[derive(Debug)]
pub enum BaseColor {
    Pixel([u8; 3]),
    Spec(ColorSpec),
}

pub ghost enum BaseColorView {
    Pixel(Seq<u8>),
    Spec(ColorSpecView),
}

impl View for BaseColor {
    type V = BaseColorView;

    open spec fn view(&self) -> BaseColorView {
        match self {
            BaseColor::Pixel(c) => BaseColorView::Pixel(c@),
            BaseColor::Spec(s) => BaseColorView::Spec(s@),
        }
    }
}

/// The id of the owner of the province of color `c` that a coloring looks at: its
/// country under save countries, its state otherwise; `None` where `c` is no province
/// of the map or nobody owns it.
pub open spec fn color_owner(map: GameMapView, save: SaveView, coloring: Coloring, c: Seq<u8>) -> Option<nat> {
    if map.provinces.contains_key(pack(c)) {
        datum_of(
            save,
            if coloring == Coloring::SaveCountries {
                Coloring::SaveCountries
            } else {
                Coloring::SaveStates
            },
            map.provinces[pack(c)],
        )
    } else {
        None
    }
}

/// The state id and country id that own the province of color `c`.
pub open spec fn color_ids(map: GameMapView, save: SaveView, c: Seq<u8>) -> Option<(nat, nat)> {
    if map.provinces.contains_key(pack(c)) {
        match owners_of(save, map.provinces[pack(c)]) {
            Some((i, k)) => Some((save.states[i as int].id, save.countries[k as int].id)),
            None => None,
        }
    } else {
        None
    }
}

/// The first of the first `n` colors whose owner is `id`.
pub open spec fn first_owned(
    map: GameMapView,
    save: SaveView,
    coloring: Coloring,
    colors: Seq<[u8; 3]>,
    id: nat,
    n: nat,
) -> Option<nat>
    decreases n,
{
    if n == 0 {
        None
    } else {
        match first_owned(map, save, coloring, colors, id, (n - 1) as nat) {
            Some(f) => Some(f),
            None => if color_owner(map, save, coloring, colors[n - 1]@) == Some(id) {
                Some((n - 1) as nat)
            } else {
                None
            },
        }
    }
}

/// The color of the strategic region of the first template listing the color `c`.
pub open spec fn strat_color(map: GameMapView, c: Seq<u8>) -> Option<ColorSpecView> {
    match first_state_of(map.states, c, map.states.len()) {
        Some(j) => region_color_of(map.regions, map.states[j].name, map.regions.len()),
        None => None,
    }
}

/// The base color of the `k`-th color, or `None` where drawing stops there: a color
/// that is no province of the map; under state templates, an owned province whose
/// template has no region color. An unowned province keeps its color. An owned one
/// takes what the first color of the same owner gives: under save states that color
/// itself, under state templates its region color, under save countries the color of
/// the owner's tag, or that first color where the tag has none.
pub open spec fn base_of(
    map: GameMapView,
    save: SaveView,
    coloring: Coloring,
    colors: Seq<[u8; 3]>,
    k: int,
) -> Option<BaseColorView> {
    let c = colors[k]@;
    if !map.provinces.contains_key(pack(c)) {
        None
    } else {
        match color_owner(map, save, coloring, c) {
            None => Some(BaseColorView::Pixel(c)),
            Some(id) => {
                let first = colors[first_owned(map, save, coloring, colors, id, (k + 1) as nat).unwrap() as int]@;
                if coloring == Coloring::SaveStates {
                    Some(BaseColorView::Pixel(first))
                } else if coloring == Coloring::StateTemplates {
                    match strat_color(map, c) {
                        Some(_) => Some(BaseColorView::Spec(strat_color(map, first).unwrap())),
                        None => None,
                    }
                } else {
                    match key_at::<Country>(save.countries, id, 0) {
                        Some(q) => match country_color_of(
                            map.countries,
                            save.countries[q as int].tag,
                            map.countries.len(),
                        ) {
                            Some(s) => Some(BaseColorView::Spec(s)),
                            None => Some(BaseColorView::Pixel(first)),
                        },
                        None => None,
                    }
                }
            },
        }
    }
}

pub open spec fn ids_view(o: Option<(usize, usize)>) -> Option<(nat, nat)> {
    match o {
        Some((a, b)) => Some((a as nat, b as nat)),
        None => None,
    }
}

/// Every one of the first `n` colors has a base color.
pub open spec fn all_based(
    map: GameMapView,
    save: SaveView,
    coloring: Coloring,
    colors: Seq<[u8; 3]>,
    n: int,
) -> bool {
    forall|k: int| 0 <= k < n ==> #[trigger] base_of(map, save, coloring, colors, k) is Some
}

proof fn lemma_first_owned_bound(
    map: GameMapView,
    save: SaveView,
    coloring: Coloring,
    colors: Seq<[u8; 3]>,
    id: nat,
    n: nat,
)
    ensures
        first_owned(map, save, coloring, colors, id, n) matches Some(f) ==> f < n
            && color_owner(map, save, coloring, colors[f as int]@) == Some(id),
    decreases n,
{
    if n > 0 {
        lemma_first_owned_bound(map, save, coloring, colors, id, (n - 1) as nat);
    }
}

proof fn lemma_first_owned_stable(
    map: GameMapView,
    save: SaveView,
    coloring: Coloring,
    colors: Seq<[u8; 3]>,
    id: nat,
    n: nat,
    m: nat,
)
    requires
        n <= m,
        first_owned(map, save, coloring, colors, id, n) is Some,
    ensures
        first_owned(map, save, coloring, colors, id, m) == first_owned(
            map,
            save,
            coloring,
            colors,
            id,
            n,
        ),
    decreases m,
{
    if n < m {
        lemma_first_owned_stable(map, save, coloring, colors, id, n, (m - 1) as nat);
    }
}

proof fn lemma_first_owned_found(
    map: GameMapView,
    save: SaveView,
    coloring: Coloring,
    colors: Seq<[u8; 3]>,
    id: nat,
    k: nat,
)
    requires
        k < colors.len(),
        color_owner(map, save, coloring, colors[k as int]@) == Some(id),
    ensures
        first_owned(map, save, coloring, colors, id, k + 1) is Some,
{
}

/// The first color of an owner is the earliest of the colors owned by it, and there
/// is none where no color is.
pub proof fn law_first_owned(
    map: GameMapView,
    save: SaveView,
    coloring: Coloring,
    colors: Seq<[u8; 3]>,
    id: nat,
    n: nat,
)
    requires
        n <= colors.len(),
    ensures
        first_owned(map, save, coloring, colors, id, n) matches Some(f) ==> f < n && color_owner(
            map,
            save,
            coloring,
            colors[f as int]@,
        ) == Some(id) && forall|m: int|
            0 <= m < f ==> color_owner(map, save, coloring, (#[trigger] colors[m])@) != Some(id),
        first_owned(map, save, coloring, colors, id, n) is None ==> forall|m: int|
            0 <= m < n ==> color_owner(map, save, coloring, (#[trigger] colors[m])@) != Some(id),
    decreases n,
{
    if n > 0 {
        law_first_owned(map, save, coloring, colors, id, (n - 1) as nat);
    }
}

/// The owner a coloring looks at: for save countries the id of a country whose states
/// list a state that lists the province, otherwise the id of a state that lists it.
pub proof fn law_color_owner(map: GameMapView, save: SaveView, coloring: Coloring, c: Seq<u8>)
    ensures
        color_owner(map, save, coloring, c) matches Some(d) ==> map.provinces.contains_key(pack(c))
            && exists|i: int, k: int|
            0 <= i < save.states.len() && 0 <= k < save.countries.len() && (#[trigger] save.states[i]).provinces.contains(
                map.provinces[pack(c)],
            ) && (#[trigger] save.countries[k]).states.contains(save.states[i].id) && d == (
            if coloring == Coloring::SaveCountries {
                save.countries[k].id
            } else {
                save.states[i].id
            }),
        color_ids(map, save, c) matches Some((a, b)) ==> exists|i: int, k: int|
            0 <= i < save.states.len() && 0 <= k < save.countries.len() && (#[trigger] save.states[i]).provinces.contains(
                map.provinces[pack(c)],
            ) && (#[trigger] save.countries[k]).states.contains(save.states[i].id) && a
                == save.states[i].id && b == save.countries[k].id,
{
    if map.provinces.contains_key(pack(c)) {
        crate::data::save::law_owners(save, map.provinces[pack(c)]);
    }
}

/// The earliest color of the owner of the `k`-th color, as far as the `k`-th: it has
/// that owner, and no color before it has.
pub open spec fn earliest_of_owner(
    map: GameMapView,
    save: SaveView,
    coloring: Coloring,
    colors: Seq<[u8; 3]>,
    k: int,
    f: int,
) -> bool {
    &&& 0 <= f <= k
    &&& color_owner(map, save, coloring, colors[f]@) == color_owner(map, save, coloring, colors[k]@)
    &&& forall|m: int|
        0 <= m < f ==> color_owner(map, save, coloring, (#[trigger] colors[m])@) != color_owner(
            map,
            save,
            coloring,
            colors[k]@,
        )
}

proof fn lemma_earliest(
    map: GameMapView,
    save: SaveView,
    coloring: Coloring,
    colors: Seq<[u8; 3]>,
    k: int,
) -> (f: int)
    requires
        0 <= k < colors.len(),
        color_owner(map, save, coloring, colors[k]@) is Some,
    ensures
        earliest_of_owner(map, save, coloring, colors, k, f),
        first_owned(
            map,
            save,
            coloring,
            colors,
            color_owner(map, save, coloring, colors[k]@).unwrap(),
            (k + 1) as nat,
        ) == Some(f as nat),
{
    let id = color_owner(map, save, coloring, colors[k]@).unwrap();
    law_first_owned(map, save, coloring, colors, id, (k + 1) as nat);
    lemma_first_owned_found(map, save, coloring, colors, id, k as nat);
    first_owned(map, save, coloring, colors, id, (k + 1) as nat).unwrap() as int
}

/// The base color of the `k`-th color, where drawing does not stop there: an
/// unowned province keeps its color; under save states an owned one takes the
/// earliest color of its owner.
pub proof fn law_base_of(
    map: GameMapView,
    save: SaveView,
    coloring: Coloring,
    colors: Seq<[u8; 3]>,
    k: int,
)
    requires
        0 <= k < colors.len(),
    ensures
        !map.provinces.contains_key(pack(colors[k]@)) ==> base_of(map, save, coloring, colors, k)
            is None,
        map.provinces.contains_key(pack(colors[k]@)) && color_owner(map, save, coloring, colors[k]@)
            is None ==> base_of(map, save, coloring, colors, k) == Some(BaseColorView::Pixel(colors[k]@)),
        coloring == Coloring::SaveStates && color_owner(map, save, coloring, colors[k]@) is Some
            ==> exists|f: int|
            #[trigger] earliest_of_owner(map, save, coloring, colors, k, f) && base_of(
                map,
                save,
                coloring,
                colors,
                k,
            ) == Some(BaseColorView::Pixel(colors[f]@)),
{
    if color_owner(map, save, coloring, colors[k]@) is Some {
        let f = lemma_earliest(map, save, coloring, colors, k);
        assert(earliest_of_owner(map, save, coloring, colors, k, f));
    }
}

/// Under state templates, where every color up to the `k`-th has a base color, an
/// owned province takes the region color of the earliest color of its owner.
pub proof fn law_base_of_templates(
    map: GameMapView,
    save: SaveView,
    colors: Seq<[u8; 3]>,
    k: int,
)
    requires
        0 <= k < colors.len(),
        color_owner(map, save, Coloring::StateTemplates, colors[k]@) is Some,
        all_based(map, save, Coloring::StateTemplates, colors, k + 1),
    ensures
        exists|f: int|
            #[trigger] earliest_of_owner(map, save, Coloring::StateTemplates, colors, k, f)
                && strat_color(map, colors[f]@) is Some && base_of(
                map,
                save,
                Coloring::StateTemplates,
                colors,
                k,
            ) == Some(BaseColorView::Spec(strat_color(map, colors[f]@).unwrap())),
{
    let f = lemma_earliest(map, save, Coloring::StateTemplates, colors, k);
    assert(earliest_of_owner(map, save, Coloring::StateTemplates, colors, k, f));
    assert(base_of(map, save, Coloring::StateTemplates, colors, f) is Some);
    assert(base_of(map, save, Coloring::StateTemplates, colors, k) is Some);
}

/// Under save countries, an owned province that has a base color takes the color of
/// a map country named by the tag of a save country with its owner's id, or else
/// the earliest color of its owner.
pub proof fn law_base_of_countries(
    map: GameMapView,
    save: SaveView,
    colors: Seq<[u8; 3]>,
    k: int,
)
    requires
        0 <= k < colors.len(),
        color_owner(map, save, Coloring::SaveCountries, colors[k]@) is Some,
        base_of(map, save, Coloring::SaveCountries, colors, k) is Some,
    ensures
        (exists|f: int|
            #[trigger] earliest_of_owner(map, save, Coloring::SaveCountries, colors, k, f) && base_of(
                map,
                save,
                Coloring::SaveCountries,
                colors,
                k,
            ) == Some(BaseColorView::Pixel(colors[f]@))) || exists|q: int, i: int|
            0 <= q < save.countries.len() && 0 <= i < map.countries.len() && (#[trigger] save.countries[q]).id
                == color_owner(map, save, Coloring::SaveCountries, colors[k]@).unwrap()
                && (#[trigger] map.countries[i]).name == save.countries[q].tag && base_of(
                map,
                save,
                Coloring::SaveCountries,
                colors,
                k,
            ) == Some(BaseColorView::Spec(map.countries[i].color)),
{
    let id = color_owner(map, save, Coloring::SaveCountries, colors[k]@).unwrap();
    let f = lemma_earliest(map, save, Coloring::SaveCountries, colors, k);
    assert(earliest_of_owner(map, save, Coloring::SaveCountries, colors, k, f));
    crate::data::save::law_key_at::<Country>(save.countries, id, 0);
    let q = key_at::<Country>(save.countries, id, 0).unwrap();
    let tag = save.countries[q as int].tag;
    crate::map::law_country_color(map.countries, tag, map.countries.len());
    if let Some(c) = country_color_of(map.countries, tag, map.countries.len()) {
        let i = choose|i: int|
            0 <= i < map.countries.len() && (#[trigger] map.countries[i]).name == tag
                && map.countries[i].color == c;
        assert(save.countries[q as int].id == id);
        assert(map.countries[i].name == save.countries[q as int].tag);
    }
}

/// Two province colors of one owner take one base color: every province of a state
/// (or, drawn by countries, of a country) is drawn alike.
pub proof fn law_one_color_per_owner(
    map: GameMapView,
    save: SaveView,
    coloring: Coloring,
    colors: Seq<[u8; 3]>,
    k1: int,
    k2: int,
)
    requires
        0 <= k1 < colors.len(),
        0 <= k2 < colors.len(),
        color_owner(map, save, coloring, colors[k1]@) is Some,
        color_owner(map, save, coloring, colors[k1]@) == color_owner(
            map,
            save,
            coloring,
            colors[k2]@,
        ),
        base_of(map, save, coloring, colors, k1) is Some,
        base_of(map, save, coloring, colors, k2) is Some,
    ensures
        base_of(map, save, coloring, colors, k1) == base_of(map, save, coloring, colors, k2),
{
    let id = color_owner(map, save, coloring, colors[k1]@).unwrap();
    lemma_first_owned_found(map, save, coloring, colors, id, k1 as nat);
    lemma_first_owned_found(map, save, coloring, colors, id, k2 as nat);
    if k1 <= k2 {
        lemma_first_owned_stable(map, save, coloring, colors, id, (k1 + 1) as nat, (k2 + 1) as nat);
    } else {
        lemma_first_owned_stable(map, save, coloring, colors, id, (k2 + 1) as nat, (k1 + 1) as nat);
    }
}

/// The owner id that the coloring looks at, and both ids, of the color `c`, read
/// from the map and the save; `Err` where `c` is no province of the map.
fn owner_of_color(map: &GameMap, save: &Save, coloring: Coloring, c: [u8; 3]) -> (r: Result<
    Option<(usize, (usize, usize))>,
    VicError,
>)
    ensures
        r is Err <==> !map@.provinces.contains_key(pack(c@)),
        r matches Ok(o) ==> match o {
            Some((id, ids)) => color_owner(map@, save@, coloring, c@) == Some(id as nat)
                && color_ids(map@, save@, c@) == Some((ids.0 as nat, ids.1 as nat)),
            None => color_owner(map@, save@, coloring, c@) is None && color_ids(
                map@,
                save@,
                c@,
            ) is None,
        },
{
    match map.to_index(c) {
        None => Err(VicError::MapError(String::from_str("no province index?"))),
        Some(idx) => match save.get_owners(idx) {
            None => Ok(None),
            Some((s, co)) => {
                let id = if coloring == Coloring::SaveCountries {
                    co.id()
                } else {
                    s.id()
                };
                Ok(Some((id, (s.id(), co.id()))))
            },
        },
    }
}

/// The base colors of the province colors `colors` (the colors of the province map,
/// each once, in the order they first appear) under a coloring by owner, each with
/// the state id and country id that own it; `Err` where drawing stops (see
/// `base_of`).
pub fn base_colors(map: &GameMap, save: &Save, coloring: Coloring, colors: &Vec<[u8; 3]>) -> (r:
    Result<Vec<(BaseColor, Option<(usize, usize)>)>, VicError>)
    requires
        coloring == Coloring::StateTemplates || coloring == Coloring::SaveStates || coloring
            == Coloring::SaveCountries,
    ensures
        r is Ok <==> all_based(map@, save@, coloring, colors@, colors@.len() as int),
        r matches Ok(v) ==> v@.len() == colors@.len() && forall|k: int|
            0 <= k < colors@.len() ==> Some((#[trigger] v@[k]).0@) == base_of(
                map@,
                save@,
                coloring,
                colors@,
                k,
            ) && ids_view(v@[k].1) == color_ids(map@, save@, colors@[k]@),
{
    let ghost mv = map@;
    let ghost sv = save@;
    let ghost cs = colors@;
    let mut out: Vec<(BaseColor, Option<(usize, usize)>)> = Vec::new();
    // each owner seen so far, with the index of its first color
    let mut memo: Vec<(usize, usize)> = Vec::new();
    let mut k: usize = 0;
    while k < colors.len()
        invariant
            mv == map@,
            sv == save@,
            cs == colors@,
            coloring == Coloring::StateTemplates || coloring == Coloring::SaveStates || coloring
                == Coloring::SaveCountries,
            k <= cs.len(),
            out@.len() == k,
            all_based(mv, sv, coloring, cs, k as int),
            forall|q: int|
                0 <= q < k ==> Some((#[trigger] out@[q]).0@) == base_of(mv, sv, coloring, cs, q)
                    && ids_view(out@[q].1) == color_ids(mv, sv, cs[q]@),
            forall|m: int|
                0 <= m < memo@.len() ==> first_owned(
                    mv,
                    sv,
                    coloring,
                    cs,
                    (#[trigger] memo@[m]).0 as nat,
                    k as nat,
                ) == Some(memo@[m].1 as nat),
            forall|id: nat|
                #[trigger] first_owned(mv, sv, coloring, cs, id, k as nat) is Some ==> exists|m: int|
                    0 <= m < memo@.len() && memo@[m].0 as nat == id,
        decreases cs.len() - k,
    {
        let c = colors[k];
        let owner = match owner_of_color(map, save, coloring, c) {
            Err(e) => {
                assert(base_of(mv, sv, coloring, cs, k as int) is None);
                return Err(e);
            },
            Ok(o) => o,
        };
        match owner {
            None => {
                proof {
                    assert forall|id: nat|
                        first_owned(mv, sv, coloring, cs, id, (k + 1) as nat) == first_owned(
                            mv,
                            sv,
                            coloring,
                            cs,
                            id,
                            k as nat,
                        ) by {}
                    assert forall|other: nat|
                        #[trigger] first_owned(mv, sv, coloring, cs, other, (k + 1) as nat)
                            is Some implies exists|q: int|
                        0 <= q < memo@.len() && memo@[q].0 as nat == other by {
                        assert(first_owned(mv, sv, coloring, cs, other, k as nat) is Some);
                    }
                }
                out.push((BaseColor::Pixel(c), None));
            },
            Some((id, ids)) => {
                // the first color of this owner
                let mut m: usize = 0;
                let mut found: Option<usize> = None;
                while m < memo.len()
                    invariant
                        m <= memo@.len(),
                        found is None ==> forall|q: int| 0 <= q < m ==> memo@[q].0 != id,
                        found matches Some(f) ==> exists|q: int|
                            0 <= q < memo@.len() && memo@[q] == (id, f),
                    ensures
                        found is None ==> forall|q: int| 0 <= q < memo@.len() ==> memo@[q].0 != id,
                        found matches Some(f) ==> exists|q: int|
                            0 <= q < memo@.len() && memo@[q] == (id, f),
                    decreases memo@.len() - m,
                {
                    if memo[m].0 == id {
                        found = Some(memo[m].1);
                        break;
                    }
                    m = m + 1;
                }
                let ghost memo0 = memo@;
                let first = match found {
                    Some(f) => {
                        proof {
                            lemma_first_owned_bound(mv, sv, coloring, cs, id as nat, k as nat);
                        }
                        f
                    },
                    None => {
                        proof {
                            if first_owned(mv, sv, coloring, cs, id as nat, k as nat) is Some {
                                let q = choose|q: int|
                                    0 <= q < memo@.len() && memo@[q].0 as nat == id as nat;
                                assert(memo@[q].0 != id);
                            }
                        }
                        memo.push((id, k));
                        k
                    },
                };
                proof {
                    lemma_first_owned_bound(mv, sv, coloring, cs, id as nat, k as nat);
                    assert(first_owned(mv, sv, coloring, cs, id as nat, (k + 1) as nat) == Some(
                        first as nat,
                    ));
                    assert forall|other: nat| other != id implies first_owned(
                        mv,
                        sv,
                        coloring,
                        cs,
                        other,
                        (k + 1) as nat,
                    ) == first_owned(mv, sv, coloring, cs, other, k as nat) by {}
                    assert forall|other: nat|
                        #[trigger] first_owned(mv, sv, coloring, cs, other, (k + 1) as nat)
                            is Some implies exists|q: int|
                        0 <= q < memo@.len() && memo@[q].0 as nat == other by {
                        assert(memo0.len() <= memo@.len());
                        assert(forall|q: int| 0 <= q < memo0.len() ==> memo@[q] == memo0[q]);
                        if other == id as nat {
                            if memo@.len() > memo0.len() {
                                assert(memo@[memo@.len() - 1].0 == id);
                            } else {
                                let q = choose|q: int|
                                    0 <= q < memo@.len() && memo@[q] == (id, first);
                                assert(memo@[q].0 as nat == other);
                            }
                        } else {
                            assert(first_owned(mv, sv, coloring, cs, other, k as nat) is Some);
                            let q = choose|q: int|
                                0 <= q < memo0.len() && memo0[q].0 as nat == other;
                            assert(memo@[q].0 as nat == other);
                        }
                    }
                }
                let fc = colors[first];
                let base = if coloring == Coloring::SaveStates {
                    BaseColor::Pixel(fc)
                } else if coloring == Coloring::StateTemplates {
                    match map.get_strat_color(c) {
                        None => {
                            assert(base_of(mv, sv, coloring, cs, k as int) is None);
                            return Err(
                                VicError::MapError(
                                    String::from_str("Couldn't find state template color"),
                                ),
                            );
                        },
                        Some(own) => {
                            if first == k {
                                BaseColor::Spec(own)
                            } else {
                                assert(base_of(mv, sv, coloring, cs, first as int) is Some);
                                match map.get_strat_color(fc) {
                                    Some(s) => BaseColor::Spec(s),
                                    None => {
                                        return Err(
                                            VicError::MapError(
                                                String::from_str(
                                                    "Couldn't find state template color",
                                                ),
                                            ),
                                        );
                                    },
                                }
                            }
                        },
                    }
                } else {
                    match save.get_country(id) {
                        Err(e) => {
                            assert(base_of(mv, sv, coloring, cs, k as int) is None);
                            return Err(e);
                        },
                        Ok(country) => match map.get_country_color(country.tag().as_str()) {
                            Some(s) => BaseColor::Spec(s),
                            None => BaseColor::Pixel(fc),
                        },
                    }
                };
                out.push((base, Some(ids)));
            },
        }
        proof {
            assert(out@[k as int].0@ == base_of(mv, sv, coloring, cs, k as int).unwrap());
        }
        k = k + 1;
    }
    Ok(out)
}

} // verus!
