//! Laying out the state templates before the province map is read: each template
//! is numbered, marked as ocean where it holds a lake or a sea, and given its place in
//! the province numbering, region after region.
use vstd::prelude::*;

use crate::data::map::strategic::{StrategicRegion, StrategicRegionView};
use crate::wrappers::ColorSpec;
use super::index::places_fit;
use super::statetemplates::{template_size, StateTemplate, StateTemplateView};
use super::water::{has_hex, Water, WaterView};

verus! {

broadcast use vstd::string::group_string_axioms;

/// One of the water files lists the hex color `c` as a lake or a sea.
pub open spec fn wet(water: Seq<WaterView>, c: Seq<u8>) -> bool {
    exists|k: int|
        0 <= k < water.len() && (has_hex(water[k].lakes, c) || has_hex(water[k].sea, c))
}

/// One of the provinces of the template is a lake or a sea.
pub open spec fn touches_water(t: StateTemplateView, water: Seq<WaterView>) -> bool {
    match t.provinces {
        Some(ps) => exists|i: int|
            0 <= i < ps.len() && (#[trigger] ps[i]) is Hex && wet(water, ps[i]->Hex_0),
        None => false,
    }
}

/// Template `i` numbered `i` by the game, and marked as ocean where it touches water.
pub open spec fn numbered(t: StateTemplateView, i: nat, water: Seq<WaterView>) -> StateTemplateView {
    StateTemplateView {
        id: Some(
            (
                match t.id {
                    Some(a) => a.0,
                    None => 0,
                },
                i,
            ),
        ),
        ocean: t.ocean || touches_water(t, water),
        ..t
    }
}

pub open spec fn numbered_all(ts: Seq<StateTemplateView>, water: Seq<WaterView>) -> Seq<
    StateTemplateView,
> {
    Seq::new(ts.len(), |i: int| numbered(ts[i], i as nat, water))
}

pub open spec fn regions_numbered(rs: Seq<StrategicRegionView>) -> Seq<StrategicRegionView> {
    Seq::new(rs.len(), |i: int| StrategicRegionView { id: Some(i as nat), ..rs[i] })
}

/// The templates after one region has gone over the first `n` of them: each that the
/// region lists takes the next place, `cur` onwards.
pub open spec fn place_states(members: Seq<Seq<char>>, ts: Seq<StateTemplateView>, n: nat, cur: nat) -> (
    Seq<StateTemplateView>,
    nat,
)
    decreases n,
{
    if n == 0 {
        (ts, cur)
    } else {
        let (t2, c2) = place_states(members, ts, (n - 1) as nat, cur);
        if members.contains(ts[n - 1].name) {
            (
                t2.update(n - 1, StateTemplateView { offset: Some(c2), ..t2[n - 1] }),
                c2 + template_size(ts[n - 1]),
            )
        } else {
            (t2, c2)
        }
    }
}

/// The regions and templates after the first `n` regions have gone over the
/// templates, and the next free place; the places start at 1.
pub open spec fn place_regions(rs: Seq<StrategicRegionView>, ts: Seq<StateTemplateView>, n: nat) -> (
    Seq<StrategicRegionView>,
    Seq<StateTemplateView>,
    nat,
)
    decreases n,
{
    if n == 0 {
        (rs, ts, 1)
    } else {
        let (r2, t2, c) = place_regions(rs, ts, (n - 1) as nat);
        let (t3, c3) = place_states(rs[n - 1].states, t2, t2.len(), c);
        (r2.update(n - 1, StrategicRegionView { offset: Some(c), ..r2[n - 1] }), t3, c3)
    }
}

/// Whether `names` holds `name`.
fn lists(names: &Vec<String>, name: &String) -> (r: bool)
    ensures
        r == names@.map_values(|s: String| s@).contains(name@),
{
    let ghost ns = names@.map_values(|s: String| s@);
    let mut i: usize = 0;
    while i < names.len()
        invariant
            ns == names@.map_values(|s: String| s@),
            i <= names@.len(),
            forall|k: int| 0 <= k < i ==> ns[k] != name@,
        decreases names@.len() - i,
    {
        if names[i] == *name {
            assert(ns[i as int] == name@);
            return true;
        }
        i = i + 1;
    }
    false
}

/// Whether `names` holds `name`.
pub fn lists_pub(names: &Vec<String>, name: &String) -> (r: bool)
    ensures
        r == names@.map_values(|s: String| s@).contains(name@),
{
    lists(names, name)
}

/// Whether one of the water files lists the color `c`.
fn is_wet(water: &Vec<Water>, c: [u8; 3]) -> (r: bool)
    ensures
        r == wet(water@.map_values(|w: Water| w@), c@),
{
    let ghost ws = water@.map_values(|w: Water| w@);
    let mut k: usize = 0;
    while k < water.len()
        invariant
            ws == water@.map_values(|w: Water| w@),
            k <= water@.len(),
            forall|i: int|
                0 <= i < k ==> !(has_hex(ws[i].lakes, c@) || has_hex(ws[i].sea, c@)),
        decreases water@.len() - k,
    {
        if water[k].has(c) {
            assert(has_hex(ws[k as int].lakes, c@) || has_hex(ws[k as int].sea, c@));
            return true;
        }
        k = k + 1;
    }
    false
}

/// Whether one of the provinces of the template is a lake or a sea.
fn touches(t: &StateTemplate, water: &Vec<Water>) -> (r: bool)
    ensures
        r == touches_water(t@, water@.map_values(|w: Water| w@)),
{
    let ghost ws = water@.map_values(|w: Water| w@);
    match t.provinces() {
        Some(ps) => {
            let ghost pv = ps@.map_values(|c: ColorSpec| c@);
            assert(t@.provinces == Some(pv));
            let mut i: usize = 0;
            while i < ps.len()
                invariant
                    ws == water@.map_values(|w: Water| w@),
                    pv == ps@.map_values(|c: ColorSpec| c@),
                    t@.provinces == Some(pv),
                    i <= ps@.len(),
                    forall|k: int| 0 <= k < i ==> !((#[trigger] pv[k]) is Hex && wet(ws, pv[k]->Hex_0)),
                decreases ps@.len() - i,
            {
                match &ps[i] {
                    ColorSpec::Hex(w) => {
                        let c = w.unravel();
                        if is_wet(water, c) {
                            assert(pv[i as int] is Hex && wet(ws, pv[i as int]->Hex_0));
                            assert(t@.provinces.unwrap()[i as int] == pv[i as int]);
                            return true;
                        }
                    },
                    _ => {},
                }
                i = i + 1;
            }
            false
        },
        None => false,
    }
}

/// Numbers the templates and the regions as the game does, and marks the templates
/// that touch water as ocean.
pub fn number_all(regions: &mut Vec<StrategicRegion>, states: &mut Vec<StateTemplate>, water: &Vec<Water>)
    ensures
        final(states)@.map_values(|t: StateTemplate| t@) == numbered_all(
            old(states)@.map_values(|t: StateTemplate| t@),
            water@.map_values(|w: Water| w@),
        ),
        final(regions)@.map_values(|r: StrategicRegion| r@) == regions_numbered(
            old(regions)@.map_values(|r: StrategicRegion| r@),
        ),
{
    let ghost ts0 = states@.map_values(|t: StateTemplate| t@);
    let ghost ws = water@.map_values(|w: Water| w@);
    let mut i: usize = 0;
    while i < states.len()
        invariant
            ws == water@.map_values(|w: Water| w@),
            states@.len() == ts0.len(),
            i <= states@.len(),
            forall|k: int| 0 <= k < i ==> #[trigger] states@[k]@ == numbered(ts0[k], k as nat, ws),
            forall|k: int| i <= k < states@.len() ==> #[trigger] states@[k]@ == ts0[k],
        decreases states@.len() - i,
    {
        let mut t = states.remove(i);
        t.set_id(i);
        if touches(&t, water) {
            t.set_ocean(true);
        }
        states.insert(i, t);
        i = i + 1;
    }
    assert(states@.map_values(|t: StateTemplate| t@) =~= numbered_all(ts0, ws));
    let ghost rs0 = regions@.map_values(|r: StrategicRegion| r@);
    let mut i: usize = 0;
    while i < regions.len()
        invariant
            regions@.len() == rs0.len(),
            i <= regions@.len(),
            forall|k: int|
                0 <= k < i ==> #[trigger] regions@[k]@ == (StrategicRegionView {
                    id: Some(k as nat),
                    ..rs0[k]
                }),
            forall|k: int| i <= k < regions@.len() ==> #[trigger] regions@[k]@ == rs0[k],
        decreases regions@.len() - i,
    {
        let mut r = regions.remove(i);
        r.set_id(i);
        regions.insert(i, r);
        i = i + 1;
    }
    assert(regions@.map_values(|r: StrategicRegion| r@) =~= regions_numbered(rs0));
}

/// Gives each region, and each template that the region lists, its place in the
/// province numbering; returns the next free place.
pub fn place_all(regions: &mut Vec<StrategicRegion>, states: &mut Vec<StateTemplate>) -> (cur: usize)
    requires
        place_regions(
            old(regions)@.map_values(|r: StrategicRegion| r@),
            old(states)@.map_values(|t: StateTemplate| t@),
            old(regions)@.len(),
        ).2 <= usize::MAX,
    ensures
        ({
            let p = place_regions(
                old(regions)@.map_values(|r: StrategicRegion| r@),
                old(states)@.map_values(|t: StateTemplate| t@),
                old(regions)@.len(),
            );
            &&& final(regions)@.map_values(|r: StrategicRegion| r@) == p.0
            &&& final(states)@.map_values(|t: StateTemplate| t@) == p.1
            &&& cur as nat == p.2
        }),
{
    let ghost rs0 = regions@.map_values(|r: StrategicRegion| r@);
    let ghost ts0 = states@.map_values(|t: StateTemplate| t@);
    let ghost total = old(regions)@.len();
    let mut cur: usize = 1;
    let mut ri: usize = 0;
    while ri < regions.len()
        invariant
            regions@.len() == total,
            rs0.len() == total,
            ri <= total,
            place_regions(rs0, ts0, total as nat).2 <= usize::MAX,
            ({
                let p = place_regions(rs0, ts0, ri as nat);
                &&& regions@.map_values(|r: StrategicRegion| r@) == p.0
                &&& states@.map_values(|t: StateTemplate| t@) == p.1
                &&& cur as nat == p.2
            }),
        decreases total - ri,
    {
        proof {
            lemma_place_regions_grows(rs0, ts0, (ri + 1) as nat, total as nat);
        }
        let ghost rv = regions@.map_values(|r: StrategicRegion| r@);
        let ghost tv = states@.map_values(|t: StateTemplate| t@);
        let ghost c0 = cur;
        let mut r = regions.remove(ri);
        r.set_offset(cur);
        let members = r.states();
        assert(members@.map_values(|s: String| s@) == rs0[ri as int].states) by {
            lemma_place_regions_members(rs0, ts0, ri as nat);
        }
        let mut sj: usize = 0;
        while sj < states.len()
            invariant
                states@.len() == tv.len(),
                sj <= states@.len(),
                members@.map_values(|s: String| s@) == rs0[ri as int].states,
                place_states(rs0[ri as int].states, tv, tv.len(), c0 as nat).1 <= usize::MAX,
                ({
                    let q = place_states(rs0[ri as int].states, tv, sj as nat, c0 as nat);
                    &&& states@.map_values(|t: StateTemplate| t@) == q.0
                    &&& cur as nat == q.1
                }),
            decreases states@.len() - sj,
        {
            proof {
                lemma_place_states_grows(rs0[ri as int].states, tv, (sj + 1) as nat, tv.len(), c0 as nat);
                lemma_place_states_keeps(rs0[ri as int].states, tv, sj as nat, c0 as nat);
            }
            let ghost before = states@.map_values(|t: StateTemplate| t@);
            if lists(members, states[sj].name()) {
                let mut t = states.remove(sj);
                t.set_offset(cur);
                let sz = t.size();
                states.insert(sj, t);
                assert(states@.map_values(|t: StateTemplate| t@) =~= before.update(
                    sj as int,
                    StateTemplateView { offset: Some(cur as nat), ..before[sj as int] },
                ));
                cur = cur + sz;
            }
            sj = sj + 1;
        }
        regions.insert(ri, r);
        assert(regions@.map_values(|r: StrategicRegion| r@) =~= rv.update(
            ri as int,
            StrategicRegionView { offset: Some(c0 as nat), ..rv[ri as int] },
        ));
        ri = ri + 1;
    }
    cur
}

/// The places handed out only grow.
proof fn lemma_place_states_grows(members: Seq<Seq<char>>, ts: Seq<StateTemplateView>, n: nat, m: nat, cur: nat)
    requires
        n <= m <= ts.len(),
    ensures
        cur <= place_states(members, ts, n, cur).1 <= place_states(members, ts, m, cur).1,
    decreases m,
{
    if m > n {
        lemma_place_states_grows(members, ts, n, (m - 1) as nat, cur);
    } else if n > 0 {
        lemma_place_states_grows(members, ts, (n - 1) as nat, (n - 1) as nat, cur);
    }
}

/// Going over templates changes only their places: names, provinces and lengths stay.
proof fn lemma_place_states_keeps(members: Seq<Seq<char>>, ts: Seq<StateTemplateView>, n: nat, cur: nat)
    requires
        n <= ts.len(),
    ensures
        place_states(members, ts, n, cur).0.len() == ts.len(),
        forall|k: int|
            0 <= k < ts.len() ==> (#[trigger] place_states(members, ts, n, cur).0[k]).name
                == ts[k].name && place_states(members, ts, n, cur).0[k].provinces
                == ts[k].provinces,
        forall|k: int|
            n <= k < ts.len() ==> #[trigger] place_states(members, ts, n, cur).0[k] == ts[k],
    decreases n,
{
    if n > 0 {
        lemma_place_states_keeps(members, ts, (n - 1) as nat, cur);
    }
}

proof fn lemma_place_regions_grows(rs: Seq<StrategicRegionView>, ts: Seq<StateTemplateView>, n: nat, m: nat)
    requires
        n <= m <= rs.len(),
    ensures
        place_regions(rs, ts, n).2 <= place_regions(rs, ts, m).2,
        1 <= place_regions(rs, ts, n).2,
    decreases m,
{
    if m > n {
        lemma_place_regions_grows(rs, ts, n, (m - 1) as nat);
        let p = place_regions(rs, ts, (m - 1) as nat);
        lemma_place_regions_members(rs, ts, (m - 1) as nat);
        lemma_place_states_grows(rs[m - 1].states, p.1, p.1.len(), p.1.len(), p.2);
    } else if n > 0 {
        lemma_place_regions_grows(rs, ts, (n - 1) as nat, (n - 1) as nat);
        let p = place_regions(rs, ts, (n - 1) as nat);
        lemma_place_states_grows(rs[n - 1].states, p.1, p.1.len(), p.1.len(), p.2);
    }
}

/// Going over the templates leaves the regions' lists of states as they were, and
/// the templates' names, provinces and number.
proof fn lemma_place_regions_members(rs: Seq<StrategicRegionView>, ts: Seq<StateTemplateView>, n: nat)
    requires
        n <= rs.len(),
    ensures
        place_regions(rs, ts, n).0.len() == rs.len(),
        place_regions(rs, ts, n).1.len() == ts.len(),
        forall|k: int|
            0 <= k < rs.len() ==> (#[trigger] place_regions(rs, ts, n).0[k]).states
                == rs[k].states && place_regions(rs, ts, n).0[k].name == rs[k].name,
        forall|k: int|
            n <= k < rs.len() ==> #[trigger] place_regions(rs, ts, n).0[k] == rs[k],
        forall|k: int|
            0 <= k < ts.len() ==> (#[trigger] place_regions(rs, ts, n).1[k]).name == ts[k].name
                && place_regions(rs, ts, n).1[k].provinces == ts[k].provinces,
    decreases n,
{
    if n > 0 {
        lemma_place_regions_members(rs, ts, (n - 1) as nat);
        let p = place_regions(rs, ts, (n - 1) as nat);
        lemma_place_states_keeps(rs[n - 1].states, p.1, p.1.len(), p.2);
    }
}

/// The number of provinces of all templates.
pub open spec fn sizes_total(ts: Seq<StateTemplateView>) -> nat
    decreases ts.len(),
{
    if ts.len() == 0 {
        0
    } else {
        sizes_total(ts.drop_last()) + template_size(ts.last())
    }
}

/// Templates with the same provinces have the same number of provinces in all.
pub proof fn lemma_sizes_total_same(a: Seq<StateTemplateView>, b: Seq<StateTemplateView>)
    requires
        a.len() == b.len(),
        forall|k: int| 0 <= k < a.len() ==> #[trigger] a[k].provinces == b[k].provinces,
    ensures
        sizes_total(a) == sizes_total(b),
    decreases a.len(),
{
    if a.len() > 0 {
        lemma_sizes_total_same(a.drop_last(), b.drop_last());
    }
}

/// The number of provinces of all templates, where it fits a `usize`.
pub fn count_provinces(states: &Vec<StateTemplate>) -> (r: Option<usize>)
    ensures
        r matches Some(n) ==> n as nat == sizes_total(states@.map_values(|t: StateTemplate| t@)),
        r is None ==> sizes_total(states@.map_values(|t: StateTemplate| t@)) > usize::MAX,
{
    let ghost ts = states@.map_values(|t: StateTemplate| t@);
    let mut acc: usize = 0;
    let mut i: usize = 0;
    while i < states.len()
        invariant
            ts == states@.map_values(|t: StateTemplate| t@),
            i <= states@.len(),
            acc as nat == sizes_total(ts.take(i as int)),
        decreases states@.len() - i,
    {
        assert(ts.take(i + 1).drop_last() =~= ts.take(i as int));
        match acc.checked_add(states[i].size()) {
            Some(a) => acc = a,
            None => {
                proof {
                    lemma_sizes_total_prefix(ts, i + 1);
                }
                return None;
            },
        }
        i = i + 1;
    }
    assert(ts.take(i as int) =~= ts);
    Some(acc)
}

/// A longer prefix has no fewer provinces.
proof fn lemma_sizes_total_prefix(ts: Seq<StateTemplateView>, n: int)
    requires
        0 <= n <= ts.len(),
    ensures
        sizes_total(ts.take(n)) <= sizes_total(ts),
    decreases ts.len() - n,
{
    if n < ts.len() {
        lemma_sizes_total_prefix(ts, n + 1);
        assert(ts.take(n + 1).drop_last() =~= ts.take(n));
    } else {
        assert(ts.take(n) =~= ts);
    }
}

/// The next free place after all regions, where it fits a `usize`.
pub fn places_end(regions: &Vec<StrategicRegion>, states: &Vec<StateTemplate>) -> (r: Option<usize>)
    ensures
        ({
            let p = place_regions(
                regions@.map_values(|r: StrategicRegion| r@),
                states@.map_values(|t: StateTemplate| t@),
                regions@.len(),
            );
            &&& r matches Some(n) ==> n as nat == p.2
            &&& r is None ==> p.2 > usize::MAX
        }),
{
    let ghost rs = regions@.map_values(|r: StrategicRegion| r@);
    let ghost ts = states@.map_values(|t: StateTemplate| t@);
    let mut cur: usize = 1;
    let mut ri: usize = 0;
    while ri < regions.len()
        invariant
            rs == regions@.map_values(|r: StrategicRegion| r@),
            ts == states@.map_values(|t: StateTemplate| t@),
            ri <= regions@.len(),
            cur as nat == place_regions(rs, ts, ri as nat).2,
        decreases regions@.len() - ri,
    {
        proof {
            lemma_place_regions_members(rs, ts, ri as nat);
        }
        let ghost tv = place_regions(rs, ts, ri as nat).1;
        let ghost c0 = cur as nat;
        let members = regions[ri].states();
        let mut sj: usize = 0;
        while sj < states.len()
            invariant
                rs == regions@.map_values(|r: StrategicRegion| r@),
                ts == states@.map_values(|t: StateTemplate| t@),
                ri < regions@.len(),
                tv == place_regions(rs, ts, ri as nat).1,
                c0 == place_regions(rs, ts, ri as nat).2,
                tv.len() == ts.len(),
                forall|k: int|
                    0 <= k < ts.len() ==> (#[trigger] tv[k]).name == ts[k].name && tv[k].provinces
                        == ts[k].provinces,
                members@.map_values(|s: String| s@) == rs[ri as int].states,
                sj <= states@.len(),
                cur as nat == place_states(rs[ri as int].states, tv, sj as nat, c0).1,
            decreases states@.len() - sj,
        {
            proof {
                lemma_place_states_keeps(rs[ri as int].states, tv, sj as nat, c0);
            }
            if lists(members, states[sj].name()) {
                match cur.checked_add(states[sj].size()) {
                    Some(c) => cur = c,
                    None => {
                        proof {
                            assert(tv[sj as int].name == ts[sj as int].name);
                            assert(template_size(tv[sj as int]) == template_size(ts[sj as int]));
                            assert(place_states(rs[ri as int].states, tv, (sj + 1) as nat, c0).1 > usize::MAX);
                            lemma_place_states_grows(rs[ri as int].states, tv, (sj + 1) as nat, tv.len(), c0);
                            assert(place_regions(rs, ts, (ri + 1) as nat).2 == place_states(rs[ri as int].states, tv, tv.len(), c0).1);
                            lemma_place_regions_grows(rs, ts, (ri + 1) as nat, rs.len());
                        }
                        return None;
                    },
                }
            }
            sj = sj + 1;
        }
        ri = ri + 1;
    }
    Some(cur)
}

/// Places handed out region by region start at 1, end by the next free place, and
/// never overlap, where no template had a place before.
pub proof fn lemma_places_fit(rs: Seq<StrategicRegionView>, ts: Seq<StateTemplateView>, n: nat)
    requires
        n <= rs.len(),
        forall|k: int| 0 <= k < ts.len() ==> (#[trigger] ts[k]).offset is None,
    ensures
        places_fit(place_regions(rs, ts, n).1, place_regions(rs, ts, n).2),
    decreases n,
{
    lemma_place_regions_grows(rs, ts, n, n);
    if n > 0 {
        let m = (n - 1) as nat;
        lemma_places_fit(rs, ts, m);
        lemma_place_regions_grows(rs, ts, m, m);
        lemma_place_regions_members(rs, ts, m);
        let p = place_regions(rs, ts, m);
        lemma_place_states_fit(rs[m as int].states, p.1, p.1.len(), p.2);
    }
}

proof fn lemma_place_states_fit(members: Seq<Seq<char>>, ts: Seq<StateTemplateView>, n: nat, cur: nat)
    requires
        n <= ts.len(),
        1 <= cur,
        places_fit(ts, cur),
    ensures
        places_fit(place_states(members, ts, n, cur).0, place_states(members, ts, n, cur).1),
    decreases n,
{
    if n > 0 {
        let m = (n - 1) as nat;
        lemma_place_states_fit(members, ts, m, cur);
        lemma_place_states_keeps(members, ts, m, cur);
        lemma_place_states_grows(members, ts, m, m, cur);
        let (t2, c2) = place_states(members, ts, m, cur);
        if members.contains(ts[n - 1].name) {
            let t3 = t2.update(n - 1, StateTemplateView { offset: Some(c2), ..t2[n - 1] });
            let c3 = c2 + template_size(ts[n - 1]);
            assert(template_size(t2[n - 1]) == template_size(ts[n - 1]));
            assert forall|j: int|
                0 <= j < t3.len() && #[trigger] t3[j].offset is Some implies 1 <= t3[j].offset.unwrap()
                    && t3[j].offset.unwrap() + template_size(t3[j]) <= c3 by {
                if j != n - 1 {
                    assert(t2[j].offset is Some);
                }
            }
            assert forall|j: int, k: int|
                0 <= j < t3.len() && 0 <= k < t3.len() && j != k && #[trigger] t3[j].offset is Some
                    && #[trigger] t3[k].offset is Some implies t3[j].offset.unwrap() + template_size(
                    t3[j],
                ) <= t3[k].offset.unwrap() || t3[k].offset.unwrap() + template_size(t3[k])
                <= t3[j].offset.unwrap() by {
                if j != n - 1 {
                    assert(t2[j].offset is Some);
                }
                if k != n - 1 {
                    assert(t2[k].offset is Some);
                }
            }
        }
    }
}

/// The regions going over the templates keep the templates' provinces and number.
pub proof fn lemma_place_regions_members_pub(rs: Seq<StrategicRegionView>, ts: Seq<StateTemplateView>, n: nat)
    requires
        n <= rs.len(),
    ensures
        place_regions(rs, ts, n).1.len() == ts.len(),
        forall|k: int|
            0 <= k < ts.len() ==> (#[trigger] place_regions(rs, ts, n).1[k]).provinces
                == ts[k].provinces,
{
    lemma_place_regions_members(rs, ts, n);
}

} // verus!
