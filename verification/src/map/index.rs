//! Numbering the provinces of the map: each color of the province map gets a slot,
//! within the slots of the first state template that lists it, or after all of them.
use vstd::prelude::*;

use std::collections::HashMap;

use super::statetemplates::{template_contains, template_size, StateTemplate, StateTemplateView};

verus! {

broadcast use vstd::std_specs::hash::group_hash_axioms;

/// The slots of the numbering, each with the color that took it and its pixel count,
/// and the slot of each color, keyed by the packed color.
pub ghost struct IndexView {
    pub slots: Seq<(Option<Seq<u8>>, nat)>,
    pub keys: Map<u32, nat>,
}

/// The slot of each key, as numbers.
pub open spec fn keys_view(m: Map<u32, usize>) -> Map<u32, nat> {
    Map::new(|k: u32| m.contains_key(k), |k: u32| m[k] as nat)
}

pub open spec fn opt_rgb(o: Option<[u8; 3]>) -> Option<Seq<u8>> {
    match o {
        Some(a) => Some(a@),
        None => None,
    }
}

pub open spec fn slots_view(v: Seq<(Option<[u8; 3]>, usize)>) -> Seq<(Option<Seq<u8>>, nat)> {
    v.map_values(|x: (Option<[u8; 3]>, usize)| (opt_rgb(x.0), x.1 as nat))
}

/// The key of a color: its channels as one number.
pub open spec fn pack(c: Seq<u8>) -> u32 {
    (c[0] as int * 65536 + c[1] as int * 256 + c[2] as int) as u32
}

/// The first of the first `n` templates that lists `c` and has its place in the numbering.
pub open spec fn home_in(ts: Seq<StateTemplateView>, c: Seq<u8>, n: nat) -> Option<int>
    decreases n,
{
    if n == 0 {
        None
    } else {
        match home_in(ts, c, (n - 1) as nat) {
            Some(j) => Some(j),
            None => if template_contains(ts[n - 1], c) && ts[n - 1].offset is Some {
                Some(n - 1)
            } else {
                None
            },
        }
    }
}

/// The home of a province color is the first template that lists it and has its
/// place in the numbering, and there is none where no such template exists.
pub proof fn law_home_in(ts: Seq<StateTemplateView>, c: Seq<u8>, n: nat)
    requires
        n <= ts.len(),
    ensures
        home_in(ts, c, n) matches Some(j) ==> 0 <= j < n && template_contains(ts[j], c) && ts[j].offset
            is Some && forall|m: int|
            0 <= m < j ==> !(template_contains(#[trigger] ts[m], c) && ts[m].offset is Some),
        home_in(ts, c, n) is None ==> forall|m: int|
            0 <= m < n ==> !(template_contains(#[trigger] ts[m], c) && ts[m].offset is Some),
    decreases n,
{
    if n > 0 {
        law_home_in(ts, c, (n - 1) as nat);
    }
}

/// The first template that lists `c` and has its place in the numbering.
pub open spec fn home(ts: Seq<StateTemplateView>, c: Seq<u8>) -> Option<int> {
    home_in(ts, c, ts.len())
}

/// The first slot of `slots[lo..hi]` that no color has taken.
pub open spec fn free_slot(slots: Seq<(Option<Seq<u8>>, nat)>, lo: int, hi: int) -> Option<int>
    decreases hi - lo,
{
    if lo >= hi {
        None
    } else if slots[lo].0 is None {
        Some(lo)
    } else {
        free_slot(slots, lo + 1, hi)
    }
}

/// One pixel of color `c` counted: a color seen before adds to its slot; a new color
/// takes the first free slot of its template, or, without a template, a new slot at
/// the end.
pub open spec fn index_step(ix: IndexView, ts: Seq<StateTemplateView>, c: Seq<u8>) -> IndexView {
    let key = pack(c);
    if ix.keys.contains_key(key) {
        let v = ix.keys[key] as int;
        IndexView { slots: ix.slots.update(v, (ix.slots[v].0, ix.slots[v].1 + 1)), keys: ix.keys }
    } else {
        match home(ts, c) {
            Some(j) => {
                let lo = ts[j].offset.unwrap() as int;
                match free_slot(ix.slots, lo, lo + template_size(ts[j])) {
                    Some(i) => IndexView {
                        slots: ix.slots.update(i, (Some(c), ix.slots[i].1 + 1)),
                        keys: ix.keys.insert(key, i as nat),
                    },
                    None => ix,
                }
            },
            None => IndexView {
                slots: ix.slots.push((Some(c), 1)),
                keys: ix.keys.insert(key, ix.slots.len()),
            },
        }
    }
}

pub open spec fn empty_index(base: nat) -> IndexView {
    IndexView { slots: Seq::new(base, |i: int| (None, 0nat)), keys: Map::empty() }
}

/// The numbering after the first `n` pixels, starting from `base` free slots.
pub open spec fn index_run(
    ts: Seq<StateTemplateView>,
    pixels: Seq<Seq<u8>>,
    base: nat,
    n: nat,
) -> IndexView
    decreases n,
{
    if n == 0 {
        empty_index(base)
    } else {
        index_step(index_run(ts, pixels, base, (n - 1) as nat), ts, pixels[n - 1])
    }
}

/// The place of each template lies within the first `base` slots, past slot 0, and
/// no two places overlap.
pub open spec fn places_fit(ts: Seq<StateTemplateView>, base: nat) -> bool {
    &&& forall|j: int|
        0 <= j < ts.len() && #[trigger] ts[j].offset is Some ==> 1 <= ts[j].offset.unwrap()
            && ts[j].offset.unwrap() + template_size(ts[j]) <= base
    &&& forall|j: int, k: int|
        0 <= j < ts.len() && 0 <= k < ts.len() && j != k && #[trigger] ts[j].offset is Some
            && #[trigger] ts[k].offset is Some ==> ts[j].offset.unwrap() + template_size(ts[j])
            <= ts[k].offset.unwrap() || ts[k].offset.unwrap() + template_size(ts[k])
            <= ts[j].offset.unwrap()
}

/// The numbering is within bounds: there are at least `base` slots and at most one
/// more per pixel, every key leads to a slot of its color, and no count exceeds `n`.
pub open spec fn index_bounds(ix: IndexView, base: nat, n: nat) -> bool {
    &&& base <= ix.slots.len() <= base + n
    &&& forall|k: u32| #[trigger]
        ix.keys.contains_key(k) ==> (ix.keys[k] as int) < ix.slots.len()
    &&& forall|i: int| 0 <= i < ix.slots.len() ==> #[trigger] ix.slots[i].1 <= n
}

pub proof fn lemma_index_bounds(ts: Seq<StateTemplateView>, pixels: Seq<Seq<u8>>, base: nat, n: nat)
    requires
        n <= pixels.len(),
        places_fit(ts, base),
    ensures
        index_bounds(index_run(ts, pixels, base, n), base, n),
    decreases n,
{
    if n > 0 {
        let m = (n - 1) as nat;
        lemma_index_bounds(ts, pixels, base, m);
        let ix = index_run(ts, pixels, base, m);
        let c = pixels[m as int];
        let nx = index_run(ts, pixels, base, n);
        assert(nx == index_step(ix, ts, c));
        if !ix.keys.contains_key(pack(c)) {
            if let Some(j) = home(ts, c) {
                lemma_home_in(ts, c, ts.len());
                let lo = ts[j].offset.unwrap() as int;
                lemma_free_slot(ix.slots, lo, lo + template_size(ts[j]));
            }
        }
        assert forall|i: int| 0 <= i < nx.slots.len() implies #[trigger] nx.slots[i].1 <= n by {
            if i < ix.slots.len() {
                assert(ix.slots[i].1 <= m);
            }
        }
    }
}

/// The home of a color is a template that lists it and has a place.
pub proof fn lemma_home_in(ts: Seq<StateTemplateView>, c: Seq<u8>, n: nat)
    requires
        n <= ts.len(),
    ensures
        home_in(ts, c, n) matches Some(j) ==> 0 <= j < n && template_contains(ts[j], c)
            && ts[j].offset is Some && forall|k: int|
            0 <= k < j ==> !(template_contains(ts[k], c) && #[trigger] ts[k].offset is Some),
        home_in(ts, c, n) is None ==> forall|k: int|
            0 <= k < n ==> !(template_contains(ts[k], c) && #[trigger] ts[k].offset is Some),
    decreases n,
{
    if n > 0 {
        lemma_home_in(ts, c, (n - 1) as nat);
    }
}

/// A free slot lies within its bounds; where there is none, every slot there is taken.
pub proof fn lemma_free_slot(slots: Seq<(Option<Seq<u8>>, nat)>, lo: int, hi: int)
    ensures
        free_slot(slots, lo, hi) matches Some(i) ==> lo <= i < hi && slots[i].0 is None
            && forall|k: int| lo <= k < i ==> #[trigger] slots[k].0 is Some,
        free_slot(slots, lo, hi) is None ==> forall|k: int|
            lo <= k < hi ==> #[trigger] slots[k].0 is Some,
    decreases hi - lo,
{
    if lo < hi {
        lemma_free_slot(slots, lo + 1, hi);
    }
}

/// How many of the first `n` pixels have color `c`.
pub open spec fn count_of(pixels: Seq<Seq<u8>>, c: Seq<u8>, n: nat) -> nat
    decreases n,
{
    if n == 0 {
        0
    } else {
        count_of(pixels, c, (n - 1) as nat) + if pixels[n - 1] == c {
            1nat
        } else {
            0nat
        }
    }
}

/// The pixels counted in the slots.
pub open spec fn slot_total(slots: Seq<(Option<Seq<u8>>, nat)>) -> nat
    decreases slots.len(),
{
    if slots.len() == 0 {
        0
    } else {
        slot_total(slots.drop_last()) + slots.last().1
    }
}

/// Slot `i` of color `c` lies in the place of the home of `c`, or past the places
/// where `c` has no home.
pub open spec fn in_place(ts: Seq<StateTemplateView>, c: Seq<u8>, i: int, base: nat) -> bool {
    match home(ts, c) {
        Some(j) => ts[j].offset.unwrap() <= i < ts[j].offset.unwrap() + template_size(ts[j]),
        None => base <= i,
    }
}

pub open spec fn is_rgb(c: Seq<u8>) -> bool {
    c.len() == 3
}

/// The numbering after `n` pixels is consistent: keys and slots point at each other,
/// free slots are empty and lie among the places, each taken slot lies in the place of
/// its color and counts the pixels of that color, and every pixel seen has a key.
pub open spec fn index_wf(
    ix: IndexView,
    ts: Seq<StateTemplateView>,
    pixels: Seq<Seq<u8>>,
    base: nat,
    n: nat,
) -> bool {
    &&& base <= ix.slots.len()
    &&& forall|k: u32| #[trigger]
        ix.keys.contains_key(k) ==> {
            &&& (ix.keys[k] as int) < ix.slots.len()
            &&& ix.slots[ix.keys[k] as int].0 is Some
            &&& pack(ix.slots[ix.keys[k] as int].0.unwrap()) == k
        }
    &&& forall|i: int|
        0 <= i < ix.slots.len() && (#[trigger] ix.slots[i]).0 is Some ==> {
            let c = ix.slots[i].0.unwrap();
            &&& is_rgb(c)
            &&& ix.keys.contains_key(pack(c))
            &&& ix.keys[pack(c)] as int == i
            &&& in_place(ts, c, i, base)
            &&& ix.slots[i].1 == count_of(pixels, c, n)
        }
    &&& forall|i: int|
        0 <= i < ix.slots.len() && (#[trigger] ix.slots[i]).0 is None ==> ix.slots[i].1 == 0 && i
            < base
    &&& forall|m: int| 0 <= m < n ==> #[trigger] ix.keys.contains_key(pack(pixels[m]))
    &&& slot_total(ix.slots) == n
}

/// Two colors with one key are one color.
pub proof fn lemma_pack(c: Seq<u8>, d: Seq<u8>)
    requires
        is_rgb(c),
        is_rgb(d),
        pack(c) == pack(d),
    ensures
        c == d,
{
    let (c0, c1, c2, d0, d1, d2) = (c[0], c[1], c[2], d[0], d[1], d[2]);
    assert(c0 == d0 && c1 == d1 && c2 == d2) by (bit_vector)
        requires
            (c0 as u32) * 65536 + (c1 as u32) * 256 + (c2 as u32) == (d0 as u32) * 65536 + (
            d1 as u32) * 256 + (d2 as u32),
    ;
    assert(c =~= d);
}

proof fn lemma_slot_total_update(s: Seq<(Option<Seq<u8>>, nat)>, i: int, x: (Option<Seq<u8>>, nat))
    requires
        0 <= i < s.len(),
    ensures
        slot_total(s.update(i, x)) == slot_total(s) - s[i].1 + x.1,
    decreases s.len(),
{
    if i < s.len() - 1 {
        lemma_slot_total_update(s.drop_last(), i, x);
        assert(s.update(i, x).drop_last() =~= s.drop_last().update(i, x));
    } else {
        assert(s.update(i, x).drop_last() =~= s.drop_last());
    }
}

proof fn lemma_slot_total_empty(n: nat)
    ensures
        slot_total(Seq::new(n, |i: int| (None::<Seq<u8>>, 0nat))) == 0,
    decreases n,
{
    if n > 0 {
        lemma_slot_total_empty((n - 1) as nat);
        assert(Seq::new(n, |i: int| (None::<Seq<u8>>, 0nat)).drop_last() =~= Seq::new(
            (n - 1) as nat,
            |i: int| (None::<Seq<u8>>, 0nat),
        ));
    }
}

/// A color met for the first time finds a free slot in the place of its home: the
/// taken slots there hold distinct colors that the template lists, and the template
/// lists no more colors than it has provinces.
proof fn lemma_room(
    ix: IndexView,
    ts: Seq<StateTemplateView>,
    pixels: Seq<Seq<u8>>,
    base: nat,
    n: nat,
    c: Seq<u8>,
    j: int,
)
    requires
        index_wf(ix, ts, pixels, base, n),
        places_fit(ts, base),
        is_rgb(c),
        home(ts, c) == Some(j),
        !ix.keys.contains_key(pack(c)),
    ensures
        free_slot(
            ix.slots,
            ts[j].offset.unwrap() as int,
            (ts[j].offset.unwrap() + template_size(ts[j])) as int,
        ) is Some,
{
    lemma_home_in(ts, c, ts.len());
    let o = ts[j].offset.unwrap() as int;
    let sz = template_size(ts[j]);
    lemma_free_slot(ix.slots, o, o + sz);
    if free_slot(ix.slots, o, o + sz) is None {
        let ps = ts[j].provinces.unwrap();
        let cs = Seq::new(sz, |k: int| ix.slots[o + k].0.unwrap());
        assert forall|k: int| 0 <= k < sz implies template_contains(ts[j], #[trigger] cs[k]) by {
            assert(ix.slots[o + k].0 is Some);
            let d = cs[k];
            assert(in_place(ts, d, o + k, base));
            lemma_home_in(ts, d, ts.len());
            match home(ts, d) {
                Some(jj) => {
                    if jj != j {
                        assert(ts[jj].offset is Some);
                        assert(ts[j].offset is Some);
                    }
                },
                None => {
                    assert(ts[j].offset is Some);
                },
            }
        }
        let all = cs.push(c);
        assert(all.no_duplicates()) by {
            assert forall|a: int, b: int| 0 <= a < all.len() && 0 <= b < all.len() && a != b
                implies all[a] != all[b] by {
                if a < sz {
                    assert(ix.slots[o + a].0 is Some);
                }
                if b < sz {
                    assert(ix.slots[o + b].0 is Some);
                }
            }
        }
        let hexes = ps.map_values(|x: crate::wrappers::ColorSpecView| hex_of(x));
        assert(all.to_set().subset_of(hexes.to_set())) by {
            assert forall|e: Seq<u8>| all.to_set().contains(e) implies hexes.to_set().contains(e) by {
                let k = choose|k: int| 0 <= k < all.len() && all[k] == e;
                if k < sz {
                    assert(template_contains(ts[j], cs[k]));
                }
                assert(template_contains(ts[j], e));
                let idx = choose|idx: int| 0 <= idx < ps.len() && #[trigger] super::water::is_hex(ps[idx], e);
                assert(hexes[idx] == e);
            }
        }
        all.unique_seq_to_set();
        hexes.lemma_cardinality_of_set();
        vstd::set_lib::lemma_len_subset(all.to_set(), hexes.to_set());
        assert(false);
    }
}

/// The channels of a hex color; nothing for other colors.
pub open spec fn hex_of(x: crate::wrappers::ColorSpecView) -> Seq<u8> {
    match x {
        crate::wrappers::ColorSpecView::Hex(r) => r,
        _ => Seq::empty(),
    }
}

/// The numbering stays consistent pixel after pixel.
pub proof fn lemma_index_wf(ts: Seq<StateTemplateView>, pixels: Seq<Seq<u8>>, base: nat, n: nat)
    requires
        n <= pixels.len(),
        places_fit(ts, base),
        forall|m: int| 0 <= m < pixels.len() ==> #[trigger] is_rgb(pixels[m]),
    ensures
        index_wf(index_run(ts, pixels, base, n), ts, pixels, base, n),
    decreases n,
{
    if n == 0 {
        lemma_slot_total_empty(base);
    } else {
        let m = (n - 1) as nat;
        lemma_index_wf(ts, pixels, base, m);
        let ix = index_run(ts, pixels, base, m);
        let c = pixels[m as int];
        assert(is_rgb(c));
        let nx = index_run(ts, pixels, base, n);
        assert(nx == index_step(ix, ts, c));
        let key = pack(c);
        if ix.keys.contains_key(key) {
            let v = ix.keys[key] as int;
            lemma_pack(ix.slots[v].0.unwrap(), c);
            lemma_slot_total_update(ix.slots, v, (ix.slots[v].0, ix.slots[v].1 + 1));
            assert forall|i: int|
                0 <= i < nx.slots.len() && (#[trigger] nx.slots[i]).0 is Some implies nx.slots[i].1
                == count_of(pixels, nx.slots[i].0.unwrap(), n) by {
                assert(ix.slots[i].0 is Some);
                if i != v {
                    let d = ix.slots[i].0.unwrap();
                    if d == c {
                        assert(ix.keys[pack(d)] as int == i);
                    }
                }
            }
        } else {
            lemma_home_in(ts, c, ts.len());
            match home(ts, c) {
                Some(j) => {
                    lemma_room(ix, ts, pixels, base, m, c, j);
                    let lo = ts[j].offset.unwrap() as int;
                    lemma_free_slot(ix.slots, lo, lo + template_size(ts[j]));
                    let i0 = free_slot(ix.slots, lo, lo + template_size(ts[j])).unwrap();
                    assert(count_of(pixels, c, m) == 0) by {
                        lemma_count_unseen(pixels, c, m, ix.keys);
                    }
                    lemma_slot_total_update(ix.slots, i0, (Some(c), ix.slots[i0].1 + 1));
                    assert forall|i: int|
                        0 <= i < nx.slots.len() && (#[trigger] nx.slots[i]).0 is Some implies {
                        let d = nx.slots[i].0.unwrap();
                        &&& nx.keys.contains_key(pack(d))
                        &&& nx.keys[pack(d)] as int == i
                        &&& nx.slots[i].1 == count_of(pixels, d, n)
                    } by {
                        if i != i0 {
                            assert(ix.slots[i].0 is Some);
                            let d = ix.slots[i].0.unwrap();
                            if pack(d) == key {
                                lemma_pack(d, c);
                                assert(ix.keys.contains_key(pack(d)));
                            }
                        }
                    }
                    assert forall|k: u32| #[trigger] nx.keys.contains_key(k) implies {
                        &&& (nx.keys[k] as int) < nx.slots.len()
                        &&& nx.slots[nx.keys[k] as int].0 is Some
                        &&& pack(nx.slots[nx.keys[k] as int].0.unwrap()) == k
                    } by {
                        if k != key {
                            assert(ix.keys.contains_key(k));
                        }
                    }
                },
                None => {
                    assert(count_of(pixels, c, m) == 0) by {
                        lemma_count_unseen(pixels, c, m, ix.keys);
                    }
                    assert(ix.slots.push((Some(c), 1nat)).drop_last() =~= ix.slots);
                    assert forall|i: int|
                        0 <= i < nx.slots.len() && (#[trigger] nx.slots[i]).0 is Some implies {
                        let d = nx.slots[i].0.unwrap();
                        &&& nx.keys.contains_key(pack(d))
                        &&& nx.keys[pack(d)] as int == i
                        &&& nx.slots[i].1 == count_of(pixels, d, n)
                    } by {
                        if i < ix.slots.len() {
                            assert(ix.slots[i].0 is Some);
                            let d = ix.slots[i].0.unwrap();
                            if pack(d) == key {
                                lemma_pack(d, c);
                                assert(ix.keys.contains_key(pack(d)));
                            }
                        }
                    }
                },
            }
        }
    }
}

/// A color without a key has not been seen.
proof fn lemma_count_unseen(pixels: Seq<Seq<u8>>, c: Seq<u8>, n: nat, keys: Map<u32, nat>)
    requires
        forall|m: int| 0 <= m < n ==> #[trigger] keys.contains_key(pack(pixels[m])),
        !keys.contains_key(pack(c)),
    ensures
        count_of(pixels, c, n) == 0,
    decreases n,
{
    if n > 0 {
        assert(keys.contains_key(pack(pixels[n - 1])));
        lemma_count_unseen(pixels, c, (n - 1) as nat, keys);
    }
}

/// All the pixels are counted in the slots, and slot 0 stays free: the places start
/// at slot 1 and the colors without a home come after the places.
pub proof fn law_index_totals(ts: Seq<StateTemplateView>, pixels: Seq<Seq<u8>>, base: nat)
    requires
        places_fit(ts, base),
        1 <= base,
        forall|m: int| 0 <= m < pixels.len() ==> #[trigger] is_rgb(pixels[m]),
    ensures
        slot_total(index_run(ts, pixels, base, pixels.len()).slots) == pixels.len(),
        index_run(ts, pixels, base, pixels.len()).slots[0] == (None::<Seq<u8>>, 0nat),
{
    lemma_index_wf(ts, pixels, base, pixels.len());
    let ix = index_run(ts, pixels, base, pixels.len());
    if ix.slots[0].0 is Some {
        let c = ix.slots[0].0.unwrap();
        assert(in_place(ts, c, 0, base));
        lemma_home_in(ts, c, ts.len());
        if let Some(j) = home(ts, c) {
            assert(ts[j].offset is Some);
        }
    }
}

/// Every pixel has the slot of its color, and that slot counts the pixels of its
/// color.
pub proof fn law_index_lookup(ts: Seq<StateTemplateView>, pixels: Seq<Seq<u8>>, base: nat, m: int)
    requires
        places_fit(ts, base),
        forall|k: int| 0 <= k < pixels.len() ==> #[trigger] is_rgb(pixels[k]),
        0 <= m < pixels.len(),
    ensures
        ({
            let ix = index_run(ts, pixels, base, pixels.len());
            let key = pack(pixels[m]);
            &&& ix.keys.contains_key(key)
            &&& (ix.keys[key] as int) < ix.slots.len()
            &&& ix.slots[ix.keys[key] as int] == (
                Some(pixels[m]),
                count_of(pixels, pixels[m], pixels.len()),
            )
        }),
{
    lemma_index_wf(ts, pixels, base, pixels.len());
    let ix = index_run(ts, pixels, base, pixels.len());
    let key = pack(pixels[m]);
    assert(ix.keys.contains_key(key));
    let i = ix.keys[key] as int;
    assert(ix.slots[i].0 is Some);
    lemma_pack(ix.slots[i].0.unwrap(), pixels[m]);
}

/// A color takes a slot in the place of its home, the first template that lists it
/// and has a place; a color without a home takes a slot after all places.
pub proof fn law_index_places(ts: Seq<StateTemplateView>, pixels: Seq<Seq<u8>>, base: nat, i: int)
    requires
        places_fit(ts, base),
        forall|k: int| 0 <= k < pixels.len() ==> #[trigger] is_rgb(pixels[k]),
        0 <= i < index_run(ts, pixels, base, pixels.len()).slots.len(),
        index_run(ts, pixels, base, pixels.len()).slots[i].0 is Some,
    ensures
        ({
            let c = index_run(ts, pixels, base, pixels.len()).slots[i].0.unwrap();
            match home(ts, c) {
                Some(j) => template_contains(ts[j], c) && ts[j].offset.unwrap() <= i
                    < ts[j].offset.unwrap() + template_size(ts[j]),
                None => base <= i,
            }
        }),
{
    lemma_index_wf(ts, pixels, base, pixels.len());
    let c = index_run(ts, pixels, base, pixels.len()).slots[i].0.unwrap();
    lemma_home_in(ts, c, ts.len());
}

/// The first template that lists `p` and has a place.
fn find_home(states: &Vec<StateTemplate>, p: [u8; 3]) -> (r: Option<usize>)
    ensures
        r matches Some(j) ==> j < states@.len() && home(states@.map_values(
            |t: StateTemplate| t@,
        ), p@) == Some(j as int),
        r is None ==> home(states@.map_values(|t: StateTemplate| t@), p@) is None,
{
    let ghost ts = states@.map_values(|t: StateTemplate| t@);
    let mut j: usize = 0;
    while j < states.len()
        invariant
            ts == states@.map_values(|t: StateTemplate| t@),
            j <= states@.len(),
            home_in(ts, p@, j as nat) is None,
        decreases states@.len() - j,
    {
        if states[j].contains(p) {
            if let Some(_) = states[j].get_offset() {
                assert(home_in(ts, p@, (j + 1) as nat) == Some(j as int));
                proof {
                    lemma_home_prefix(ts, p@, (j + 1) as nat, ts.len());
                }
                return Some(j);
            }
        }
        j = j + 1;
    }
    None
}

proof fn lemma_home_prefix(ts: Seq<StateTemplateView>, c: Seq<u8>, n: nat, m: nat)
    requires
        n <= m,
        home_in(ts, c, n) is Some,
    ensures
        home_in(ts, c, m) == home_in(ts, c, n),
    decreases m - n,
{
    if n < m {
        lemma_home_prefix(ts, c, n, (m - 1) as nat);
    }
}

/// The first slot of `slots[lo..hi]` that no color has taken.
fn find_free(slots: &Vec<(Option<[u8; 3]>, usize)>, lo: usize, hi: usize) -> (r: Option<usize>)
    requires
        lo <= hi <= slots@.len(),
    ensures
        r matches Some(i) ==> free_slot(slots_view(slots@), lo as int, hi as int) == Some(
            i as int,
        ),
        r is None ==> free_slot(slots_view(slots@), lo as int, hi as int) is None,
{
    let ghost sv = slots_view(slots@);
    let mut i: usize = lo;
    while i < hi
        invariant
            sv == slots_view(slots@),
            lo <= i <= hi <= slots@.len(),
            free_slot(sv, lo as int, hi as int) == free_slot(sv, i as int, hi as int),
        decreases hi - i,
    {
        if slots[i].0.is_none() {
            return Some(i);
        }
        i = i + 1;
    }
    None
}

/// The key of the color `p`.
pub fn pack_rgb_pub(p: [u8; 3]) -> (r: u32)
    ensures
        r == pack(p@),
{
    pack_rgb(p)
}

fn pack_rgb(p: [u8; 3]) -> (r: u32)
    ensures
        r == pack(p@),
{
    (p[0] as u32) * 65536 + (p[1] as u32) * 256 + (p[2] as u32)
}

/// Counts the pixels of the province map into slots: the first `total + 1` slots are
/// the places of the templates (slot 0 stays free), and colors that no placed
/// template lists follow them.
pub fn index_pixels(states: &Vec<StateTemplate>, pixels: &Vec<[u8; 3]>, total: usize) -> (r: (
    Vec<(Option<[u8; 3]>, usize)>,
    HashMap<u32, usize>,
))
    requires
        total < usize::MAX,
        places_fit(states@.map_values(|t: StateTemplate| t@), total as nat + 1),
    ensures
        ({
            let ix = index_run(
                states@.map_values(|t: StateTemplate| t@),
                pixels@.map_values(|p: [u8; 3]| p@),
                total as nat + 1,
                pixels@.len(),
            );
            &&& slots_view(r.0@) == ix.slots
            &&& keys_view(r.1@) == ix.keys
        }),
{
    let ghost ts = states@.map_values(|t: StateTemplate| t@);
    let ghost px = pixels@.map_values(|p: [u8; 3]| p@);
    let base = total + 1;
    let mut slots: Vec<(Option<[u8; 3]>, usize)> = Vec::new();
    let mut k: usize = 0;
    while k < base
        invariant
            k <= base,
            slots@.len() == k,
            forall|i: int| 0 <= i < k ==> #[trigger] slots@[i] == (None::<[u8; 3]>, 0usize),
        decreases base - k,
    {
        slots.push((None, 0));
        k = k + 1;
    }
    assert(slots_view(slots@) =~= empty_index(base as nat).slots);
    let mut keys: HashMap<u32, usize> = HashMap::new();
    assert(keys_view(keys@) =~= Map::<u32, nat>::empty());
    let mut n: usize = 0;
    while n < pixels.len()
        invariant
            ts == states@.map_values(|t: StateTemplate| t@),
            px == pixels@.map_values(|p: [u8; 3]| p@),
            base == total + 1,
            places_fit(ts, base as nat),
            n <= pixels@.len(),
            slots_view(slots@) == index_run(ts, px, base as nat, n as nat).slots,
            keys_view(keys@) == index_run(ts, px, base as nat, n as nat).keys,
        decreases pixels@.len() - n,
    {
        proof {
            lemma_index_bounds(ts, px, base as nat, n as nat);
        }
        let ghost ix = index_run(ts, px, base as nat, n as nat);
        let p = pixels[n];
        assert(px[n as int] == p@);
        let key = pack_rgb(p);
        match keys.get(&key) {
            Some(v) => {
                let v = *v;
                assert(keys@.contains_key(key) && keys@[key] == v);
                assert(ix.keys[key] == v as nat);
                assert(ix.keys.contains_key(key));
                assert((v as int) < slots@.len());
                let (c, cnt) = slots[v];
                assert(slots_view(slots@)[v as int] == (opt_rgb(c), cnt as nat));
                assert(ix.slots[v as int].1 <= n);
                slots.set(v, (c, cnt + 1));
            },
            None => {
                match find_home(states, p) {
                    Some(j) => {
                        proof {
                            lemma_home_in(ts, p@, ts.len());
                        }
                        let lo = states[j].get_offset().unwrap();
                        assert(ts[j as int].offset is Some);
                        let hi = lo + states[j].size();
                        match find_free(&slots, lo, hi) {
                            Some(i) => {
                                proof {
                                    lemma_free_slot(slots_view(slots@), lo as int, hi as int);
                                }
                                let (_, cnt) = slots[i];
                                assert(slots_view(slots@)[i as int].1 == cnt as nat);
                                slots.set(i, (Some(p), cnt + 1));
                                let ghost before = keys@;
                                keys.insert(key, i);
                                assert(keys_view(keys@) =~= keys_view(before).insert(key, i as nat));
                            },
                            None => {},
                        }
                    },
                    None => {
                        let at = slots.len();
                        slots.push((Some(p), 1));
                        let ghost before = keys@;
                        keys.insert(key, at);
                        assert(keys_view(keys@) =~= keys_view(before).insert(key, at as nat));
                    },
                }
            },
        }
        assert(slots_view(slots@) =~= index_step(ix, ts, p@).slots);
        n = n + 1;
    }
    (slots, keys)
}

} // verus!
