//! What the map drawing decides: which coloring a map is drawn with, and the owners
//! of each province color, found once per save and kept.
use vstd::prelude::*;

use std::collections::HashMap;

use crate::error::VicError;
use crate::map::index::{pack, pack_rgb_pub};

verus! {

broadcast use vstd::std_specs::hash::group_hash_axioms;

/// What the provinces of a map are colored by.
#[derive(PartialEq, Eq, Hash, Copy, Clone, Debug, Structural)]
pub enum Coloring {
    StateTemplates,
    SaveStates,
    SaveCountries,
    Provinces,
    Nothing,
}

impl Default for Coloring {
    fn default() -> (r: Self)
        ensures
            r == Coloring::Nothing,
    {
        Coloring::Nothing
    }
}

/// What is known of a province color: the color it takes under each of the three
/// colorings by owner (state templates, save states, save countries), and the state
/// and country that own it.
#[derive(Copy, Clone, Debug)]
pub struct Owned {
    pub colors: (Option<[u8; 3]>, Option<[u8; 3]>, Option<[u8; 3]>),
    pub ids: Option<(usize, usize)>,
}

/// The owners of province colors, per save: a color without an entry is unknown, an
/// entry of `None` marks a color that nobody owns (sea and lakes).
pub struct Owners {
    map: HashMap<u128, Option<Owned>>,
}

/// The key of a province color of a save.
pub open spec fn owner_key(save_id: usize, color: [u8; 3]) -> u128 {
    (save_id as int * 16777216 + pack(color@) as int) as u128
}

/// Which of the three colors of an entry a coloring uses.
pub open spec fn color_under(o: Owned, c: Coloring) -> Option<[u8; 3]> {
    match c {
        Coloring::StateTemplates => o.colors.0,
        Coloring::SaveStates => o.colors.1,
        _ => o.colors.2,
    }
}

/// Which of the two owners a coloring looks at: the state, or for countries the
/// country.
pub open spec fn owner_under(o: Owned, c: Coloring) -> Option<usize> {
    match o.ids {
        Some(ids) => Some(
            if c == Coloring::SaveCountries {
                ids.1
            } else {
                ids.0
            },
        ),
        None => None,
    }
}

/// The entry with the color under coloring `c` set.
pub open spec fn with_color(o: Owned, c: Coloring, color: [u8; 3]) -> Owned {
    match c {
        Coloring::StateTemplates => Owned { colors: (Some(color), o.colors.1, o.colors.2), ..o },
        Coloring::SaveStates => Owned { colors: (o.colors.0, Some(color), o.colors.2), ..o },
        _ => Owned { colors: (o.colors.0, o.colors.1, Some(color)), ..o },
    }
}

pub open spec fn is_owner_coloring(c: Coloring) -> bool {
    c == Coloring::StateTemplates || c == Coloring::SaveStates || c == Coloring::SaveCountries
}

/// Setting the color under one coloring gives it back under that coloring, and leaves
/// the owners and the colors under the other colorings as they were.
pub proof fn law_color_kept(o: Owned, c: Coloring, u: [u8; 3], d: Coloring)
    requires
        is_owner_coloring(c),
        is_owner_coloring(d),
    ensures
        color_under(with_color(o, c, u), c) == Some(u),
        owner_under(with_color(o, c, u), d) == owner_under(o, d),
        d != c ==> color_under(with_color(o, c, u), d) == color_under(o, d),
{
}

/// Entries of different saves, or of different colors, never share a key.
pub proof fn law_owner_keys_apart(s1: usize, c1: [u8; 3], s2: usize, c2: [u8; 3])
    requires
        owner_key(s1, c1) == owner_key(s2, c2),
    ensures
        s1 == s2,
        c1@ == c2@,
{
    let (a0, a1, a2, b0, b1, b2) = (c1[0], c1[1], c1[2], c2[0], c2[1], c2[2]);
    assert(c1@[0] == a0 && c1@[1] == a1 && c1@[2] == a2);
    assert(c2@[0] == b0 && c2@[1] == b1 && c2@[2] == b2);
    let p1 = a0 as int * 65536 + a1 as int * 256 + a2 as int;
    let p2 = b0 as int * 65536 + b1 as int * 256 + b2 as int;
    assert(0 <= p1 < 16777216 && 0 <= p2 < 16777216);
    assert(pack(c1@) as int == p1 && pack(c2@) as int == p2);
    assert(s1 as int * 16777216 + p1 == s2 as int * 16777216 + p2) by {
        assert(s1 as int * 16777216 + p1 < 0x1_0000_0000_0000_0000_0000_0000_0000_0000) by (nonlinear_arith)
            requires
                0 <= p1 < 16777216,
                s1 <= usize::MAX,
        ;
        assert(s2 as int * 16777216 + p2 < 0x1_0000_0000_0000_0000_0000_0000_0000_0000) by (nonlinear_arith)
            requires
                0 <= p2 < 16777216,
                s2 <= usize::MAX,
        ;
    }
    assert(s1 == s2 && p1 == p2) by (nonlinear_arith)
        requires
            s1 as int * 16777216 + p1 == s2 as int * 16777216 + p2,
            0 <= p1 < 16777216,
            0 <= p2 < 16777216,
    ;
    crate::map::index::lemma_pack(c1@, c2@);
}

fn key_of(save_id: usize, color: [u8; 3]) -> (r: u128)
    ensures
        r == owner_key(save_id, color),
{
    (save_id as u128) * 16777216 + (pack_rgb_pub(color) as u128)
}

impl Owners {
    pub closed spec fn view(&self) -> Map<u128, Option<Owned>> {
        self.map@
    }

    pub fn new() -> (r: Owners)
        ensures
            r.view() == Map::<u128, Option<Owned>>::empty(),
    {
        Owners { map: HashMap::new() }
    }

    /// What is known of `color` under `color_map`: for the colorings by owner, the
    /// color taken and the owner, both unknown where the color has no entry yet, and
    /// `None` where nobody owns it; for provinces, the color itself; for no coloring,
    /// an error.
    pub fn owner_getter(&self, color_map: Coloring, color: &[u8; 3], save_id: usize) -> (r: Result<
        Option<(Option<[u8; 3]>, Option<usize>)>,
        VicError,
    >)
        ensures
            color_map == Coloring::Nothing <==> r is Err,
            color_map == Coloring::Provinces ==> r == Ok::<_, VicError>(
                Some((Some(*color), None::<usize>)),
            ),
            is_owner_coloring(color_map) ==> r == Ok::<_, VicError>(
                if self.view().contains_key(owner_key(save_id, *color)) {
                    match self.view()[owner_key(save_id, *color)] {
                        Some(o) => Some((color_under(o, color_map), owner_under(o, color_map))),
                        None => None,
                    }
                } else {
                    Some((None, None))
                },
            ),
    {
        match color_map {
            Coloring::Provinces => return Ok(Some((Some(*color), None))),
            Coloring::Nothing => return Err(VicError::temp()),
            _ => {},
        }
        let key = key_of(save_id, *color);
        match self.map.get(&key) {
            Some(entry) => match entry {
                Some(o) => {
                    let c = match color_map {
                        Coloring::StateTemplates => o.colors.0,
                        Coloring::SaveStates => o.colors.1,
                        _ => o.colors.2,
                    };
                    let w = match o.ids {
                        Some(ids) => Some(
                            if color_map == Coloring::SaveCountries {
                                ids.1
                            } else {
                                ids.0
                            },
                        ),
                        None => None,
                    };
                    Ok(Some((c, w)))
                },
                None => Ok(None),
            },
            None => Ok(Some((None, None))),
        }
    }

    /// Sets the color that `color` takes under `color_map`, where it has an owned entry.
    pub fn owner_inserter(&mut self, color_map: Coloring, color: &[u8; 3], updatedcolor: [u8; 3], save_id: usize)
        requires
            is_owner_coloring(color_map),
        ensures
            final(self).view() == if old(self).view().contains_key(owner_key(save_id, *color)) {
                match old(self).view()[owner_key(save_id, *color)] {
                    Some(o) => old(self).view().insert(
                        owner_key(save_id, *color),
                        Some(with_color(o, color_map, updatedcolor)),
                    ),
                    None => old(self).view(),
                }
            } else {
                old(self).view()
            },
    {
        let key = key_of(save_id, *color);
        let found = match self.map.get(&key) {
            Some(e) => *e,
            None => None,
        };
        match found {
            Some(o) => {
                let n = match color_map {
                    Coloring::StateTemplates => Owned {
                        colors: (Some(updatedcolor), o.colors.1, o.colors.2),
                        ids: o.ids,
                    },
                    Coloring::SaveStates => Owned {
                        colors: (o.colors.0, Some(updatedcolor), o.colors.2),
                        ids: o.ids,
                    },
                    _ => Owned { colors: (o.colors.0, o.colors.1, Some(updatedcolor)), ids: o.ids },
                };
                self.map.insert(key, Some(n));
            },
            None => {},
        }
    }

    /// Records the owners of `color` (none of its colors known yet).
    pub fn record(&mut self, color: &[u8; 3], ids: Option<(usize, usize)>, save_id: usize)
        ensures
            final(self).view() == old(self).view().insert(
                owner_key(save_id, *color),
                Some(Owned { colors: (None, None, None), ids }),
            ),
    {
        let key = key_of(save_id, *color);
        self.map.insert(key, Some(Owned { colors: (None, None, None), ids }));
    }

    /// Marks `color` as owned by nobody.
    pub fn mark_unowned(&mut self, color: &[u8; 3], save_id: usize)
        ensures
            final(self).view() == old(self).view().insert(owner_key(save_id, *color), None),
    {
        let key = key_of(save_id, *color);
        self.map.insert(key, None);
    }

    /// Whether `color` is known to be owned by nobody.
    pub fn is_unowned(&self, color: &[u8; 3], save_id: usize) -> (r: bool)
        ensures
            r == (self.view().contains_key(owner_key(save_id, *color))
                && self.view()[owner_key(save_id, *color)] is None),
    {
        let key = key_of(save_id, *color);
        match self.map.get(&key) {
            Some(e) => e.is_none(),
            None => false,
        }
    }
}

/// Whether `color` is known to be owned by nobody in the save `save_id`.
pub open spec fn unowned_in(v: Map<u128, Option<Owned>>, save_id: usize, color: [u8; 3]) -> bool {
    v.contains_key(owner_key(save_id, color)) && v[owner_key(save_id, color)] is None
}

/// The pixel `k` of an image `w` pixels wide, stored row by row, and its four
/// neighbours where they lie on the image: the pixels of the next and the previous row
/// and those left and right of it.
pub open spec fn around(px: Seq<[u8; 3]>, w: int, k: int) -> Seq<Option<[u8; 3]>> {
    seq![
        Some(px[k]),
        if k + w < px.len() {
            Some(px[k + w])
        } else {
            None
        },
        if k >= w {
            Some(px[k - w])
        } else {
            None
        },
        if k % w > 0 {
            Some(px[k - 1])
        } else {
            None
        },
        if k % w + 1 < w && k + 1 < px.len() {
            Some(px[k + 1])
        } else {
            None
        },
    ]
}

/// The pixel of the border image at `k`: white where the pixel and its neighbours have
/// one color, else grey where all of them belong to nobody (a border between sea
/// provinces), else black.
pub open spec fn line_color(px: Seq<[u8; 3]>, w: int, k: int, v: Map<u128, Option<Owned>>, save_id: usize) -> Seq<u8> {
    let s = around(px, w, k);
    if forall|i: int| 0 <= i < 5 ==> (#[trigger] s[i] matches Some(d) ==> d@ == px[k]@) {
        seq![0xFFu8, 0xFFu8, 0xFFu8]
    } else if forall|i: int| 0 <= i < 5 ==> (#[trigger] s[i] matches Some(d) ==> unowned_in(v, save_id, d)) {
        seq![0x7Fu8, 0x7Fu8, 0x7Fu8]
    } else {
        seq![0u8, 0u8, 0u8]
    }
}

fn same_color(a: [u8; 3], b: [u8; 3]) -> (r: bool)
    ensures
        r == (a@ == b@),
{
    let r = a[0] == b[0] && a[1] == b[1] && a[2] == b[2];
    proof {
        if r {
            assert(a@ =~= b@);
        } else {
            assert(!(a@ =~= b@));
        }
    }
    r
}

/// The border image of a map `w` pixels wide, stored row by row, after its provinces
/// were colored: white inside areas of one color, black on their borders, grey on
/// borders between provinces that belong to nobody.
pub fn border_lines(pixels: &Vec<[u8; 3]>, w: usize, owners: &Owners, save_id: usize) -> (r: Vec<[u8; 3]>)
    requires
        w > 0,
    ensures
        r@.len() == pixels@.len(),
        forall|k: int| 0 <= k < r@.len() ==> (#[trigger] r@[k])@ == line_color(pixels@, w as int, k, owners.view(), save_id),
{
    let n = pixels.len();
    let mut out: Vec<[u8; 3]> = Vec::new();
    let mut k: usize = 0;
    while k < n
        invariant
            n == pixels@.len(),
            w > 0,
            k <= n,
            out@.len() == k,
            forall|j: int| 0 <= j < k ==> (#[trigger] out@[j])@ == line_color(pixels@, w as int, j, owners.view(), save_id),
        decreases n - k,
    {
        let here = pixels[k];
        let x = k % w;
        proof {
            vstd::arithmetic::div_mod::lemma_mod_decreases(k as nat, w as nat);
        }
        let mut near: Vec<Option<[u8; 3]>> = Vec::new();
        near.push(Some(here));
        near.push(if w < n - k { Some(pixels[k + w]) } else { None });
        near.push(if k >= w { Some(pixels[k - w]) } else { None });
        near.push(if x > 0 { Some(pixels[k - 1]) } else { None });
        near.push(if x + 1 < w && k + 1 < n { Some(pixels[k + 1]) } else { None });
        let ghost s = around(pixels@, w as int, k as int);
        assert(near@ =~= s);
        let mut same = true;
        let mut sea = true;
        let mut i: usize = 0;
        while i < 5
            invariant
                near@ == s,
                s.len() == 5,
                k < pixels@.len(),
                here == pixels@[k as int],
                same <==> forall|j: int| 0 <= j < i ==> (#[trigger] s[j] matches Some(d) ==> d@ == here@),
                sea <==> forall|j: int| 0 <= j < i ==> (#[trigger] s[j] matches Some(d) ==> unowned_in(owners.view(), save_id, d)),
                i <= 5,
            decreases 5 - i,
        {
            match near[i] {
                Some(d) => {
                    if !same_color(d, here) {
                        same = false;
                    }
                    if !owners.is_unowned(&d, save_id) {
                        sea = false;
                    }
                },
                None => {},
            }
            i = i + 1;
        }
        let color = if same {
            [0xFFu8, 0xFFu8, 0xFFu8]
        } else if sea {
            [0x7Fu8, 0x7Fu8, 0x7Fu8]
        } else {
            [0u8, 0u8, 0u8]
        };
        assert(color@ == line_color(pixels@, w as int, k as int, owners.view(), save_id));
        out.push(color);
        k = k + 1;
    }
    out
}

/// Whether a pixel of the border image draws a border over the map: black pixels
/// always, grey ones (between sea provinces) where those borders are asked for.
pub open spec fn draws_border(line: [u8; 3], sea_borders: bool) -> bool {
    line@ == seq![0u8, 0u8, 0u8] || (line@ == seq![0x7Fu8, 0x7Fu8, 0x7Fu8] && sea_borders)
}

/// Draws the borders of `lines` over the map `pixels`, pixel by pixel, in black.
pub fn apply_lines(pixels: &mut Vec<[u8; 3]>, lines: &Vec<[u8; 3]>, sea_borders: bool)
    requires
        old(pixels)@.len() == lines@.len(),
    ensures
        final(pixels)@.len() == old(pixels)@.len(),
        forall|k: int| 0 <= k < lines@.len() ==> (#[trigger] final(pixels)@[k])@ == if draws_border(
            lines@[k],
            sea_borders,
        ) {
            seq![0u8, 0u8, 0u8]
        } else {
            old(pixels)@[k]@
        },
{
    let ghost before = pixels@;
    let mut k: usize = 0;
    while k < lines.len()
        invariant
            pixels@.len() == before.len(),
            before.len() == lines@.len(),
            k <= lines@.len(),
            forall|j: int| 0 <= j < k ==> (#[trigger] pixels@[j])@ == if draws_border(lines@[j], sea_borders) {
                seq![0u8, 0u8, 0u8]
            } else {
                before[j]@
            },
            forall|j: int| k <= j < before.len() ==> #[trigger] pixels@[j] == before[j],
        decreases lines@.len() - k,
    {
        let l = lines[k];
        let black = same_color(l, [0u8, 0u8, 0u8]);
        let grey = same_color(l, [0x7Fu8, 0x7Fu8, 0x7Fu8]);
        assert([0u8, 0u8, 0u8]@ =~= seq![0u8, 0u8, 0u8]);
        assert([0x7Fu8, 0x7Fu8, 0x7Fu8]@ =~= seq![0x7Fu8, 0x7Fu8, 0x7Fu8]);
        if black || (grey && sea_borders) {
            pixels.set(k, [0u8, 0u8, 0u8]);
        }
        k = k + 1;
    }
}

/// Paints the pixels of provinces that belong to nobody with the sea color.
pub fn fill_sea(pixels: &mut Vec<[u8; 3]>, owners: &Owners, save_id: usize, sea: [u8; 3])
    ensures
        final(pixels)@.len() == old(pixels)@.len(),
        forall|k: int| 0 <= k < old(pixels)@.len() ==> #[trigger] final(pixels)@[k] == if unowned_in(
            owners.view(),
            save_id,
            old(pixels)@[k],
        ) {
            sea
        } else {
            old(pixels)@[k]
        },
{
    let ghost before = pixels@;
    let mut k: usize = 0;
    while k < pixels.len()
        invariant
            pixels@.len() == before.len(),
            k <= before.len(),
            forall|j: int| 0 <= j < k ==> #[trigger] pixels@[j] == if unowned_in(owners.view(), save_id, before[j]) {
                sea
            } else {
                before[j]
            },
            forall|j: int| k <= j < before.len() ==> #[trigger] pixels@[j] == before[j],
        decreases before.len() - k,
    {
        let c = pixels[k];
        if owners.is_unowned(&c, save_id) {
            pixels.set(k, sea);
        }
        k = k + 1;
    }
}

} // verus!
