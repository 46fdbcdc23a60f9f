//! State templates read line by line with a regular expression, for the strategic
//! regions to own.
use vstd::prelude::*;

use crate::error::VicError;
use crate::record::{parse_usize, usize_max};
use crate::save::cultures::{group, group_at, lines_view};
use crate::save::pattern::{first_captures, groups_view, regex_first};
use crate::text::{spec_parse_bounded, split_all, split_pieces, to_chars};
use crate::wrappers::{hex_of, hex_value};

verus! {

broadcast use vstd::string::group_string_axioms;

/// A state template: its name, ids, provinces, place and whether it is sea.
#[derive(Debug)]
pub struct StateTemplate {
    name: String,
    // naive id first, as read from game files; followed by an assigned ID as per the logic of the game.
    id: Option<(usize, usize)>,
    provinces: Option<Vec<[u8; 3]>>,
    offset: Option<usize>,
    ocean: bool,
}

pub ghost struct TemplateView {
    pub name: Seq<char>,
    pub id: Option<(nat, nat)>,
    pub provinces: Option<Seq<Seq<u8>>>,
    pub offset: Option<nat>,
    pub ocean: bool,
}

impl View for StateTemplate {
    type V = TemplateView;

    closed spec fn view(&self) -> TemplateView {
        TemplateView {
            name: self.name@,
            id: match self.id {
                Some(a) => Some((a.0 as nat, a.1 as nat)),
                None => None,
            },
            provinces: match self.provinces {
                Some(v) => Some(v@.map_values(|c: [u8; 3]| c@)),
                None => None,
            },
            offset: match self.offset {
                Some(n) => Some(n as nat),
                None => None,
            },
            ocean: self.ocean,
        }
    }
}

/// The pattern of the lines of a state template.
pub open spec fn template_pattern() -> Seq<char> {
    "^([A-Z_0-9]+) = \\{|^[\\t\\s]+id = ([0-9]+)|^[\\t\\s]+subsistence_building = \"([A-Za-z_]+)\"|^[\\t\\s]+provinces = \\{ ([\"0-9x\\sA-F]+) \\}|^[\\t\\s]+arable_land = ([0-9]+)|^[\\t\\s]+arable_resources = \\{ ([\"\\sa-zA-Z_]+) \\}|^[\\t\\s]+capped_resources = \\{\\n([\"\\sa-zA-Z_=0-9]+)\\n[\\t\\s]+\\}|^\\}"@
}

/// The byte that the hex digits `a` and `b` spell.
pub open spec fn hex_byte(a: char, b: char) -> Option<u8> {
    match (hex_value(a), hex_value(b)) {
        (Some(x), Some(y)) => Some((16 * x + y) as u8),
        _ => None,
    }
}

/// The color of a province written as `"xRRGGBB"`: the hex digits at positions 2 to
/// 7, where the first eight characters are ASCII.
pub open spec fn province_rgb(p: Seq<char>) -> Option<Seq<u8>> {
    if p.len() >= 8 && (forall|i: int| 0 <= i < 8 ==> (p[i] as u32) < 128) {
        match (hex_byte(p[2], p[3]), hex_byte(p[4], p[5]), hex_byte(p[6], p[7])) {
            (Some(r), Some(g), Some(b)) => Some(seq![r, g, b]),
            _ => None,
        }
    } else {
        None
    }
}

/// The colors of the first `n` provinces, where each is one.
pub open spec fn provinces_rgb(ps: Seq<Seq<char>>, n: nat) -> Option<Seq<Seq<u8>>>
    decreases n,
{
    if n == 0 {
        Some(Seq::empty())
    } else {
        match (provinces_rgb(ps, (n - 1) as nat), province_rgb(ps[n - 1])) {
            (Some(v), Some(c)) => Some(v.push(c)),
            _ => None,
        }
    }
}

/// Where reading a template stands: going, done, stopped at an id that does not
/// fit a `usize`, or stuck at a province that is not a color.
pub ghost enum TemplateStep {
    Go(TemplateView),
    Done(TemplateView),
    Fail,
    Stuck,
}

/// The first match of a line read into the template.
pub open spec fn template_line(t: TemplateView, b: Seq<Option<Seq<char>>>) -> TemplateStep {
    if group(b, 0) == Some("}"@) {
        TemplateStep::Done(t)
    } else {
        let t1 = match group(b, 1) {
            Some(c) => TemplateView { name: c, ..t },
            None => t,
        };
        match group(b, 2) {
            Some(c) if spec_parse_bounded(c, usize_max()) is None => TemplateStep::Fail,
            _ => {
                let t2 = match group(b, 2) {
                    Some(c) => TemplateView {
                        id: Some((0, spec_parse_bounded(c, usize_max()).unwrap())),
                        ..t1
                    },
                    None => t1,
                };
                match group(b, 4) {
                    Some(c) => {
                        let ps = split_all(c, ' ');
                        match provinces_rgb(ps, ps.len()) {
                            Some(v) => TemplateStep::Go(TemplateView { provinces: Some(v), ..t2 }),
                            None => TemplateStep::Stuck,
                        }
                    },
                    None => TemplateStep::Go(t2),
                }
            },
        }
    }
}

/// The template read from line `i` on, and the line after the one where reading
/// stopped; `Go` where the lines ran out first.
pub open spec fn template_lines(t: TemplateView, lines: Seq<Seq<char>>, i: nat) -> (TemplateStep, nat)
    decreases lines.len() - i,
{
    if i >= lines.len() {
        (TemplateStep::Go(t), i)
    } else {
        match regex_first(template_pattern(), lines[i as int]) {
            None => template_lines(t, lines, i + 1),
            Some(b) => match template_line(t, b) {
                TemplateStep::Go(t2) => template_lines(t2, lines, i + 1),
                other => (other, i + 1),
            },
        }
    }
}

pub open spec fn blank_template(ocean: bool) -> TemplateView {
    TemplateView { name: Seq::empty(), id: None, provinces: None, offset: None, ocean }
}

pub open spec fn template_size_of(t: TemplateView) -> nat {
    match t.provinces {
        Some(p) => p.len(),
        None => 0,
    }
}

pub open spec fn lists_color(t: TemplateView, c: Seq<u8>) -> bool {
    match t.provinces {
        Some(p) => p.contains(c),
        None => false,
    }
}

/// The color of one province.
fn province_color(p: &String) -> (r: Option<[u8; 3]>)
    ensures
        r matches Some(c) ==> province_rgb(p@) == Some(c@),
        r is None ==> province_rgb(p@) is None,
{
    let v = to_chars(p.as_str());
    if v.len() < 8 {
        return None;
    }
    let mut i: usize = 0;
    while i < 8
        invariant
            v@ == p@,
            v@.len() >= 8,
            i <= 8,
            forall|j: int| 0 <= j < i ==> (v@[j] as u32) < 128,
        decreases 8 - i,
    {
        if (v[i] as u32) >= 128 {
            return None;
        }
        i = i + 1;
    }
    let byte = |a: char, b: char| -> (r: Option<u8>)
        ensures
            r == hex_byte(a, b),
        {
            match (hex_of(a), hex_of(b)) {
                (Some(x), Some(y)) => {
                    assert(x < 16 && y < 16) by {
                        assert(hex_value(a) matches Some(d) ==> d < 16);
                        assert(hex_value(b) matches Some(d) ==> d < 16);
                    }
                    Some(16 * x + y)
                },
                _ => None,
            }
        };
    match (byte(v[2], v[3]), byte(v[4], v[5]), byte(v[6], v[7])) {
        (Some(r), Some(g), Some(b)) => {
            let c = [r, g, b];
            assert(c@ =~= seq![r, g, b]);
            Some(c)
        },
        _ => None,
    }
}

/// The colors of the provinces of a space separated list, where each is one.
fn province_colors(c: &str) -> (r: Option<Vec<[u8; 3]>>)
    ensures
        match r {
            Some(v) => provinces_rgb(split_all(c@, ' '), split_all(c@, ' ').len()) == Some(
                v@.map_values(|x: [u8; 3]| x@),
            ),
            None => provinces_rgb(split_all(c@, ' '), split_all(c@, ' ').len()) is None,
        },
{
    let ps = split_pieces(c, ' ');
    let ghost pv = ps@.map_values(|w: String| w@);
    let mut out: Vec<[u8; 3]> = Vec::new();
    let mut i: usize = 0;
    while i < ps.len()
        invariant
            pv == ps@.map_values(|w: String| w@),
            pv == split_all(c@, ' '),
            i <= pv.len(),
            provinces_rgb(pv, i as nat) == Some(out@.map_values(|x: [u8; 3]| x@)),
        decreases pv.len() - i,
    {
        match province_color(&ps[i]) {
            Some(col) => {
                let ghost before = out@;
                out.push(col);
                assert(out@.map_values(|x: [u8; 3]| x@) =~= before.map_values(|x: [u8; 3]| x@).push(col@));
            },
            None => {
                proof {
                    lemma_provinces_none(pv, (i + 1) as nat, pv.len());
                }
                return None;
            },
        }
        i = i + 1;
    }
    Some(out)
}

proof fn lemma_provinces_none(ps: Seq<Seq<char>>, n: nat, m: nat)
    requires
        n <= m,
        provinces_rgb(ps, n) is None,
    ensures
        provinces_rgb(ps, m) is None,
    decreases m - n,
{
    if n < m {
        lemma_provinces_none(ps, n, (m - 1) as nat);
    }
}

impl StateTemplate {
    /// Reads a template from the lines of the map files, from line `*at` on, up to its
    /// closing brace; `None` where the lines run out first. An error where its id does
    /// not fit a `usize`.
    pub fn new(data: &Vec<String>, at: &mut usize, ocean: bool) -> (r: Result<Option<Self>, VicError>)
        requires
            *old(at) <= data@.len(),
            !(template_lines(blank_template(ocean), lines_view(data@), *old(at) as nat).0 is Stuck),
        ensures
            ({
                let run = template_lines(blank_template(ocean), lines_view(data@), *old(at) as nat);
                &&& run.0 matches TemplateStep::Done(v) ==> (r matches Ok(Some(t)) && t@ == v
                    && *final(at) as nat == run.1)
                &&& run.0 is Go ==> (r matches Ok(None))
                &&& run.0 is Fail ==> (r matches Err(e) && e is Other)
            }),
    {
        match Self::scan(data, at, ocean) {
            Some(r) => r,
            None => Ok(None),
        }
    }

    /// As `new`, where no province of the template fails to be a color; `None` where
    /// one does.
    pub fn read(data: &Vec<String>, at: &mut usize, ocean: bool) -> (r: Option<Result<Option<Self>, VicError>>)
        requires
            *old(at) <= data@.len(),
        ensures
            ({
                let run = template_lines(blank_template(ocean), lines_view(data@), *old(at) as nat);
                &&& run.0 is Stuck ==> r is None && *final(at) == *old(at)
                &&& run.0 matches TemplateStep::Done(v) ==> (r matches Some(Ok(Some(t))) && t@ == v
                    && *final(at) as nat == run.1)
                &&& run.0 is Go ==> (r matches Some(Ok(None)))
                &&& run.0 is Fail ==> (r matches Some(Err(e)) && e is Other)
            }),
    {
        let mut probe = *at;
        match Self::scan(data, &mut probe, ocean) {
            None => None,
            Some(Err(e)) => Some(Err(e)),
            Some(Ok(_)) => Some(Self::new(data, at, ocean)),
        }
    }

    fn scan(data: &Vec<String>, at: &mut usize, ocean: bool) -> (r: Option<Result<Option<Self>, VicError>>)
        requires
            *old(at) <= data@.len(),
        ensures
            ({
                let run = template_lines(blank_template(ocean), lines_view(data@), *old(at) as nat);
                &&& r is None ==> run.0 is Stuck
                &&& r matches Some(Ok(Some(t))) ==> run.0 == TemplateStep::Done(t@) && *final(at) as nat == run.1
                &&& r matches Some(Ok(None)) ==> run.0 is Go
                &&& r matches Some(Err(e)) ==> e is Other && run.0 is Fail
            }),
    {
        let ghost lv = lines_view(data@);
        let ghost start = *at as nat;
        let mut t = StateTemplate { name: String::new(), id: None, provinces: None, offset: None, ocean };
        assert(t@.provinces is None);
        assert(t@ == blank_template(ocean));
        while *at < data.len()
            invariant
                lv == lines_view(data@),
                start == *old(at) as nat,
                *at <= data@.len(),
                t@.offset is None,
                t@.ocean == ocean,
                template_lines(blank_template(ocean), lv, start) == template_lines(t@, lv, *at as nat),
            decreases data@.len() - *at,
        {
            let line = *at;
            *at = *at + 1;
            let found = first_captures(
                "^([A-Z_0-9]+) = \\{|^[\\t\\s]+id = ([0-9]+)|^[\\t\\s]+subsistence_building = \"([A-Za-z_]+)\"|^[\\t\\s]+provinces = \\{ ([\"0-9x\\sA-F]+) \\}|^[\\t\\s]+arable_land = ([0-9]+)|^[\\t\\s]+arable_resources = \\{ ([\"\\sa-zA-Z_]+) \\}|^[\\t\\s]+capped_resources = \\{\\n([\"\\sa-zA-Z_=0-9]+)\\n[\\t\\s]+\\}|^\\}",
                data[line].as_str(),
            );
            let b = match found {
                None => continue,
                Some(b) => b,
            };
            let ghost bv = groups_view(b@);
            assert(regex_first(template_pattern(), lv[line as int]) == Some(bv));
            let ghost t0 = t@;
            let closing = match group_at(&b, 0) {
                Some(s) => *s == String::from_str("}"),
                None => false,
            };
            if closing {
                return Some(Ok(Some(t)));
            }
            match group_at(&b, 1) {
                Some(c) => t.name = c.clone(),
                None => {},
            }
            match group_at(&b, 2) {
                Some(c) => match parse_usize(c.as_str()) {
                    Ok(n) => t.id = Some((0, n)),
                    Err(e) => return Some(Err(e)),
                },
                None => {},
            }
            match group_at(&b, 4) {
                Some(c) => match province_colors(c.as_str()) {
                    Some(v) => t.provinces = Some(v),
                    None => return None,
                },
                None => {},
            }
            assert(template_line(t0, bv) == TemplateStep::Go(t@));
        }
        Some(Ok(None))
    }

    pub fn size(&self) -> (r: usize)
        ensures
            r as nat == template_size_of(self@),
    {
        match &self.provinces {
            Some(a) => a.len(),
            None => 0,
        }
    }

    pub fn set_offset(&mut self, offset: usize)
        ensures
            final(self)@ == (TemplateView { offset: Some(offset as nat), ..old(self)@ }),
    {
        self.offset = Some(offset);
    }

    /// The place of the template; an error where it has none.
    pub fn offset(&self) -> (r: Result<usize, VicError>)
        ensures
            r matches Ok(n) ==> self@.offset == Some(n as nat),
            r is Err ==> self@.offset is None,
            r matches Err(e) ==> e is Other,
    {
        match self.offset {
            Some(off) => Ok(off),
            None => Err(VicError::Other(String::from_str("t"))),
        }
    }

    /// checks if state contains province with ID (color).
    pub fn contains(&self, color: [u8; 3]) -> (r: bool)
        ensures
            r == lists_color(self@, color@),
    {
        match &self.provinces {
            Some(provinces) => {
                let ghost pv = provinces@.map_values(|c: [u8; 3]| c@);
                assert(self@.provinces == Some(pv));
                let mut i: usize = 0;
                while i < provinces.len()
                    invariant
                        pv == provinces@.map_values(|c: [u8; 3]| c@),
                        self@.provinces == Some(pv),
                        i <= pv.len(),
                        forall|j: int| 0 <= j < i ==> pv[j] != color@,
                    decreases pv.len() - i,
                {
                    let p = provinces[i];
                    if p[0] == color[0] && p[1] == color[1] && p[2] == color[2] {
                        assert(pv[i as int] =~= color@);
                        assert(pv.contains(color@));
                        return true;
                    }
                    assert(!(p@ =~= color@));
                    i = i + 1;
                }
                false
            },
            None => false,
        }
    }

    pub fn is_ocean(&self) -> (r: bool)
        ensures
            r == self@.ocean,
    {
        self.ocean
    }

    /// Sets the id that the game assigns, in first place.
    pub fn set_id(&mut self, id: usize)
        ensures
            final(self)@ == (TemplateView {
                id: Some(
                    (
                        id as nat,
                        match old(self)@.id {
                            Some(a) => a.1,
                            None => 0,
                        },
                    ),
                ),
                ..old(self)@
            }),
    {
        match self.id {
            Some(a) => self.id = Some((id, a.1)),
            None => self.id = Some((id, 0)),
        }
    }

    /// Whether the template has been given an id.
    pub(crate) fn has_id(&self) -> (r: bool)
        ensures
            r == self@.id is Some,
    {
        self.id.is_some()
    }

    /// Whether the template bears the name `n`.
    pub(crate) fn is_named(&self, n: &String) -> (r: bool)
        ensures
            r == (self@.name == n@),
    {
        self.name == *n
    }

    /// A template equal to this one.
    pub(crate) fn duplicate(&self) -> (r: Self)
        ensures
            r@ == self@,
    {
        let provinces = match &self.provinces {
            Some(v) => {
                let mut out: Vec<[u8; 3]> = Vec::new();
                let mut i: usize = 0;
                while i < v.len()
                    invariant
                        i <= v@.len(),
                        out@ == v@.take(i as int),
                    decreases v@.len() - i,
                {
                    out.push(v[i]);
                    i = i + 1;
                    assert(out@ =~= v@.take(i as int));
                }
                assert(out@ =~= v@);
                Some(out)
            },
            None => None,
        };
        StateTemplate {
            name: self.name.clone(),
            id: self.id,
            provinces,
            offset: self.offset,
            ocean: self.ocean,
        }
    }

    pub fn name(&self) -> (r: &str)
        ensures
            r@ == self@.name,
    {
        self.name.as_str()
    }

    pub fn id(&self) -> (r: (usize, usize))
        requires
            self@.id is Some,
        ensures
            Some((r.0 as nat, r.1 as nat)) == self@.id,
    {
        match self.id {
            Some(a) => a,
            None => (0, 0),
        }
    }
}

} // verus!
