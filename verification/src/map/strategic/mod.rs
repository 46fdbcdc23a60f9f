//! Strategic regions read line by line with a regular expression, each taking its
//! states out of a pool of templates.
use vstd::prelude::*;

pub mod statetemplates;

use crate::error::VicError;
use crate::save::cultures::{group, group_at, lines_view};
use crate::save::pattern::{first_captures, groups_view, regex_first};
use crate::text::{split_all, split_pieces, to_chars};
use crate::wrappers::{hex_of, hex_value};
use statetemplates::{hex_byte, lists_color, template_size_of, StateTemplate, TemplateView};

verus! {

broadcast use vstd::string::group_string_axioms;

/// A strategic region: its names, its color as the map files write it, its capital
/// province and the states it owns, placed one after the other from `offset` on.
#[derive(Debug)]
pub struct StrategicRegion {
    id: Option<usize>,
    name: Option<String>,
    color: Option<String>,
    capital: Option<[u8; 3]>,
    culture: Option<String>,
    states: Vec<StateTemplate>,
    offset: usize,
    ocean: bool,
}

pub ghost struct RegionView {
    pub id: Option<nat>,
    pub name: Option<Seq<char>>,
    pub color: Option<Seq<char>>,
    pub capital: Option<Seq<u8>>,
    pub culture: Option<Seq<char>>,
    pub states: Seq<TemplateView>,
    pub offset: nat,
    pub ocean: bool,
}

pub open spec fn text_view(s: Option<String>) -> Option<Seq<char>> {
    match s {
        Some(t) => Some(t@),
        None => None,
    }
}

pub open spec fn templates_view(v: Seq<StateTemplate>) -> Seq<TemplateView> {
    v.map_values(|t: StateTemplate| t@)
}

/// The templates of a pool, where each place may have been emptied.
pub open spec fn pool_view(p: Seq<Option<StateTemplate>>) -> Seq<Option<TemplateView>> {
    p.map_values(
        |o: Option<StateTemplate>|
            match o {
                Some(t) => Some(t@),
                None => None,
            },
    )
}

impl View for StrategicRegion {
    type V = RegionView;

    closed spec fn view(&self) -> RegionView {
        RegionView {
            id: match self.id {
                Some(n) => Some(n as nat),
                None => None,
            },
            name: text_view(self.name),
            color: text_view(self.color),
            capital: match self.capital {
                Some(c) => Some(c@),
                None => None,
            },
            culture: text_view(self.culture),
            states: templates_view(self.states@),
            offset: self.offset as nat,
            ocean: self.ocean,
        }
    }
}

/// The pattern of the lines of a strategic region.
pub open spec fn region_pattern() -> Seq<char> {
    "^([a-z_0-9]+) = \\{|^\\tgraphical_culture = \"([a-z_]+)\"|^\\tcapital_province = x([0-9a-fA-F]+)|^\\tmap_color = \\{ ([0-9.\\s]+) \\}|^\\tstates = \\{ ([A-Za-z_\\s0-9]+) \\}|^\\}"@
}

/// The provinces of the templates, one after the other.
pub open spec fn sizes_sum(s: Seq<TemplateView>) -> nat
    decreases s.len(),
{
    if s.len() == 0 {
        0
    } else {
        sizes_sum(s.drop_last()) + template_size_of(s.last())
    }
}

/// The provinces of the templates left in a pool.
pub open spec fn pool_sum(p: Seq<Option<TemplateView>>) -> nat
    decreases p.len(),
{
    if p.len() == 0 {
        0
    } else {
        pool_sum(p.drop_last()) + match p.last() {
            Some(t) => template_size_of(t),
            None => 0,
        }
    }
}

/// The first place, from `j` on, that holds a template named `name`.
pub open spec fn find_named(p: Seq<Option<TemplateView>>, name: Seq<char>, j: nat) -> Option<nat>
    decreases p.len() - j,
{
    if j >= p.len() {
        None
    } else if p[j as int] is Some && p[j as int]->0.name == name {
        Some(j)
    } else {
        find_named(p, name, j + 1)
    }
}

/// Taking the templates named in turn out of a pool: the pool and what was taken, or
/// the pool where a named template lies on the other side of the coast.
pub ghost enum TakeStep {
    Go(Seq<Option<TemplateView>>, Seq<TemplateView>),
    Fail(Seq<Option<TemplateView>>),
}

pub open spec fn take_names(p: Seq<Option<TemplateView>>, ns: Seq<Seq<char>>, ocean: bool, n: nat) -> TakeStep
    decreases n,
{
    if n == 0 {
        TakeStep::Go(p, Seq::empty())
    } else {
        match take_names(p, ns, ocean, (n - 1) as nat) {
            TakeStep::Go(q, taken) => match find_named(q, ns[n - 1], 0) {
                None => TakeStep::Go(q, taken),
                Some(j) => {
                    let t = q[j as int]->0;
                    if t.ocean != ocean {
                        TakeStep::Fail(q)
                    } else {
                        TakeStep::Go(q.update(j as int, None), taken.push(t))
                    }
                },
            },
            TakeStep::Fail(q) => TakeStep::Fail(q),
        }
    }
}

/// The key by which the states of a region are ordered: the id that the game assigns.
pub open spec fn id_key(t: TemplateView) -> nat {
    match t.id {
        Some(a) => a.0,
        None => 0,
    }
}

/// `t` put into `s` after every template whose key is not above its own.
pub open spec fn insert_by_id(s: Seq<TemplateView>, t: TemplateView) -> Seq<TemplateView>
    decreases s.len(),
{
    if s.len() == 0 {
        seq![t]
    } else if id_key(s.last()) <= id_key(t) {
        s.push(t)
    } else {
        insert_by_id(s.drop_last(), t).push(s.last())
    }
}

/// The templates ordered by key, those with equal keys in the order they came.
pub open spec fn sort_by_id(s: Seq<TemplateView>) -> Seq<TemplateView>
    decreases s.len(),
{
    if s.len() == 0 {
        s
    } else {
        insert_by_id(sort_by_id(s.drop_last()), s.last())
    }
}

/// Each template placed after the provinces of those before it.
pub open spec fn placed(s: Seq<TemplateView>) -> Seq<TemplateView> {
    Seq::new(s.len(), |i: int| TemplateView { offset: Some(sizes_sum(s.take(i))), ..s[i] })
}

pub open spec fn all_ids(s: Seq<TemplateView>) -> bool {
    forall|i: int| 0 <= i < s.len() ==> (#[trigger] s[i]).id is Some
}

/// The color of the capital written as hex digits: the first six of them.
pub open spec fn capital_rgb(c: Seq<char>) -> Option<Seq<u8>> {
    if c.len() >= 6 {
        match (hex_byte(c[0], c[1]), hex_byte(c[2], c[3]), hex_byte(c[4], c[5])) {
            (Some(r), Some(g), Some(b)) => Some(seq![r, g, b]),
            _ => None,
        }
    } else {
        None
    }
}

/// The first state, from `j` on, that lists the province `c`.
pub open spec fn first_holding(s: Seq<TemplateView>, c: Seq<u8>, j: nat) -> Option<nat>
    decreases s.len() - j,
{
    if j >= s.len() {
        None
    } else if lists_color(s[j as int], c) {
        Some(j)
    } else {
        first_holding(s, c, j + 1)
    }
}


/// The place found by name is the first from `j` on holding a template of that name,
/// and none is found where no place from `j` on holds one.
pub proof fn lemma_find_named(p: Seq<Option<TemplateView>>, name: Seq<char>, j: nat)
    ensures
        find_named(p, name, j) matches Some(k) ==> j <= k < p.len() && p[k as int] is Some
            && p[k as int]->0.name == name && forall|m: int|
            j <= m < k ==> !((#[trigger] p[m]) is Some && p[m]->0.name == name),
        find_named(p, name, j) is None ==> forall|m: int|
            j <= m < p.len() ==> !((#[trigger] p[m]) is Some && p[m]->0.name == name),
    decreases p.len() - j,
{
    if j < p.len() {
        lemma_find_named(p, name, j + 1);
    }
}

proof fn lemma_pool_update(p: Seq<Option<TemplateView>>, j: int)
    requires
        0 <= j < p.len(),
        p[j] is Some,
    ensures
        pool_sum(p.update(j, None)) + template_size_of(p[j]->0) == pool_sum(p),
    decreases p.len(),
{
    let q = p.update(j, None);
    if j < p.len() - 1 {
        assert(q.drop_last() =~= p.drop_last().update(j, None));
        lemma_pool_update(p.drop_last(), j);
    } else {
        assert(q.drop_last() =~= p.drop_last());
    }
}

proof fn lemma_take_sum(p: Seq<Option<TemplateView>>, ns: Seq<Seq<char>>, ocean: bool, n: nat)
    ensures
        take_names(p, ns, ocean, n) matches TakeStep::Go(q, taken) ==> pool_sum(q) + sizes_sum(
            taken,
        ) == pool_sum(p),
        take_names(p, ns, ocean, n) matches TakeStep::Fail(q) ==> pool_sum(q) <= pool_sum(p),
    decreases n,
{
    if n > 0 {
        lemma_take_sum(p, ns, ocean, (n - 1) as nat);
        match take_names(p, ns, ocean, (n - 1) as nat) {
            TakeStep::Go(q, taken) => {
                lemma_find_named(q, ns[n - 1], 0);
                match find_named(q, ns[n - 1], 0) {
                    Some(j) => {
                        lemma_pool_update(q, j as int);
                        assert(taken.push(q[j as int]->0).drop_last() =~= taken);
                    },
                    None => {},
                }
            },
            TakeStep::Fail(q) => {},
        }
    }
}

proof fn lemma_insert_sum(s: Seq<TemplateView>, t: TemplateView)
    ensures
        sizes_sum(insert_by_id(s, t)) == sizes_sum(s) + template_size_of(t),
        insert_by_id(s, t).len() == s.len() + 1,
    decreases s.len(),
{
    if s.len() == 0 {
        assert(seq![t].drop_last() =~= Seq::<TemplateView>::empty());
        assert(seq![t].last() == t);
        assert(sizes_sum(Seq::<TemplateView>::empty()) == 0);
    } else if id_key(s.last()) <= id_key(t) {
        assert(s.push(t).drop_last() =~= s);
    } else {
        lemma_insert_sum(s.drop_last(), t);
        let u = insert_by_id(s.drop_last(), t);
        assert(u.push(s.last()).drop_last() =~= u);
    }
}

proof fn lemma_sort_sum(s: Seq<TemplateView>)
    ensures
        sizes_sum(sort_by_id(s)) == sizes_sum(s),
        sort_by_id(s).len() == s.len(),
    decreases s.len(),
{
    if s.len() > 0 {
        lemma_sort_sum(s.drop_last());
        lemma_insert_sum(sort_by_id(s.drop_last()), s.last());
    }
}

proof fn lemma_same_sizes(a: Seq<TemplateView>, b: Seq<TemplateView>)
    requires
        a.len() == b.len(),
        forall|i: int| 0 <= i < a.len() ==> template_size_of(#[trigger] a[i]) == template_size_of(b[i]),
    ensures
        sizes_sum(a) == sizes_sum(b),
    decreases a.len(),
{
    if a.len() > 0 {
        lemma_same_sizes(a.drop_last(), b.drop_last());
        assert(template_size_of(a[a.len() - 1]) == template_size_of(b[b.len() - 1]));
    }
}

proof fn lemma_prefix_sum(s: Seq<TemplateView>, i: int)
    requires
        0 <= i <= s.len(),
    ensures
        sizes_sum(s.take(i)) <= sizes_sum(s),
    decreases s.len() - i,
{
    if i < s.len() {
        lemma_prefix_sum(s, i + 1);
        assert(s.take(i + 1).drop_last() =~= s.take(i));
    } else {
        assert(s.take(i) =~= s);
    }
}

/// The states of a region lie one after the other from its own place on, within the
/// range of a `usize`.
pub open spec fn laid_end_to_end(offset: nat, s: Seq<TemplateView>) -> bool {
    &&& offset + sizes_sum(s) <= usize::MAX
    &&& forall|i: int| 0 <= i < s.len() ==> (#[trigger] s[i]).offset == Some(sizes_sum(s.take(i)))
}

proof fn lemma_placed(x: Seq<TemplateView>, offset: nat)
    requires
        offset + sizes_sum(x) <= usize::MAX,
    ensures
        laid_end_to_end(offset, placed(x)),
        sizes_sum(placed(x)) == sizes_sum(x),
{
    let s = placed(x);
    lemma_same_sizes(s, x);
    assert forall|i: int| 0 <= i < s.len() implies (#[trigger] s[i]).offset == Some(
        sizes_sum(s.take(i)),
    ) by {
        lemma_same_sizes(s.take(i), x.take(i));
    }
}

proof fn lemma_fail_stays(p: Seq<Option<TemplateView>>, ns: Seq<Seq<char>>, ocean: bool, n: nat, m: nat)
    requires
        n <= m,
        take_names(p, ns, ocean, n) is Fail,
    ensures
        take_names(p, ns, ocean, m) == take_names(p, ns, ocean, n),
    decreases m - n,
{
    if n < m {
        lemma_fail_stays(p, ns, ocean, n, (m - 1) as nat);
    }
}

/// The state found for a province is the first from `j` on that lists it, and none is
/// found where no state from `j` on lists it.
pub proof fn lemma_first_holding(s: Seq<TemplateView>, c: Seq<u8>, j: nat)
    ensures
        first_holding(s, c, j) matches Some(k) ==> j <= k < s.len() && lists_color(s[k as int], c)
            && forall|m: int| j <= m < k ==> !lists_color(#[trigger] s[m], c),
        first_holding(s, c, j) is None ==> forall|m: int|
            j <= m < s.len() ==> !lists_color(#[trigger] s[m], c),
    decreases s.len() - j,
{
    if j < s.len() {
        lemma_first_holding(s, c, j + 1);
    }
}

proof fn lemma_line_pool(r: RegionView, p: Seq<Option<TemplateView>>, b: Seq<Option<Seq<char>>>)
    ensures
        region_line(r, p, b) matches RegionStep::Go(g, q) ==> pool_sum(q) + sizes_sum(g.states)
            <= pool_sum(p) + sizes_sum(r.states),
        region_line(r, p, b) matches RegionStep::Done(g, q) ==> pool_sum(q) + sizes_sum(g.states)
            <= pool_sum(p) + sizes_sum(r.states),
{
    match group(b, 5) {
        Some(c) => {
            let ns = split_all(c, ' ');
            lemma_take_sum(p, ns, r.ocean, ns.len());
            match take_names(p, ns, r.ocean, ns.len()) {
                TakeStep::Go(q, taken) => {
                    lemma_sort_sum(taken);
                    let x = sort_by_id(taken);
                    lemma_same_sizes(placed(x), x);
                },
                _ => {},
            }
        },
        None => {},
    }
}

/// Reading a region from a pool of templates never counts a province twice: the
/// provinces left in the pool and those of the region read add up to no more than
/// those the pool and the region started with.
pub proof fn law_region_pool(r: RegionView, p: Seq<Option<TemplateView>>, lines: Seq<Seq<char>>, i: nat)
    ensures
        region_lines(r, p, lines, i).0 matches RegionStep::Go(g, q) ==> pool_sum(q) + sizes_sum(
            g.states,
        ) <= pool_sum(p) + sizes_sum(r.states),
        region_lines(r, p, lines, i).0 matches RegionStep::Done(g, q) ==> pool_sum(q) + sizes_sum(
            g.states,
        ) <= pool_sum(p) + sizes_sum(r.states),
    decreases lines.len() - i,
{
    if i < lines.len() {
        match regex_first(region_pattern(), lines[i as int]) {
            None => law_region_pool(r, p, lines, i + 1),
            Some(b) => {
                lemma_line_pool(r, p, b);
                match region_line(r, p, b) {
                    RegionStep::Go(r2, p2) => law_region_pool(r2, p2, lines, i + 1),
                    _ => {},
                }
            },
        }
    }
}

/// The first place of the pool that holds a template named `name`.
fn find_in_pool(pool: &Vec<Option<StateTemplate>>, name: &String) -> (r: Option<usize>)
    ensures
        r matches Some(j) ==> find_named(pool_view(pool@), name@, 0) == Some(j as nat),
        r is None ==> find_named(pool_view(pool@), name@, 0) is None,
{
    let ghost pv = pool_view(pool@);
    let mut j: usize = 0;
    while j < pool.len()
        invariant
            pv == pool_view(pool@),
            j <= pool@.len(),
            find_named(pv, name@, 0) == find_named(pv, name@, j as nat),
        decreases pool@.len() - j,
    {
        assert(pv[j as int] == match pool@[j as int] {
            Some(t) => Some(t@),
            None => None,
        });
        match &pool[j] {
            Some(t) => {
                if t.is_named(name) {
                    return Some(j);
                }
            },
            None => {},
        }
        j = j + 1;
    }
    None
}

/// Takes the templates named in turn out of the pool; an error where one lies on the
/// other side of the coast than `ocean`.
fn take_named(pool: &mut Vec<Option<StateTemplate>>, names: &Vec<String>, ocean: bool) -> (r: Result<
    Vec<StateTemplate>,
    VicError,
>)
    ensures
        match take_names(pool_view(old(pool)@), lines_view(names@), ocean, names@.len()) {
            TakeStep::Go(q, taken) => r matches Ok(v) && templates_view(v@) == taken && pool_view(
                final(pool)@,
            ) == q,
            TakeStep::Fail(q) => r is Err && pool_view(final(pool)@) == q,
        },
        r matches Err(e) ==> e is MapError,
{
    let ghost nv = lines_view(names@);
    let ghost p0 = pool_view(pool@);
    let mut taken: Vec<StateTemplate> = Vec::new();
    let mut i: usize = 0;
    assert(templates_view(taken@) =~= Seq::<TemplateView>::empty());
    while i < names.len()
        invariant
            nv == lines_view(names@),
            nv.len() == names@.len(),
            p0 == pool_view(old(pool)@),
            i <= names@.len(),
            take_names(p0, nv, ocean, i as nat) == TakeStep::Go(
                pool_view(pool@),
                templates_view(taken@),
            ),
        decreases names@.len() - i,
    {
        let ghost q = pool_view(pool@);
        let ghost tv = templates_view(taken@);
        assert(nv[i as int] == names@[i as int]@);
        match find_in_pool(pool, &names[i]) {
            None => {},
            Some(j) => {
                proof {
                    lemma_find_named(q, nv[i as int], 0);
                }
                assert(q[j as int] == match pool@[j as int] {
                    Some(t) => Some(t@),
                    None => None,
                });
                let mismatch = match &pool[j] {
                    Some(t) => t.is_ocean() != ocean,
                    None => false,
                };
                if mismatch {
                    assert(find_named(q, nv[i as int], 0) == Some(j as nat));
                    assert(q[j as int]->0.ocean != ocean);
                    assert(take_names(p0, nv, ocean, i as nat) == TakeStep::Go(q, tv));
                    assert(take_names(p0, nv, ocean, (i + 1) as nat) == TakeStep::Fail(q));
                    proof {
                        lemma_fail_stays(p0, nv, ocean, (i + 1) as nat, nv.len());
                    }
                    return Err(
                        VicError::MapError(
                            String::from_str(
                                "a strategic region and one of its states disagree on being ocean",
                            ),
                        ),
                    );
                }
                let slot = pool.remove(j);
                pool.insert(j, None);
                assert(pool_view(pool@) =~= q.update(j as int, None));
                match slot {
                    Some(t) => {
                        taken.push(t);
                        assert(templates_view(taken@) =~= tv.push(q[j as int]->0));
                    },
                    None => {},
                }
            },
        }
        assert(take_names(p0, nv, ocean, (i + 1) as nat) == TakeStep::Go(
            pool_view(pool@),
            templates_view(taken@),
        ));
        i = i + 1;
    }
    Ok(taken)
}

proof fn lemma_insert_at(s: Seq<TemplateView>, t: TemplateView, k: int)
    requires
        0 <= k <= s.len(),
        forall|i: int| k <= i < s.len() ==> id_key(#[trigger] s[i]) > id_key(t),
        k == 0 || id_key(s[k - 1]) <= id_key(t),
    ensures
        insert_by_id(s, t) == s.insert(k, t),
    decreases s.len(),
{
    if s.len() == 0 {
        assert(s.insert(k, t) =~= seq![t]);
    } else if k == s.len() {
        assert(s.insert(k, t) =~= s.push(t));
    } else {
        assert(id_key(s[s.len() - 1]) > id_key(t));
        lemma_insert_at(s.drop_last(), t, k);
        assert(s.drop_last().insert(k, t).push(s.last()) =~= s.insert(k, t));
    }
}

/// The states ordered by the id that the game assigns, those with equal ids in the
/// order they came.
fn sort_states(v: Vec<StateTemplate>) -> (r: Vec<StateTemplate>)
    requires
        v@.len() < 2 || all_ids(templates_view(v@)),
    ensures
        templates_view(r@) == sort_by_id(templates_view(v@)),
{
    let ghost sv = templates_view(v@);
    if v.len() < 2 {
        proof {
            if sv.len() == 1 {
                assert(sv.drop_last() =~= Seq::<TemplateView>::empty());
                assert(sort_by_id(sv.drop_last()) =~= Seq::<TemplateView>::empty());
                assert(sort_by_id(sv) =~= sv);
            }
        }
        return v;
    }
    let mut rest = v;
    let mut out: Vec<StateTemplate> = Vec::new();
    let ghost mut done: int = 0;
    assert(templates_view(rest@) =~= sv.skip(0));
    assert(sv.take(0) =~= Seq::<TemplateView>::empty());
    assert(templates_view(out@) =~= sort_by_id(sv.take(0)));
    while rest.len() > 0
        invariant
            all_ids(sv),
            0 <= done <= sv.len(),
            done + rest@.len() == sv.len(),
            templates_view(rest@) == sv.skip(done),
            templates_view(out@) == sort_by_id(sv.take(done)),
            all_ids(templates_view(out@)),
            out@.len() == done,
        decreases rest@.len(),
    {
        let ghost ov = templates_view(out@);
        assert(templates_view(rest@)[0] == rest@[0]@);
        let ghost rv = templates_view(rest@);
        let t = rest.remove(0);
        assert(t@ == sv[done]);
        assert(templates_view(rest@) =~= rv.skip(1));
        assert(rv.skip(1) =~= sv.skip(done + 1));
        let k = t.id().0;
        assert forall|i: int| 0 <= i < out@.len() implies (#[trigger] out@[i])@.id is Some by {
            assert(ov[i] == out@[i]@);
        }
        let mut pos = out.len();
        while pos > 0 && out[pos - 1].id().0 > k
            invariant
                pos <= out@.len(),
                ov == templates_view(out@),
                all_ids(ov),
                forall|i: int| 0 <= i < out@.len() ==> (#[trigger] out@[i])@.id is Some,
                k == id_key(t@),
                forall|i: int| pos <= i < ov.len() ==> id_key(#[trigger] ov[i]) > k,
            decreases pos,
        {
            assert(ov[pos - 1] == out@[pos - 1]@);
            pos = pos - 1;
        }
        proof {
            if pos > 0 {
                assert(ov[pos - 1] == out@[pos - 1]@);
            }
            lemma_insert_at(ov, t@, pos as int);
            assert(sv.take(done + 1).drop_last() =~= sv.take(done));
            assert(sv.take(done + 1).last() == sv[done]);
        }
        out.insert(pos, t);
        assert(templates_view(out@) =~= ov.insert(pos as int, t@));
        proof {
            done = done + 1;
            assert(templates_view(rest@) =~= sv.skip(done));
        }
    }
    assert(sv.take(done) =~= sv);
    out
}

/// The states placed one after the other from the first province on.
fn place_states(v: Vec<StateTemplate>) -> (r: Vec<StateTemplate>)
    requires
        sizes_sum(templates_view(v@)) <= usize::MAX,
    ensures
        templates_view(r@) == placed(templates_view(v@)),
{
    let ghost sv = templates_view(v@);
    let mut rest = v;
    let mut out: Vec<StateTemplate> = Vec::new();
    let mut sum: usize = 0;
    let ghost mut done: int = 0;
    assert(templates_view(rest@) =~= sv.skip(0));
    assert(templates_view(out@) =~= placed(sv).take(0));
    assert(sv.take(0) =~= Seq::<TemplateView>::empty());
    while rest.len() > 0
        invariant
            0 <= done <= sv.len(),
            done + rest@.len() == sv.len(),
            templates_view(rest@) == sv.skip(done),
            templates_view(out@) == placed(sv).take(done),
            sum == sizes_sum(sv.take(done)),
            sizes_sum(sv) <= usize::MAX,
        decreases rest@.len(),
    {
        assert(templates_view(rest@)[0] == rest@[0]@);
        let ghost rv = templates_view(rest@);
        let mut t = rest.remove(0);
        assert(t@ == sv[done]);
        assert(templates_view(rest@) =~= rv.skip(1));
        assert(rv.skip(1) =~= sv.skip(done + 1));
        proof {
            assert(sv.take(done + 1).drop_last() =~= sv.take(done));
            lemma_prefix_sum(sv, done + 1);
        }
        t.set_offset(sum);
        let size = t.size();
        let ghost ov = templates_view(out@);
        assert(placed(sv)[done] == t@);
        out.push(t);
        assert(templates_view(out@) =~= ov.push(placed(sv)[done]));
        assert(templates_view(out@) =~= placed(sv).take(done + 1));
        sum = sum + size;
        proof {
            done = done + 1;
            assert(templates_view(rest@) =~= sv.skip(done));
        }
    }
    assert(placed(sv).take(done) =~= placed(sv));
    out
}

/// Reading a region: going, done (each with the region and what is left in the
/// pool), stopped where a state lies on the other side of the coast (with the pool as
/// it was left), or stuck at a capital that is not a color or at states to order that
/// lack an id.
pub ghost enum RegionStep {
    Go(RegionView, Seq<Option<TemplateView>>),
    Done(RegionView, Seq<Option<TemplateView>>),
    Fail(Seq<Option<TemplateView>>),
    Stuck,
}

/// The first match of a line read into the region, taking its states out of `p`.
pub open spec fn region_line(r: RegionView, p: Seq<Option<TemplateView>>, b: Seq<Option<Seq<char>>>) -> RegionStep {
    if group(b, 0) == Some("}"@) {
        RegionStep::Done(r, p)
    } else {
        let r1 = match group(b, 1) {
            Some(c) => RegionView { name: Some(c), ..r },
            None => r,
        };
        let r2 = match group(b, 2) {
            Some(c) => RegionView { culture: Some(c), ..r1 },
            None => r1,
        };
        match group(b, 3) {
            Some(c) if capital_rgb(c) is None => RegionStep::Stuck,
            _ => {
                let r3 = match group(b, 3) {
                    Some(c) => RegionView { capital: capital_rgb(c), ..r2 },
                    None => r2,
                };
                let r4 = match group(b, 4) {
                    Some(c) => RegionView { color: Some(c), ..r3 },
                    None => r3,
                };
                match group(b, 5) {
                    None => RegionStep::Go(r4, p),
                    Some(c) => {
                        let ns = split_all(c, ' ');
                        match take_names(p, ns, r.ocean, ns.len()) {
                            TakeStep::Fail(q) => RegionStep::Fail(q),
                            TakeStep::Go(q, taken) => if taken.len() >= 2 && !all_ids(taken) {
                                RegionStep::Stuck
                            } else {
                                RegionStep::Go(RegionView { states: placed(sort_by_id(taken)), ..r4 }, q)
                            },
                        }
                    },
                }
            },
        }
    }
}

/// The region read from line `i` on, and the line after the one where reading
/// stopped; `Go` where the lines ran out first.
pub open spec fn region_lines(r: RegionView, p: Seq<Option<TemplateView>>, lines: Seq<Seq<char>>, i: nat) -> (RegionStep, nat)
    decreases lines.len() - i,
{
    if i >= lines.len() {
        (RegionStep::Go(r, p), i)
    } else {
        match regex_first(region_pattern(), lines[i as int]) {
            None => region_lines(r, p, lines, i + 1),
            Some(b) => match region_line(r, p, b) {
                RegionStep::Go(r2, p2) => region_lines(r2, p2, lines, i + 1),
                other => (other, i + 1),
            },
        }
    }
}

pub open spec fn blank_region(offset: nat, ocean: bool) -> RegionView {
    RegionView {
        id: None,
        name: None,
        color: None,
        capital: None,
        culture: None,
        states: Seq::empty(),
        offset,
        ocean,
    }
}

spec fn draft_view(
    name: Option<String>,
    culture: Option<String>,
    capital: Option<[u8; 3]>,
    color: Option<String>,
    states: Seq<StateTemplate>,
    offset: nat,
    ocean: bool,
) -> RegionView {
    RegionView {
        id: None,
        name: text_view(name),
        color: text_view(color),
        capital: match capital {
            Some(c) => Some(c@),
            None => None,
        },
        culture: text_view(culture),
        states: templates_view(states),
        offset,
        ocean,
    }
}

/// How reading a region ended: stuck, or an outcome.
enum ScanEnd {
    Stuck,
    Finished(Result<Option<StrategicRegion>, VicError>),
}

/// The byte that two hex digits spell.
fn hex_pair(a: char, b: char) -> (r: Option<u8>)
    ensures
        r == hex_byte(a, b),
{
    match (hex_of(a), hex_of(b)) {
        (Some(x), Some(y)) => {
            assert(x < 16 && y < 16) by {
                assert(hex_value(a) matches Some(d) ==> d < 16);
                assert(hex_value(b) matches Some(d) ==> d < 16);
            }
            Some(16 * x + y)
        },
        _ => None,
    }
}

/// The color of a capital written as hex digits.
fn capital_color(c: &String) -> (r: Option<[u8; 3]>)
    ensures
        r matches Some(x) ==> capital_rgb(c@) == Some(x@),
        r is None ==> capital_rgb(c@) is None,
{
    let v = to_chars(c.as_str());
    if v.len() < 6 {
        return None;
    }
    match (hex_pair(v[0], v[1]), hex_pair(v[2], v[3]), hex_pair(v[4], v[5])) {
        (Some(r), Some(g), Some(b)) => {
            let x = [r, g, b];
            assert(x@ =~= seq![r, g, b]);
            Some(x)
        },
        _ => None,
    }
}

/// Whether every state has been given an id.
fn have_ids(v: &Vec<StateTemplate>) -> (r: bool)
    ensures
        r == all_ids(templates_view(v@)),
{
    let ghost tv = templates_view(v@);
    let mut i: usize = 0;
    while i < v.len()
        invariant
            tv == templates_view(v@),
            i <= v@.len(),
            forall|j: int| 0 <= j < i ==> (#[trigger] tv[j]).id is Some,
        decreases v@.len() - i,
    {
        assert(tv[i as int] == v@[i as int]@);
        if !v[i].has_id() {
            return false;
        }
        i = i + 1;
    }
    true
}

/// A pool equal to `p`.
fn copy_pool(p: &Vec<Option<StateTemplate>>) -> (r: Vec<Option<StateTemplate>>)
    ensures
        pool_view(r@) == pool_view(p@),
{
    let mut out: Vec<Option<StateTemplate>> = Vec::new();
    let mut i: usize = 0;
    while i < p.len()
        invariant
            i <= p@.len(),
            pool_view(out@) == pool_view(p@).take(i as int),
        decreases p@.len() - i,
    {
        let slot = match &p[i] {
            Some(t) => Some(t.duplicate()),
            None => None,
        };
        let ghost before = pool_view(out@);
        out.push(slot);
        assert(pool_view(out@) =~= before.push(pool_view(p@)[i as int]));
        i = i + 1;
        assert(pool_view(out@) =~= pool_view(p@).take(i as int));
    }
    assert(pool_view(p@).take(i as int) =~= pool_view(p@));
    out
}

impl StrategicRegion {
    #[verifier::type_invariant]
    closed spec fn laid_out(self) -> bool {
        laid_end_to_end(self.offset as nat, templates_view(self.states@))
    }

    fn scan(data: &Vec<String>, at: &mut usize, states: &mut Vec<Option<StateTemplate>>, offset: usize, ocean: bool) -> (r: ScanEnd)
        requires
            *old(at) <= data@.len(),
            offset + pool_sum(pool_view(old(states)@)) <= usize::MAX,
        ensures
            ({
                let run = region_lines(
                    blank_region(offset as nat, ocean),
                    pool_view(old(states)@),
                    lines_view(data@),
                    *old(at) as nat,
                );
                &&& r is Stuck ==> run.0 is Stuck
                &&& r matches ScanEnd::Finished(Ok(Some(g))) ==> run.0 == RegionStep::Done(
                    g@,
                    pool_view(final(states)@),
                ) && *final(at) as nat == run.1
                &&& r matches ScanEnd::Finished(Ok(None)) ==> run.0 matches RegionStep::Go(_, q)
                    && q == pool_view(final(states)@)
                &&& r matches ScanEnd::Finished(Err(e)) ==> e is MapError && (run.0 matches RegionStep::Fail(
                    q,
                ) && q == pool_view(final(states)@))
            }),
    {
        let ghost lv = lines_view(data@);
        let ghost start = *at as nat;
        let ghost p0 = pool_view(states@);
        let mut name: Option<String> = None;
        let mut culture: Option<String> = None;
        let mut capital: Option<[u8; 3]> = None;
        let mut color: Option<String> = None;
        let mut laid: Vec<StateTemplate> = Vec::new();
        assert(templates_view(laid@) =~= Seq::<TemplateView>::empty());
        assert(draft_view(name, culture, capital, color, laid@, offset as nat, ocean) == blank_region(
            offset as nat,
            ocean,
        ));
        while *at < data.len()
            invariant
                lv == lines_view(data@),
                start == *old(at) as nat,
                p0 == pool_view(old(states)@),
                *at <= data@.len(),
                region_lines(blank_region(offset as nat, ocean), p0, lv, start) == region_lines(
                    draft_view(name, culture, capital, color, laid@, offset as nat, ocean),
                    pool_view(states@),
                    lv,
                    *at as nat,
                ),
                offset + pool_sum(pool_view(states@)) + sizes_sum(templates_view(laid@)) <= usize::MAX,
                laid_end_to_end(offset as nat, templates_view(laid@)),
            decreases data@.len() - *at,
        {
            let line = *at;
            *at = *at + 1;
            let found = first_captures(
                "^([a-z_0-9]+) = \\{|^\\tgraphical_culture = \"([a-z_]+)\"|^\\tcapital_province = x([0-9a-fA-F]+)|^\\tmap_color = \\{ ([0-9.\\s]+) \\}|^\\tstates = \\{ ([A-Za-z_\\s0-9]+) \\}|^\\}",
                data[line].as_str(),
            );
            let b = match found {
                None => continue,
                Some(b) => b,
            };
            let ghost bv = groups_view(b@);
            let ghost r0 = draft_view(name, culture, capital, color, laid@, offset as nat, ocean);
            let ghost q0 = pool_view(states@);
            assert(regex_first(region_pattern(), lv[line as int]) == Some(bv));
            let closing = match group_at(&b, 0) {
                Some(s) => *s == String::from_str("}"),
                None => false,
            };
            if closing {
                let g = StrategicRegion {
                    id: None,
                    name,
                    color,
                    capital,
                    culture,
                    states: laid,
                    offset,
                    ocean,
                };
                assert(g@ == r0);
                return ScanEnd::Finished(Ok(Some(g)));
            }
            match group_at(&b, 1) {
                Some(c) => name = Some(c.clone()),
                None => {},
            }
            match group_at(&b, 2) {
                Some(c) => culture = Some(c.clone()),
                None => {},
            }
            match group_at(&b, 3) {
                Some(c) => match capital_color(c) {
                    Some(x) => capital = Some(x),
                    None => return ScanEnd::Stuck,
                },
                None => {},
            }
            match group_at(&b, 4) {
                Some(c) => color = Some(c.clone()),
                None => {},
            }
            match group_at(&b, 5) {
                Some(c) => {
                    let names = split_pieces(c.as_str(), ' ');
                    assert(lines_view(names@) =~= split_all(c@, ' '));
                    proof {
                        lemma_take_sum(q0, lines_view(names@), ocean, names@.len());
                    }
                    let taken = match take_named(states, &names, ocean) {
                        Ok(v) => v,
                        Err(e) => {
                            return ScanEnd::Finished(Err(e));
                        },
                    };
                    if taken.len() >= 2 && !have_ids(&taken) {
                        return ScanEnd::Stuck;
                    }
                    let sorted = sort_states(taken);
                    proof {
                        lemma_sort_sum(templates_view(taken@));
                        lemma_placed(templates_view(sorted@), offset as nat);
                    }
                    laid = place_states(sorted);
                },
                None => {},
            }
            assert(region_line(r0, q0, bv) == RegionStep::Go(
                draft_view(name, culture, capital, color, laid@, offset as nat, ocean),
                pool_view(states@),
            ));
        }
        ScanEnd::Finished(Ok(None))
    }

    /// Reads a region from the lines of the map files, from line `*at` on, up to its
    /// closing brace, taking the states it names out of the pool `states`; `None` where
    /// the lines run out first. A map error where a state it names lies on the other
    /// side of the coast. The color is kept as the map files write it.
    pub fn new(
        data: &Vec<String>,
        at: &mut usize,
        states: &mut Vec<Option<StateTemplate>>,
        offset: usize,
        ocean: bool,
    ) -> (r: Result<Option<Self>, VicError>)
        requires
            *old(at) <= data@.len(),
            offset + pool_sum(pool_view(old(states)@)) <= usize::MAX,
            !(region_lines(
                blank_region(offset as nat, ocean),
                pool_view(old(states)@),
                lines_view(data@),
                *old(at) as nat,
            ).0 is Stuck),
        ensures
            ({
                let run = region_lines(
                    blank_region(offset as nat, ocean),
                    pool_view(old(states)@),
                    lines_view(data@),
                    *old(at) as nat,
                );
                &&& run.0 matches RegionStep::Done(v, q) ==> (r matches Ok(Some(g)) && g@ == v && q
                    == pool_view(final(states)@) && *final(at) as nat == run.1 && laid_end_to_end(
                    g@.offset,
                    g@.states,
                ))
                &&& run.0 matches RegionStep::Go(_, q) ==> (r matches Ok(None) && q == pool_view(
                    final(states)@,
                ))
                &&& run.0 matches RegionStep::Fail(q) ==> (r matches Err(e) && e is MapError && q
                    == pool_view(final(states)@))
            }),
    {
        match Self::scan(data, at, states, offset, ocean) {
            ScanEnd::Finished(r) => {
                match &r {
                    Ok(Some(g)) => {
                        proof {
                            use_type_invariant(g);
                        }
                    },
                    _ => {},
                }
                r
            },
            ScanEnd::Stuck => Ok(None),
        }
    }

    /// As `new`, where no capital fails to be a color and no states to order lack an
    /// id; `None` where one does, with the pool and the line left as they were.
    pub fn read(
        data: &Vec<String>,
        at: &mut usize,
        states: &mut Vec<Option<StateTemplate>>,
        offset: usize,
        ocean: bool,
    ) -> (r: Option<Result<Option<Self>, VicError>>)
        requires
            *old(at) <= data@.len(),
            offset + pool_sum(pool_view(old(states)@)) <= usize::MAX,
        ensures
            ({
                let run = region_lines(
                    blank_region(offset as nat, ocean),
                    pool_view(old(states)@),
                    lines_view(data@),
                    *old(at) as nat,
                );
                &&& run.0 is Stuck ==> r is None && final(states)@ == old(states)@ && *final(at)
                    == *old(at)
                &&& run.0 matches RegionStep::Done(v, q) ==> (r matches Some(Ok(Some(g))) && g@ == v
                    && q == pool_view(final(states)@) && *final(at) as nat == run.1
                    && laid_end_to_end(g@.offset, g@.states))
                &&& run.0 matches RegionStep::Go(_, q) ==> (r matches Some(Ok(None)) && q
                    == pool_view(final(states)@))
                &&& run.0 matches RegionStep::Fail(q) ==> (r matches Some(Err(e)) && e is MapError
                    && q == pool_view(final(states)@))
            }),
    {
        let mut probe_at = *at;
        let mut probe = copy_pool(states);
        match Self::scan(data, &mut probe_at, &mut probe, offset, ocean) {
            ScanEnd::Stuck => None,
            ScanEnd::Finished(_) => Some(Self::new(data, at, states, offset, ocean)),
        }
    }

    pub fn set_id(&mut self, id: usize)
        ensures
            final(self)@ == (RegionView { id: Some(id as nat), ..old(self)@ }),
    {
        proof {
            use_type_invariant(&*self);
        }
        self.id = Some(id);
    }

    /// The provinces of all its states.
    pub fn size(&self) -> (r: usize)
        ensures
            r as nat == sizes_sum(self@.states),
    {
        proof {
            use_type_invariant(self);
        }
        let ghost sv = self@.states;
        let mut sum: usize = 0;
        let mut i: usize = 0;
        while i < self.states.len()
            invariant
                sv == templates_view(self.states@),
                i <= sv.len(),
                sum == sizes_sum(sv.take(i as int)),
                sizes_sum(sv) <= usize::MAX,
            decreases sv.len() - i,
        {
            proof {
                assert(sv.take(i + 1).drop_last() =~= sv.take(i as int));
                lemma_prefix_sum(sv, i + 1);
            }
            assert(sv[i as int] == self.states@[i as int]@);
            sum = sum + self.states[i].size();
            i = i + 1;
        }
        assert(sv.take(i as int) =~= sv);
        sum
    }

    /// The first of its states that lists the province `color`.
    fn holding(&self, color: [u8; 3]) -> (r: Option<usize>)
        ensures
            r matches Some(i) ==> first_holding(self@.states, color@, 0) == Some(i as nat),
            r is None ==> first_holding(self@.states, color@, 0) is None,
    {
        let ghost sv = self@.states;
        let mut i: usize = 0;
        while i < self.states.len()
            invariant
                sv == templates_view(self.states@),
                i <= sv.len(),
                first_holding(sv, color@, 0) == first_holding(sv, color@, i as nat),
            decreases sv.len() - i,
        {
            assert(sv[i as int] == self.states@[i as int]@);
            if self.states[i].contains(color) {
                return Some(i);
            }
            i = i + 1;
        }
        None
    }

    /// The place and the size of the first of its states that lists the province
    /// `color`, its place counted from the first province of the map.
    pub fn get_number(&self, color: [u8; 3]) -> (r: Result<Option<(usize, usize)>, VicError>)
        ensures
            r matches Ok(x) && match first_holding(self@.states, color@, 0) {
                Some(i) => x matches Some(p) && p.0 as nat == self@.offset + sizes_sum(
                    self@.states.take(i as int),
                ) && p.1 as nat == template_size_of(self@.states[i as int]),
                None => x is None,
            },
    {
        proof {
            use_type_invariant(self);
        }
        match self.holding(color) {
            Some(i) => {
                let ghost sv = self@.states;
                proof {
                    lemma_first_holding(sv, color@, 0);
                    lemma_prefix_sum(sv, i as int);
                }
                assert(sv[i as int] == self.states@[i as int]@);
                let state = &self.states[i];
                match state.offset() {
                    Ok(off) => Ok(Some((self.offset + off, state.size()))),
                    Err(e) => Err(e),
                }
            },
            None => Ok(None),
        }
    }

    /// The color of the region where the province `color` lies in it: in the state
    /// `known` where one is given, else in any of its states.
    pub fn get_color(&self, color: [u8; 3], known: Option<&StateTemplate>) -> (r: Option<String>)
        ensures
            r matches Some(c) ==> self@.color == Some(c@),
            r is Some <==> self@.color is Some && match known {
                Some(t) => lists_color(t@, color@),
                None => first_holding(self@.states, color@, 0) is Some,
            },
    {
        let found = match known {
            Some(state) => state.contains(color),
            None => self.holding(color).is_some(),
        };
        if found {
            self.color.clone()
        } else {
            None
        }
    }

    /// The first of its states that lists the province `color`.
    pub fn get_state(&self, color: [u8; 3]) -> (r: Option<&StateTemplate>)
        ensures
            match first_holding(self@.states, color@, 0) {
                Some(i) => r matches Some(t) && t@ == self@.states[i as int],
                None => r is None,
            },
    {
        match self.holding(color) {
            Some(i) => {
                proof {
                    lemma_first_holding(self@.states, color@, 0);
                }
                assert(self@.states[i as int] == self.states@[i as int]@);
                Some(&self.states[i])
            },
            None => None,
        }
    }

    pub fn states(&self) -> (r: &Vec<StateTemplate>)
        ensures
            templates_view(r@) == self@.states,
    {
        &self.states
    }
}

} // verus!
