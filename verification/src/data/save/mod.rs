//! A save: its states with the pops that live in them, its countries and its
//! cultures, and what the map drawing asks of them.
pub mod coloring;
pub mod countries;
pub mod cultures;
pub mod states;
pub mod tallies;

use vstd::prelude::*;

use crate::data::save2::pops::{Pop, PopView};
use crate::error::VicError;
use crate::record::{
    labelled_accepts, labelled_record, read_labelled, table_view, text_slot, FieldDef, FieldKind,
    ValPolicy,
};
use crate::scanner::{
    utf8_text,
    database_ok, map_items, prepare_ok, spec_consume_vec, DataFormat, DataStructure, DataView,
    GetMapData, GetMapFile, MapIterator,
};
use countries::{Country, CountryView};
use cultures::{Culture, CultureView};
use states::{culture_fold, religion_fold, total_fold, totals_fit, State, StateView};
use crate::draw::Coloring;
use crate::map::index::pack;
use crate::map::{area_of, GameMap};

verus! {

broadcast use vstd::string::group_string_axioms;

/// Entries that carry an id, by which a save keeps the last of each.
pub trait Keyed: View + Sized {
    spec fn key_of(v: Self::V) -> nat;

    fn key(&self) -> (r: usize)
        ensures
            r as nat == Self::key_of(self@),
    ;
}

impl Keyed for State {
    open spec fn key_of(v: StateView) -> nat {
        v.id
    }

    fn key(&self) -> (r: usize) {
        self.id()
    }
}

impl Keyed for Country {
    open spec fn key_of(v: CountryView) -> nat {
        v.id
    }

    fn key(&self) -> (r: usize) {
        self.id()
    }
}

impl Keyed for Culture {
    open spec fn key_of(v: CultureView) -> nat {
        v.id
    }

    fn key(&self) -> (r: usize) {
        self.id()
    }
}

pub open spec fn views<T: View>(v: Seq<T>) -> Seq<T::V> {
    v.map_values(|x: T| x@)
}

/// The entries, each left out where a later one has the same id (as a map keyed by
/// id keeps them).
pub open spec fn last_of_each<T: Keyed>(s: Seq<T::V>) -> Seq<T::V>
    decreases s.len(),
{
    if s.len() == 0 {
        s
    } else {
        let rest = last_of_each::<T>(s.skip(1));
        if exists|j: int| 1 <= j < s.len() && T::key_of(#[trigger] s[j]) == T::key_of(s[0]) {
            rest
        } else {
            seq![s[0]] + rest
        }
    }
}

fn has_key(seen: &Vec<usize>, k: usize) -> (r: bool)
    ensures
        r == seen@.contains(k),
{
    let mut i: usize = 0;
    while i < seen.len()
        invariant
            i <= seen@.len(),
            forall|j: int| 0 <= j < i ==> seen@[j] != k,
        decreases seen@.len() - i,
    {
        if seen[i] == k {
            assert(seen@[i as int] == k);
            return true;
        }
        i = i + 1;
    }
    false
}

/// Keeps the last entry of each id, in the order they come.
fn keep_last<T: Keyed>(v: Vec<T>) -> (r: Vec<T>)
    ensures
        views(r@) == last_of_each::<T>(views(v@)),
{
    let ghost sv = views(v@);
    let n = v.len();
    let mut v = v;
    let mut rev: Vec<T> = Vec::new();
    let mut seen: Vec<usize> = Vec::new();
    assert(sv.skip(n as int) =~= Seq::<T::V>::empty());
    assert(views(rev@) =~= last_of_each::<T>(sv.skip(n as int)).reverse());
    while v.len() > 0
        invariant
            v@.len() <= n,
            n == sv.len(),
            views(v@) == sv.take(v@.len() as int),
            views(rev@) == last_of_each::<T>(sv.skip(v@.len() as int)).reverse(),
            forall|k: usize|
                seen@.contains(k) <==> exists|j: int|
                    v@.len() <= j < n && T::key_of(#[trigger] sv[j]) == k as nat,
        decreases v@.len(),
    {
        let ghost i = v@.len() as int;
        assert(views(v@)[i - 1] == v@[i - 1]@);
        let t = v.pop().unwrap();
        assert(views(v@) =~= sv.take(i - 1));
        assert(t@ == sv[i - 1]);
        let k = t.key();
        let ghost rest = last_of_each::<T>(sv.skip(i));
        let ghost s1 = sv.skip(i - 1);
        assert(s1.skip(1) =~= sv.skip(i));
        assert((exists|j: int| 1 <= j < s1.len() && T::key_of(#[trigger] s1[j]) == T::key_of(s1[0]))
            <==> seen@.contains(k)) by {
            if seen@.contains(k) {
                let j = choose|j: int| i <= j < n && T::key_of(#[trigger] sv[j]) == k as nat;
                assert(s1[j - i + 1] == sv[j]);
            }
            if exists|j: int| 1 <= j < s1.len() && T::key_of(#[trigger] s1[j]) == T::key_of(s1[0]) {
                let j = choose|j: int| 1 <= j < s1.len() && T::key_of(#[trigger] s1[j]) == T::key_of(s1[0]);
                assert(sv[j + i - 1] == s1[j]);
            }
        }
        let ghost seen0 = seen@;
        assert(forall|kk: usize|
            seen0.contains(kk) <==> exists|j: int|
                i <= j < n && T::key_of(#[trigger] sv[j]) == kk as nat);
        if !has_key(&seen, k) {
            let ghost before = views(rev@);
            rev.push(t);
            assert(views(rev@) =~= before.push(sv[i - 1]));
            assert((seq![sv[i - 1]] + rest).reverse() =~= rest.reverse().push(sv[i - 1]));
            seen.push(k);
            assert(forall|kk: usize| seen@.contains(kk) <==> (seen0.contains(kk) || kk == k)) by {
                assert forall|kk: usize| seen@.contains(kk) implies (seen0.contains(kk) || kk == k) by {
                    let j = choose|j: int| 0 <= j < seen@.len() && seen@[j] == kk;
                    if j < seen0.len() {
                        assert(seen0[j] == kk);
                    }
                }
                assert forall|kk: usize| (seen0.contains(kk) || kk == k) implies seen@.contains(kk) by {
                    if kk == k {
                        assert(seen@[seen@.len() - 1] == kk);
                    } else {
                        let j = choose|j: int| 0 <= j < seen0.len() && seen0[j] == kk;
                        assert(seen@[j] == kk);
                    }
                }
            }
        }
        assert forall|kk: usize|
            seen@.contains(kk) <==> exists|j: int|
                i - 1 <= j < n && T::key_of(#[trigger] sv[j]) == kk as nat by {
            assert(seen@.contains(kk) <==> (seen0.contains(kk) || kk == k));
            if exists|j: int| i - 1 <= j < n && T::key_of(#[trigger] sv[j]) == kk as nat {
                let j = choose|j: int| i - 1 <= j < n && T::key_of(#[trigger] sv[j]) == kk as nat;
                if j >= i {
                    assert(seen0.contains(kk));
                }
            }
            if seen0.contains(kk) {
                let j = choose|j: int| i <= j < n && T::key_of(#[trigger] sv[j]) == kk as nat;
                assert(i - 1 <= j < n);
            }
            if kk == k {
                assert(T::key_of(sv[i - 1]) == kk as nat);
            }
        }
    }
    assert(sv.skip(0) =~= sv);
    let ghost l = last_of_each::<T>(sv);
    let mut out: Vec<T> = Vec::new();
    while rev.len() > 0
        invariant
            out@.len() + rev@.len() == l.len(),
            views(rev@) == l.reverse().take(rev@.len() as int),
            views(out@) == l.take(out@.len() as int),
        decreases rev@.len(),
    {
        let ghost j = out@.len() as int;
        let ghost m = rev@.len() as int;
        assert(views(rev@)[m - 1] == rev@[m - 1]@);
        let t = rev.pop().unwrap();
        assert(views(rev@) =~= l.reverse().take(m - 1));
        assert(t@ == l[j]);
        let ghost before = views(out@);
        out.push(t);
        assert(views(out@) =~= before.push(l[j]));
        assert(views(out@) =~= l.take(j + 1));
    }
    assert(views(out@) =~= l);
    out
}

/// A save: its states, each with the pops that live in it, its countries and its
/// cultures, one of each id.
#[derive(Debug)]
pub struct Save {
    states: Vec<State>,
    countries: Vec<Country>,
    cultures: Vec<Culture>,
}

pub ghost struct SaveView {
    pub states: Seq<StateView>,
    pub countries: Seq<CountryView>,
    pub cultures: Seq<CultureView>,
}

impl View for Save {
    type V = SaveView;

    closed spec fn view(&self) -> SaveView {
        SaveView {
            states: views(self.states@),
            countries: views(self.countries@),
            cultures: views(self.cultures@),
        }
    }
}

/// The sections of a save that it is read from.
pub open spec fn save_table() -> Seq<(Seq<char>, FieldKind)> {
    seq![
        ("pops"@, FieldKind::Raw),
        ("states"@, FieldKind::Raw),
        ("country_manager"@, FieldKind::Raw),
        ("cultures"@, FieldKind::Raw),
    ]
}

pub open spec fn database() -> Option<Seq<char>> {
    Some("database"@)
}

pub open spec fn section(t: Seq<char>) -> Seq<DataView> {
    map_items(t, DataFormat::Labeled)
}

/// A section can be read: its block is well formed and each of its entries accepted.
pub open spec fn section_ok<T: GetMapFile>(o: Option<Seq<char>>) -> bool {
    o matches Some(t) ==> prepare_ok(t, DataFormat::Labeled) && T::vec_ok(section(t), database())
}

/// A section that is there and cannot be read.
pub open spec fn section_fails<T: GetMapFile>(o: Option<Seq<char>>) -> bool {
    o matches Some(t) && T::spec_vec(section(t), database()) is Err
}

pub open spec fn section_read<T: GetMapFile>(t: Seq<char>) -> Result<Seq<T::V>, ()> {
    T::spec_vec(section(t), database())
}

/// The first state, from `j` on, with the id `id`.
pub open spec fn state_at(ss: Seq<StateView>, id: nat, j: nat) -> Option<nat>
    decreases ss.len() - j,
{
    if j >= ss.len() {
        None
    } else if ss[j as int].id == id {
        Some(j)
    } else {
        state_at(ss, id, j + 1)
    }
}

/// The states after the first `n` pops were placed, each non-empty pop in the state of
/// its location; `None` where one has no such state.
pub open spec fn place_pops(ss: Seq<StateView>, ps: Seq<PopView>, n: nat) -> Option<Seq<StateView>>
    decreases n,
{
    if n == 0 {
        Some(ss)
    } else {
        match place_pops(ss, ps, (n - 1) as nat) {
            Some(t) => {
                let p = ps[n - 1];
                if p.empty {
                    Some(t)
                } else {
                    match state_at(t, p.location, 0) {
                        Some(k) => Some(
                            t.update(k as int, StateView { pops: t[k as int].pops.push(p), ..t[k as int] }),
                        ),
                        None => None,
                    }
                }
            },
            None => None,
        }
    }
}

/// The four sections of a save read, or `Err` where one is missing or fails.
pub open spec fn save_sections(r: crate::record::RecordView) -> Result<
    (Seq<PopView>, Seq<StateView>, Seq<CountryView>, Seq<CultureView>),
    (),
> {
    match (text_slot(r, 0), text_slot(r, 1), text_slot(r, 2), text_slot(r, 3)) {
        (Some(p), Some(s), Some(c), Some(u)) => match (
            section_read::<Pop>(p),
            section_read::<State>(s),
            section_read::<Country>(c),
            section_read::<Culture>(u),
        ) {
            (Ok(ps), Ok(ss), Ok(cs), Ok(us)) => Ok((ps, ss, cs, us)),
            _ => Err(()),
        },
        _ => Err(()),
    }
}

/// What reading a save entry gives: its states (the last of each id) with every
/// non-empty pop placed in the state of its location, and its countries and cultures
/// (the last of each id).
pub open spec fn spec_save(d: DataView) -> Result<SaveView, ()> {
    match labelled_record(d, save_table(), ValPolicy::Pass) {
        Some((_, r)) => match save_sections(r) {
            Ok((ps, ss, cs, us)) => match place_pops(last_of_each::<State>(ss), ps, ps.len()) {
                Some(placed) => Ok(
                    SaveView {
                        states: placed,
                        countries: last_of_each::<Country>(cs),
                        cultures: last_of_each::<Culture>(us),
                    },
                ),
                None => Err(()),
            },
            Err(_) => Err(()),
        },
        None => Err(()),
    }
}

/// Whether reading a save entry goes through without stopping short: its sections
/// are well formed, and where none fails, all four are there and every non-empty pop
/// has a state.
pub open spec fn save_accepts(d: DataView) -> bool {
    &&& labelled_accepts(d, save_table(), ValPolicy::Pass)
    &&& (labelled_record(d, save_table(), ValPolicy::Pass) matches Some((_, r)) ==> {
        &&& section_ok::<Pop>(text_slot(r, 0))
        &&& section_ok::<State>(text_slot(r, 1))
        &&& section_ok::<Country>(text_slot(r, 2))
        &&& section_ok::<Culture>(text_slot(r, 3))
        &&& (!section_fails::<Pop>(text_slot(r, 0)) && !section_fails::<State>(text_slot(r, 1))
            && !section_fails::<Country>(text_slot(r, 2)) && !section_fails::<Culture>(
            text_slot(r, 3),
        )) ==> (save_sections(r) matches Ok((ps, ss, cs, us)) && place_pops(
            last_of_each::<State>(ss),
            ps,
            ps.len(),
        ) is Some)
    })
}

fn find_state(ss: &Vec<State>, id: usize) -> (r: Option<usize>)
    ensures
        r matches Some(k) ==> state_at(views(ss@), id as nat, 0) == Some(k as nat),
        r is None ==> state_at(views(ss@), id as nat, 0) is None,
{
    let ghost sv = views(ss@);
    let mut j: usize = 0;
    while j < ss.len()
        invariant
            sv == views(ss@),
            j <= ss@.len(),
            state_at(sv, id as nat, 0) == state_at(sv, id as nat, j as nat),
        decreases ss@.len() - j,
    {
        assert(sv[j as int] == ss@[j as int]@);
        if ss[j].id() == id {
            return Some(j);
        }
        j = j + 1;
    }
    None
}

proof fn lemma_state_at(ss: Seq<StateView>, id: nat, j: nat)
    ensures
        state_at(ss, id, j) matches Some(k) ==> j <= k < ss.len() && ss[k as int].id == id,
    decreases ss.len() - j,
{
    if j < ss.len() {
        lemma_state_at(ss, id, j + 1);
    }
}

proof fn lemma_place_none(ss: Seq<StateView>, ps: Seq<PopView>, n: nat, m: nat)
    requires
        n <= m,
        place_pops(ss, ps, n) is None,
    ensures
        place_pops(ss, ps, m) is None,
    decreases m - n,
{
    if n < m {
        lemma_place_none(ss, ps, n, (m - 1) as nat);
    }
}

/// Places each non-empty pop in the state of its location.
fn place(states: Vec<State>, pops: Vec<Pop>) -> (r: Option<Vec<State>>)
    ensures
        match place_pops(views(states@), views(pops@), pops@.len()) {
            Some(t) => r matches Some(v) && views(v@) == t,
            None => r is None,
        },
{
    let ghost sv = views(states@);
    let ghost pv = views(pops@);
    let n = pops.len();
    let mut rest = pops;
    let mut rev: Vec<Pop> = Vec::new();
    while rest.len() > 0
        invariant
            rest@.len() + rev@.len() == n,
            n == pv.len(),
            views(rest@) == pv.take(rest@.len() as int),
            forall|j: int| 0 <= j < rev@.len() ==> #[trigger] rev@[j]@ == pv[n - 1 - j],
        decreases rest@.len(),
    {
        let ghost m = rest@.len() as int;
        assert(views(rest@)[m - 1] == rest@[m - 1]@);
        let p = rest.pop().unwrap();
        assert(views(rest@) =~= pv.take(m - 1));
        rev.push(p);
    }
    let mut st = states;
    let mut k: usize = 0;
    while rev.len() > 0
        invariant
            k + rev@.len() == n,
            n == pv.len(),
            sv == views(states@),
            pv == views(pops@),
            forall|j: int| 0 <= j < rev@.len() ==> #[trigger] rev@[j]@ == pv[n - 1 - j],
            place_pops(sv, pv, k as nat) == Some(views(st@)),
        decreases rev@.len(),
    {
        let ghost t = views(st@);
        let p = rev.pop().unwrap();
        assert(p@ == pv[k as int]);
        if !p.empty() {
            let loc = match p.location() {
                Ok(l) => l,
                Err(_) => return None,
            };
            match find_state(&st, loc) {
                Some(i) => {
                    proof {
                        lemma_state_at(t, loc as nat, 0);
                    }
                    let mut s = st.remove(i);
                    assert(s@ == t[i as int]);
                    s.insert_pop(p);
                    st.insert(i, s);
                    assert(views(st@) =~= t.update(
                        i as int,
                        StateView { pops: t[i as int].pops.push(pv[k as int]), ..t[i as int] },
                    ));
                },
                None => {
                    assert(pv[k as int].location == loc as nat);
                    assert(place_pops(sv, pv, (k + 1) as nat) is None);
                    proof {
                        lemma_place_none(sv, pv, (k + 1) as nat, n as nat);
                    }
                    return None;
                },
            }
        }
        k = k + 1;
    }
    Some(st)
}

impl GetMapData for Save {
    open spec fn accepts(d: DataView) -> bool {
        save_accepts(d)
    }

    open spec fn spec_one(d: DataView) -> Result<SaveView, ()> {
        spec_save(d)
    }

    /// Reads a save entry: its sections `pops`, `states`, `country_manager` and
    /// `cultures`, each a `database` block, and then places the pops in their states.
    fn consume_one(inp: DataStructure) -> (r: Result<Self, VicError>) {
        let table = vec![
            FieldDef { name: "pops", kind: FieldKind::Raw },
            FieldDef { name: "states", kind: FieldKind::Raw },
            FieldDef { name: "country_manager", kind: FieldKind::Raw },
            FieldDef { name: "cultures", kind: FieldKind::Raw },
        ];
        assert(table_view(table@) =~= save_table());
        let (_label, rec) = read_labelled(inp, &table, ValPolicy::Pass)?;
        let ghost rv = rec@;
        let pops = match rec.text(0) {
            Some(t) => Some(
                Pop::consume_vec(MapIterator::new(t.as_str(), DataFormat::Labeled), Some("database"))?,
            ),
            None => None,
        };
        let states = match rec.text(1) {
            Some(t) => Some(
                State::consume_vec(MapIterator::new(t.as_str(), DataFormat::Labeled), Some("database"))?,
            ),
            None => None,
        };
        let countries = match rec.text(2) {
            Some(t) => Some(
                Country::consume_vec(
                    MapIterator::new(t.as_str(), DataFormat::Labeled),
                    Some("database"),
                )?,
            ),
            None => None,
        };
        let cultures = match rec.text(3) {
            Some(t) => Some(
                Culture::consume_vec(
                    MapIterator::new(t.as_str(), DataFormat::Labeled),
                    Some("database"),
                )?,
            ),
            None => None,
        };
        match (pops, states, countries, cultures) {
            (Some(ps), Some(ss), Some(cs), Some(us)) => {
                let ss = keep_last(ss);
                match place(ss, ps) {
                    Some(placed) => Ok(
                        Save { states: placed, countries: keep_last(cs), cultures: keep_last(us) },
                    ),
                    None => Err(VicError::MapError(String::from_str("a pop lives in no state of the save"))),
                }
            },
            _ => Err(VicError::MapError(String::from_str("a section of the save is missing"))),
        }
    }
}

/// The first entry, from `j` on, with the id `id`.
pub open spec fn key_at<T: Keyed>(s: Seq<T::V>, id: nat, j: nat) -> Option<nat>
    decreases s.len() - j,
{
    if j >= s.len() {
        None
    } else if T::key_of(s[j as int]) == id {
        Some(j)
    } else {
        key_at::<T>(s, id, j + 1)
    }
}

/// The first state, from `j` on, that holds the province `p`.
pub open spec fn holding_state(ss: Seq<StateView>, p: nat, j: nat) -> Option<nat>
    decreases ss.len() - j,
{
    if j >= ss.len() {
        None
    } else if ss[j as int].provinces.contains(p) {
        Some(j)
    } else {
        holding_state(ss, p, j + 1)
    }
}

/// The first country, from `j` on, that owns the state `sid`.
pub open spec fn owning_country(cs: Seq<CountryView>, sid: nat, j: nat) -> Option<nat>
    decreases cs.len() - j,
{
    if j >= cs.len() {
        None
    } else if cs[j as int].states.contains(sid) {
        Some(j)
    } else {
        owning_country(cs, sid, j + 1)
    }
}

/// The state that holds the province `p` and the country that owns that state.
pub open spec fn owners_of(v: SaveView, p: nat) -> Option<(nat, nat)> {
    match holding_state(v.states, p, 0) {
        Some(i) => match owning_country(v.countries, v.states[i as int].id, 0) {
            Some(k) => Some((i, k)),
            None => None,
        },
        None => None,
    }
}

/// The first culture, from `j` on, with the name `name`.
pub open spec fn named_culture(us: Seq<CultureView>, name: Seq<char>, j: nat) -> Option<nat>
    decreases us.len() - j,
{
    if j >= us.len() {
        None
    } else if us[j as int].name == name {
        Some(j)
    } else {
        named_culture(us, name, j + 1)
    }
}

/// The running totals of the pops of every state fit in a `usize`.
pub open spec fn all_fit(ss: Seq<StateView>) -> bool {
    forall|i: int| 0 <= i < ss.len() ==> totals_fit(#[trigger] ss[i].pops)
}

pub open spec fn state_total(s: StateView) -> Option<nat> {
    total_fold(s.pops, s.pops.len())
}

pub open spec fn state_religion(s: StateView, r: Seq<char>) -> Option<nat> {
    match religion_fold(s.pops, r, s.pops.len()) {
        Some(p) => Some(p.0),
        None => None,
    }
}

pub open spec fn state_culture(s: StateView, c: nat) -> Option<nat> {
    match culture_fold(s.pops, c, s.pops.len()) {
        Some(p) => Some(p.0),
        None => None,
    }
}

/// The value that `kind` asks of a state: 0 its people, 1 the people of the religion
/// `r`, 2 the people of the culture `c`.
pub open spec fn state_value(s: StateView, kind: nat, r: Seq<char>, c: nat) -> Option<nat> {
    if kind == 0 {
        state_total(s)
    } else if kind == 1 {
        state_religion(s, r)
    } else {
        state_culture(s, c)
    }
}

/// The people of a religion or of a culture in a state are given exactly where the
/// state's people are, and never outnumber them.
pub proof fn law_state_value(s: StateView, r: Seq<char>, c: nat)
    ensures
        state_value(s, 1, r, c) is Some <==> state_value(s, 0, r, c) is Some,
        state_value(s, 2, r, c) is Some <==> state_value(s, 0, r, c) is Some,
        state_value(s, 1, r, c) matches Some(a) ==> a <= state_value(s, 0, r, c).unwrap(),
        state_value(s, 2, r, c) matches Some(a) ==> a <= state_value(s, 0, r, c).unwrap(),
{
    states::law_religion_pop_total(s.pops, r, s.pops.len());
    states::law_culture_pop_total(s.pops, c, s.pops.len());
}

/// Every state gives a value: the list of (state id, value) in the order of the
/// states; `None` where one does not.
pub open spec fn each_state(ss: Seq<StateView>, kind: nat, r: Seq<char>, c: nat) -> Option<Seq<(nat, nat)>> {
    if forall|i: int| 0 <= i < ss.len() ==> (#[trigger] state_value(ss[i], kind, r, c)) is Some {
        Some(Seq::new(ss.len(), |i: int| (ss[i].id, state_value(ss[i], kind, r, c).unwrap())))
    } else {
        None
    }
}

pub open spec fn pairs_view(v: Seq<(usize, usize)>) -> Seq<(nat, nat)> {
    v.map_values(|p: (usize, usize)| (p.0 as nat, p.1 as nat))
}

fn find_key<T: Keyed>(v: &Vec<T>, id: usize) -> (r: Option<usize>)
    ensures
        r matches Some(k) ==> key_at::<T>(views(v@), id as nat, 0) == Some(k as nat),
        r is None ==> key_at::<T>(views(v@), id as nat, 0) is None,
{
    let ghost sv = views(v@);
    let mut j: usize = 0;
    while j < v.len()
        invariant
            sv == views(v@),
            j <= v@.len(),
            key_at::<T>(sv, id as nat, 0) == key_at::<T>(sv, id as nat, j as nat),
        decreases v@.len() - j,
    {
        assert(sv[j as int] == v@[j as int]@);
        if v[j].key() == id {
            return Some(j);
        }
        j = j + 1;
    }
    None
}

proof fn lemma_key_at<T: Keyed>(s: Seq<T::V>, id: nat, j: nat)
    ensures
        key_at::<T>(s, id, j) matches Some(k) ==> j <= k < s.len(),
    decreases s.len() - j,
{
    if j < s.len() {
        lemma_key_at::<T>(s, id, j + 1);
    }
}

proof fn lemma_holding(ss: Seq<StateView>, p: nat, j: nat)
    ensures
        holding_state(ss, p, j) matches Some(k) ==> j <= k < ss.len(),
    decreases ss.len() - j,
{
    if j < ss.len() {
        lemma_holding(ss, p, j + 1);
    }
}

proof fn lemma_owning(cs: Seq<CountryView>, s: nat, j: nat)
    ensures
        owning_country(cs, s, j) matches Some(k) ==> j <= k < cs.len(),
    decreases cs.len() - j,
{
    if j < cs.len() {
        lemma_owning(cs, s, j + 1);
    }
}

proof fn lemma_named(us: Seq<CultureView>, n: Seq<char>, j: nat)
    ensures
        named_culture(us, n, j) matches Some(k) ==> j <= k < us.len(),
    decreases us.len() - j,
{
    if j < us.len() {
        lemma_named(us, n, j + 1);
    }
}

impl Save {
    pub fn states(&self) -> (r: &Vec<State>)
        ensures
            views(r@) == self@.states,
    {
        &self.states
    }

    pub fn countries(&self) -> (r: &Vec<Country>)
        ensures
            views(r@) == self@.countries,
    {
        &self.countries
    }

    pub fn cultures(&self) -> (r: &Vec<Culture>)
        ensures
            views(r@) == self@.cultures,
    {
        &self.cultures
    }

    /// The state with the id `index`; an error where the save has none.
    pub fn get_state(&self, index: usize) -> (r: Result<&State, VicError>)
        ensures
            match key_at::<State>(self@.states, index as nat, 0) {
                Some(k) => r matches Ok(s) && s@ == self@.states[k as int],
                None => r matches Err(e) && e is MapError,
            },
    {
        match find_key(&self.states, index) {
            Some(k) => {
                proof {
                    lemma_key_at::<State>(self@.states, index as nat, 0);
                }
                assert(self@.states[k as int] == self.states@[k as int]@);
                Ok(&self.states[k])
            },
            None => Err(VicError::MapError(String::from_str("no state with that id in the save"))),
        }
    }

    /// The country with the id `index`; an error where the save has none.
    pub fn get_country(&self, index: usize) -> (r: Result<&Country, VicError>)
        ensures
            match key_at::<Country>(self@.countries, index as nat, 0) {
                Some(k) => r matches Ok(c) && c@ == self@.countries[k as int],
                None => r matches Err(e) && e is MapError,
            },
    {
        match find_key(&self.countries, index) {
            Some(k) => {
                proof {
                    lemma_key_at::<Country>(self@.countries, index as nat, 0);
                }
                assert(self@.countries[k as int] == self.countries@[k as int]@);
                Ok(&self.countries[k])
            },
            None => Err(VicError::MapError(String::from_str("no country with that id in the save"))),
        }
    }

    /// The culture with the id `index`; an error where the save has none.
    pub fn get_culture(&self, index: usize) -> (r: Result<&Culture, VicError>)
        ensures
            match key_at::<Culture>(self@.cultures, index as nat, 0) {
                Some(k) => r matches Ok(c) && c@ == self@.cultures[k as int],
                None => r matches Err(e) && e is MapError,
            },
    {
        match find_key(&self.cultures, index) {
            Some(k) => {
                proof {
                    lemma_key_at::<Culture>(self@.cultures, index as nat, 0);
                }
                assert(self@.cultures[k as int] == self.cultures@[k as int]@);
                Ok(&self.cultures[k])
            },
            None => Err(VicError::MapError(String::from_str("no culture with that id in the save"))),
        }
    }

    /// The state that holds the province `province`, and the country that owns it;
    /// `None` where no state holds it or no country owns that state.
    pub fn get_owners(&self, province: usize) -> (r: Option<(&State, &Country)>)
        ensures
            match owners_of(self@, province as nat) {
                Some((i, k)) => r matches Some((s, c)) && s@ == self@.states[i as int] && c@
                    == self@.countries[k as int],
                None => r is None,
            },
    {
        let ghost ss = self@.states;
        let ghost cs = self@.countries;
        let mut i: usize = 0;
        while i < self.states.len()
            invariant
                ss == self@.states,
                ss == views(self.states@),
                cs == self@.countries,
                cs == views(self.countries@),
                i <= ss.len(),
                holding_state(ss, province as nat, 0) == holding_state(ss, province as nat, i as nat),
            decreases ss.len() - i,
        {
            assert(ss[i as int] == self.states@[i as int]@);
            if self.states[i].contains(province) {
                let s = &self.states[i];
                let mut k: usize = 0;
                while k < self.countries.len()
                    invariant
                        cs == self@.countries,
                        cs == views(self.countries@),
                        ss == self@.states,
                        i < ss.len(),
                        holding_state(ss, province as nat, 0) == Some(i as nat),
                        k <= cs.len(),
                        s@ == ss[i as int],
                        owning_country(cs, s@.id, 0) == owning_country(cs, s@.id, k as nat),
                    decreases cs.len() - k,
                {
                    assert(cs[k as int] == self.countries@[k as int]@);
                    if self.countries[k].contains(s) {
                        return Some((s, &self.countries[k]));
                    }
                    k = k + 1;
                }
                return None;
            }
            i = i + 1;
        }
        None
    }

    /// The value that `kind` asks of each state (see `state_value`).
    fn each_value(&self, kind: u8, religion: &str, culture: usize) -> (r: Result<Vec<(usize, usize)>, VicError>)
        requires
            all_fit(self@.states),
            kind <= 2,
        ensures
            match each_state(self@.states, kind as nat, religion@, culture as nat) {
                Some(v) => r matches Ok(w) && pairs_view(w@) == v,
                None => r is Err,
            },
    {
        let ghost ss = self@.states;
        let ghost rl = religion@;
        let ghost k = kind as nat;
        let mut out: Vec<(usize, usize)> = Vec::new();
        let mut i: usize = 0;
        while i < self.states.len()
            invariant
                ss == self@.states,
                ss == views(self.states@),
                all_fit(ss),
                kind <= 2,
                k == kind as nat,
                rl == religion@,
                i <= ss.len(),
                out@.len() == i,
                forall|j: int| 0 <= j < i ==> (#[trigger] state_value(ss[j], k, rl, culture as nat)) is Some,
                forall|j: int|
                    0 <= j < i ==> #[trigger] pairs_view(out@)[j] == (
                        ss[j].id,
                        state_value(ss[j], k, rl, culture as nat).unwrap(),
                    ),
            decreases ss.len() - i,
        {
            assert(ss[i as int] == self.states@[i as int]@);
            let st = &self.states[i];
            assert(totals_fit(ss[i as int].pops));
            let v = if kind == 0 {
                st.pop()
            } else if kind == 1 {
                match st.religion_pop(religion) {
                    Ok((a, _)) => Ok(a),
                    Err(e) => Err(e),
                }
            } else {
                match st.culture_pop(culture) {
                    Ok((a, _)) => Ok(a),
                    Err(e) => Err(e),
                }
            };
            match v {
                Ok(n) => {
                    assert(state_value(ss[i as int], k, rl, culture as nat) == Some(n as nat));
                    let ghost before = out@;
                    out.push((st.id(), n));
                    assert(pairs_view(out@) =~= pairs_view(before).push((ss[i as int].id, n as nat)));
                },
                Err(e) => {
                    assert(state_value(ss[i as int], k, rl, culture as nat) is None);
                    return Err(e);
                },
            }
            i = i + 1;
        }
        assert(pairs_view(out@) =~= Seq::new(
            ss.len(),
            |i: int| (ss[i].id, state_value(ss[i], k, rl, culture as nat).unwrap()),
        ));
        Ok(out)
    }

    /// The people of each state, as (state id, people); an error where a state holds
    /// an empty pop.
    pub fn population(&self) -> (r: Result<Vec<(usize, usize)>, VicError>)
        requires
            all_fit(self@.states),
        ensures
            match each_state(self@.states, 0, Seq::empty(), 0) {
                Some(v) => r matches Ok(w) && pairs_view(w@) == v,
                None => r is Err,
            },
    {
        proof {
            reveal_strlit("");
        }
        assert(""@ =~= Seq::<char>::empty());
        self.each_value(0, "", 0)
    }

    /// The people of the religion `religion` in each state, as (state id, people); an
    /// error where a state holds an empty pop.
    pub fn religion_shares(&self, religion: &str) -> (r: Result<Vec<(usize, usize)>, VicError>)
        requires
            all_fit(self@.states),
        ensures
            match each_state(self@.states, 1, religion@, 0) {
                Some(v) => r matches Ok(w) && pairs_view(w@) == v,
                None => r is Err,
            },
    {
        self.each_value(1, religion, 0)
    }

    /// The people of the culture with the id `culture` in each state, as (state id,
    /// people); an error where a state holds an empty pop.
    pub fn culture_shares(&self, culture: usize) -> (r: Result<Vec<(usize, usize)>, VicError>)
        requires
            all_fit(self@.states),
        ensures
            match each_state(self@.states, 2, Seq::empty(), culture as nat) {
                Some(v) => r matches Ok(w) && pairs_view(w@) == v,
                None => r is Err,
            },
    {
        proof {
            reveal_strlit("");
        }
        assert(""@ =~= Seq::<char>::empty());
        self.each_value(2, "", culture)
    }

    /// The id of the first culture named `name`.
    pub fn culture_named(&self, name: &str) -> (r: Option<usize>)
        ensures
            match named_culture(self@.cultures, name@, 0) {
                Some(k) => r == Some(self@.cultures[k as int].id as usize),
                None => r is None,
            },
    {
        let ghost us = self@.cultures;
        let n = String::from_str(name);
        let mut k: usize = 0;
        while k < self.cultures.len()
            invariant
                us == self@.cultures,
                us == views(self.cultures@),
                n@ == name@,
                k <= us.len(),
                named_culture(us, name@, 0) == named_culture(us, name@, k as nat),
            decreases us.len() - k,
        {
            assert(us[k as int] == self.cultures@[k as int]@);
            if *self.cultures[k].name() == n {
                return Some(self.cultures[k].id());
            }
            k = k + 1;
        }
        None
    }

    /// The id whose value colors the province `province` of a map colored by the
    /// states or the countries of the save: the state that holds it, or the country
    /// that owns that state; `None` where it has no owners.
    pub fn province_datum(&self, coloring: Coloring, province: usize) -> (r: Option<usize>)
        requires
            coloring == Coloring::SaveStates || coloring == Coloring::SaveCountries,
        ensures
            match datum_of(self@, coloring, province as nat) {
                Some(d) => r == Some(d as usize),
                None => r is None,
            },
    {
        match self.get_owners(province) {
            Some((s, c)) => {
                if coloring == Coloring::SaveStates {
                    Some(s.id())
                } else {
                    Some(c.id())
                }
            },
            None => None,
        }
    }
}

/// The pixels of the slots of the provinces `provs`.
pub open spec fn provinces_area(ic: Seq<(Seq<u8>, nat)>, provs: Seq<nat>) -> nat
    decreases provs.len(),
{
    if provs.len() == 0 {
        0
    } else {
        provinces_area(ic, provs.drop_last()) + ic[provs.last() as int].1
    }
}

proof fn lemma_area_same(ic: Seq<(Seq<u8>, nat)>, p: Seq<usize>)
    ensures
        area_of(ic, p) == provinces_area(ic, p.map_values(|n: usize| n as nat)),
    decreases p.len(),
{
    if p.len() > 0 {
        lemma_area_same(ic, p.drop_last());
        assert(p.drop_last().map_values(|n: usize| n as nat) =~= p.map_values(
            |n: usize| n as nat,
        ).drop_last());
    }
}

/// Every province of every state has a slot on the map, and the pixels of each state
/// fit in a `usize`.
pub open spec fn areas_fit(ss: Seq<StateView>, ic: Seq<(Seq<u8>, nat)>) -> bool {
    forall|i: int|
        0 <= i < ss.len() ==> {
            &&& (forall|k: int| 0 <= k < ss[i].provinces.len() ==> #[trigger] ss[i].provinces[k] < ic.len())
            &&& provinces_area(ic, (#[trigger] ss[i]).provinces) <= usize::MAX
        }
}

/// The id whose value colors the province `p` under a coloring by the states or the
/// countries of the save.
pub open spec fn datum_of(v: SaveView, coloring: Coloring, p: nat) -> Option<nat> {
    match owners_of(v, p) {
        Some((i, k)) => Some(
            if coloring == Coloring::SaveStates {
                v.states[i as int].id
            } else {
                v.countries[k as int].id
            },
        ),
        None => None,
    }
}

/// The id whose value colors a pixel of the province map: that of the province of
/// its color; `None` where the color is no province of the map or has no owners.
pub fn pixel_datum(map: &GameMap, save: &Save, coloring: Coloring, pixel: [u8; 3]) -> (r: Option<usize>)
    requires
        coloring == Coloring::SaveStates || coloring == Coloring::SaveCountries,
    ensures
        r is Some ==> map@.provinces.contains_key(pack(pixel@)),
        map@.provinces.contains_key(pack(pixel@)) ==> match datum_of(
            save@,
            coloring,
            map@.provinces[pack(pixel@)],
        ) {
            Some(d) => r == Some(d as usize),
            None => r is None,
        },
{
    match map.to_index(pixel) {
        Some(idx) => save.province_datum(coloring, idx),
        None => None,
    }
}

impl Save {
    /// The pixels of each state, as (state id, pixels).
    pub fn area(&self, map: &GameMap) -> (r: Vec<(usize, usize)>)
        requires
            areas_fit(self@.states, map@.index_color),
        ensures
            pairs_view(r@) == Seq::new(
                self@.states.len(),
                |i: int| (self@.states[i].id, provinces_area(map@.index_color, self@.states[i].provinces)),
            ),
    {
        let ghost ss = self@.states;
        let ghost ic = map@.index_color;
        let mut out: Vec<(usize, usize)> = Vec::new();
        let mut i: usize = 0;
        while i < self.states.len()
            invariant
                ss == self@.states,
                ss == views(self.states@),
                ic == map@.index_color,
                areas_fit(ss, ic),
                i <= ss.len(),
                out@.len() == i,
                forall|j: int|
                    0 <= j < i ==> #[trigger] pairs_view(out@)[j] == (
                        ss[j].id,
                        provinces_area(ic, ss[j].provinces),
                    ),
            decreases ss.len() - i,
        {
            assert(ss[i as int] == self.states@[i as int]@);
            let st = &self.states[i];
            let provs = st.provinces();
            proof {
                lemma_area_same(ic, provs@);
                assert forall|k: int| 0 <= k < provs@.len() implies (#[trigger] provs@[k] as int) < ic.len() by {
                    assert(ss[i as int].provinces[k] == provs@[k] as nat);
                }
            }
            let a = map.area(provs);
            let ghost before = out@;
            out.push((st.id(), a));
            assert(pairs_view(out@) =~= pairs_view(before).push(
                (ss[i as int].id, provinces_area(ic, ss[i as int].provinces)),
            ));
            i = i + 1;
        }
        assert(pairs_view(out@) =~= Seq::new(
            ss.len(),
            |i: int| (ss[i].id, provinces_area(ic, ss[i].provinces)),
        ));
        out
    }
}

/// After the first `n` characters of a save: the characters kept and whether a comment
/// is open. A `#` opens a comment (quotes do not shield it), which runs up to the end
/// of its line; the line break stays.
pub open spec fn save_strip_run(s: Seq<char>, n: nat) -> (Seq<char>, bool)
    decreases n,
{
    if n == 0 {
        (Seq::empty(), false)
    } else {
        let (kept, comment) = save_strip_run(s, (n - 1) as nat);
        let c = s[n - 1];
        let comment2 = if c == '#' {
            true
        } else if c == '\n' {
            false
        } else {
            comment
        };
        (if comment2 {
            kept
        } else {
            kept.push(c)
        }, comment2)
    }
}

/// The text of a save file without its comments, or `None` where it is not UTF-8.
pub open spec fn save_text(b: Seq<u8>) -> Option<Seq<char>> {
    if vstd::utf8::valid_utf8(b) {
        let s = vstd::utf8::decode_utf8(b);
        Some(save_strip_run(s, s.len()).0)
    } else {
        None
    }
}

fn strip_save(t: &str) -> (r: String)
    ensures
        r@ == save_strip_run(t@, t@.len()).0,
{
    let v = crate::text::to_chars(t);
    let mut out = String::new();
    let mut comment = false;
    let mut i: usize = 0;
    while i < v.len()
        invariant
            v@ == t@,
            i <= v@.len(),
            (out@, comment) == save_strip_run(t@, i as nat),
        decreases v@.len() - i,
    {
        let c = v[i];
        if c == '#' {
            comment = true;
        } else if c == '\n' {
            comment = false;
        }
        if !comment {
            crate::text::push_char(&mut out, c);
        }
        i = i + 1;
    }
    out
}

impl Save {
    /// Reads the save file `file` (the game state, unpacked): its text without
    /// comments, read as one entry. An error where it is not UTF-8.
    pub fn read(file: &Vec<u8>) -> (r: Result<Save, VicError>)
        requires
            save_text(file@) matches Some(t) ==> save_accepts(DataView::Itr(Seq::empty(), t)),
        ensures
            r is Ok <==> (save_text(file@) matches Some(t) && spec_save(
                DataView::Itr(Seq::empty(), t),
            ) is Ok),
            r matches Ok(s) ==> (save_text(file@) matches Some(t) && spec_save(
                DataView::Itr(Seq::empty(), t),
            ) == Ok::<SaveView, ()>(s@)),
    {
        match utf8_text(file.as_slice()) {
            Some(t) => {
                let text = strip_save(t);
                Save::consume_one(DataStructure::new(text.as_str()))
            },
            None => Err(VicError::SaveError),
        }
    }
}

/// The entry found by id is the first from `j` on with that id, and none is found
/// where no entry from `j` on has it.
pub proof fn law_key_at<T: Keyed>(s: Seq<T::V>, id: nat, j: nat)
    ensures
        key_at::<T>(s, id, j) matches Some(k) ==> j <= k < s.len() && T::key_of(s[k as int]) == id
            && forall|m: int| j <= m < k ==> T::key_of(#[trigger] s[m]) != id,
        key_at::<T>(s, id, j) is None ==> forall|m: int|
            j <= m < s.len() ==> T::key_of(#[trigger] s[m]) != id,
    decreases s.len() - j,
{
    if j < s.len() {
        law_key_at::<T>(s, id, j + 1);
    }
}

/// The state found by id is the first from `j` on with that id, and none is found
/// where no state from `j` on has it.
pub proof fn law_state_at(ss: Seq<StateView>, id: nat, j: nat)
    ensures
        state_at(ss, id, j) matches Some(k) ==> j <= k < ss.len() && ss[k as int].id == id
            && forall|m: int| j <= m < k ==> (#[trigger] ss[m]).id != id,
        state_at(ss, id, j) is None ==> forall|m: int| j <= m < ss.len() ==> (#[trigger] ss[m]).id != id,
    decreases ss.len() - j,
{
    if j < ss.len() {
        law_state_at(ss, id, j + 1);
    }
}

/// The state holding a province is the first from `j` on whose provinces list it, and
/// none is found where no state from `j` on lists it.
pub proof fn law_holding_state(ss: Seq<StateView>, p: nat, j: nat)
    ensures
        holding_state(ss, p, j) matches Some(k) ==> j <= k < ss.len() && ss[k as int].provinces.contains(p)
            && forall|m: int| j <= m < k ==> !(#[trigger] ss[m]).provinces.contains(p),
        holding_state(ss, p, j) is None ==> forall|m: int|
            j <= m < ss.len() ==> !(#[trigger] ss[m]).provinces.contains(p),
    decreases ss.len() - j,
{
    if j < ss.len() {
        law_holding_state(ss, p, j + 1);
    }
}

/// The country owning a state is the first from `j` on whose states list it, and none
/// is found where no country from `j` on lists it.
pub proof fn law_owning_country(cs: Seq<CountryView>, sid: nat, j: nat)
    ensures
        owning_country(cs, sid, j) matches Some(k) ==> j <= k < cs.len() && cs[k as int].states.contains(
            sid,
        ) && forall|m: int| j <= m < k ==> !(#[trigger] cs[m]).states.contains(sid),
        owning_country(cs, sid, j) is None ==> forall|m: int|
            j <= m < cs.len() ==> !(#[trigger] cs[m]).states.contains(sid),
    decreases cs.len() - j,
{
    if j < cs.len() {
        law_owning_country(cs, sid, j + 1);
    }
}

/// The owners of a province: a state whose provinces list it (the first such), and a
/// country whose states list that state (the first such); none where no state lists
/// the province or no country lists its state.
pub proof fn law_owners(v: SaveView, p: nat)
    ensures
        owners_of(v, p) matches Some((i, k)) ==> i < v.states.len() && k < v.countries.len()
            && v.states[i as int].provinces.contains(p) && v.countries[k as int].states.contains(
            v.states[i as int].id,
        ) && (forall|m: int| 0 <= m < i ==> !(#[trigger] v.states[m]).provinces.contains(p)) && (
        forall|m: int| 0 <= m < k ==> !(#[trigger] v.countries[m]).states.contains(v.states[i as int].id)),
        owners_of(v, p) is None ==> (forall|m: int|
            0 <= m < v.states.len() ==> !(#[trigger] v.states[m]).provinces.contains(p)) || (
        holding_state(v.states, p, 0) matches Some(i) && forall|m: int|
            0 <= m < v.countries.len() ==> !(#[trigger] v.countries[m]).states.contains(
                v.states[i as int].id,
            )),
{
    law_holding_state(v.states, p, 0);
    if let Some(i) = holding_state(v.states, p, 0) {
        law_owning_country(v.countries, v.states[i as int].id, 0);
    }
}

/// The culture found by name is the first from `j` on with that name, and none is
/// found where no culture from `j` on has it.
pub proof fn law_named_culture(us: Seq<CultureView>, name: Seq<char>, j: nat)
    ensures
        named_culture(us, name, j) matches Some(k) ==> j <= k < us.len() && us[k as int].name == name
            && forall|m: int| j <= m < k ==> (#[trigger] us[m]).name != name,
        named_culture(us, name, j) is None ==> forall|m: int|
            j <= m < us.len() ==> (#[trigger] us[m]).name != name,
    decreases us.len() - j,
{
    if j < us.len() {
        law_named_culture(us, name, j + 1);
    }
}

/// Placing the pops of a save changes nothing of its states but their pops, which it
/// only adds to.
pub proof fn law_place_keeps(ss: Seq<StateView>, ps: Seq<PopView>, n: nat)
    requires
        n <= ps.len(),
    ensures
        place_pops(ss, ps, n) matches Some(t) ==> {
            &&& t.len() == ss.len()
            &&& forall|i: int|
                0 <= i < ss.len() ==> (#[trigger] t[i]).id == ss[i].id && t[i].provinces
                    == ss[i].provinces && t[i].country == ss[i].country && t[i].pops.len()
                    >= ss[i].pops.len() && t[i].pops.take(ss[i].pops.len() as int) == ss[i].pops
        },
    decreases n,
{
    if n > 0 {
        law_place_keeps(ss, ps, (n - 1) as nat);
        match place_pops(ss, ps, (n - 1) as nat) {
            Some(t) => {
                let p = ps[n - 1];
                if !p.empty {
                    lemma_state_at(t, p.location, 0);
                    match state_at(t, p.location, 0) {
                        Some(k) => {
                            let t2 = t.update(
                                k as int,
                                StateView { pops: t[k as int].pops.push(p), ..t[k as int] },
                            );
                            assert forall|i: int| 0 <= i < ss.len() implies (#[trigger] t2[i]).id
                                == ss[i].id && t2[i].provinces == ss[i].provinces && t2[i].country
                                == ss[i].country && t2[i].pops.len() >= ss[i].pops.len()
                                && t2[i].pops.take(ss[i].pops.len() as int) == ss[i].pops by {
                                if i == k {
                                    assert(t[i].pops.push(p).take(ss[i].pops.len() as int)
                                        =~= t[i].pops.take(ss[i].pops.len() as int));
                                }
                            }
                        },
                        None => {},
                    }
                }
            },
            None => {},
        }
    }
}

} // verus!
