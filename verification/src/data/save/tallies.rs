//! How many people of a culture live in each state and in each country of a save.
use vstd::prelude::*;

use crate::data::save::states::{culture_fold, totals_fit, State};
use crate::data::save::countries::CountryView;
use crate::data::save::{all_fit, views, Save, SaveView};
use crate::error::VicError;

verus! {

broadcast use vstd::string::group_string_axioms;

/// (people of the culture `c`, all people) of each state, by state id, in the order of
/// the states; `None` where a state holds an empty pop.
pub open spec fn state_tallies(v: SaveView, c: nat) -> Option<Seq<(nat, nat, nat)>> {
    if forall|i: int|
        0 <= i < v.states.len() ==> (#[trigger] culture_fold(
            v.states[i].pops,
            c,
            v.states[i].pops.len(),
        )) is Some {
        Some(
            Seq::new(
                v.states.len(),
                |i: int|
                    {
                        let t = culture_fold(v.states[i].pops, c, v.states[i].pops.len()).unwrap();
                        (v.states[i].id, t.0, t.1)
                    },
            ),
        )
    } else {
        None
    }
}

/// The tally of the first state, from `j` on, with the id `id`; nothing where none has.
pub open spec fn tally_of(ts: Seq<(nat, nat, nat)>, id: nat, j: nat) -> (nat, nat)
    decreases ts.len() - j,
{
    if j >= ts.len() {
        (0, 0)
    } else if ts[j as int].0 == id {
        (ts[j as int].1, ts[j as int].2)
    } else {
        tally_of(ts, id, j + 1)
    }
}

/// The tallies of the first `n` of the states `sids`, added up.
pub open spec fn country_tally(ts: Seq<(nat, nat, nat)>, sids: Seq<nat>, n: nat) -> (nat, nat)
    decreases n,
{
    if n == 0 {
        (0, 0)
    } else {
        let prev = country_tally(ts, sids, (n - 1) as nat);
        let t = tally_of(ts, sids[n - 1], 0);
        (prev.0 + t.0, prev.1 + t.1)
    }
}

/// The tally of a state id is that of the first state from `j` on with that id, and
/// nothing where no state from `j` on has it.
pub proof fn law_tally_of(ts: Seq<(nat, nat, nat)>, id: nat, j: nat)
    ensures
        forall|i: int|
            j <= i < ts.len() && (#[trigger] ts[i]).0 == id && (forall|m: int| j <= m < i ==> ts[m].0 != id)
                ==> tally_of(ts, id, j) == (ts[i].1, ts[i].2),
        (forall|m: int| j <= m < ts.len() ==> (#[trigger] ts[m]).0 != id) ==> tally_of(ts, id, j) == (
            0nat,
            0nat,
        ),
    decreases ts.len() - j,
{
    if j < ts.len() {
        law_tally_of(ts, id, j + 1);
    }
}

proof fn lemma_tally_same_prefix(ts: Seq<(nat, nat, nat)>, s1: Seq<nat>, s2: Seq<nat>, n: nat)
    requires
        n <= s1.len(),
        n <= s2.len(),
        forall|m: int| 0 <= m < n ==> s1[m] == s2[m],
    ensures
        country_tally(ts, s1, n) == country_tally(ts, s2, n),
    decreases n,
{
    if n > 0 {
        lemma_tally_same_prefix(ts, s1, s2, (n - 1) as nat);
    }
}

/// A country with no states counts nobody; one with a single state counts that
/// state's tally; and the tally over two lists of states put together is the sum of
/// the tallies over each.
pub proof fn law_country_tally(ts: Seq<(nat, nat, nat)>, a: Seq<nat>, b: Seq<nat>, x: nat)
    ensures
        country_tally(ts, Seq::empty(), 0) == (0nat, 0nat),
        country_tally(ts, seq![x], 1) == tally_of(ts, x, 0),
        country_tally(ts, a + b, (a + b).len()) == (
            country_tally(ts, a, a.len()).0 + country_tally(ts, b, b.len()).0,
            country_tally(ts, a, a.len()).1 + country_tally(ts, b, b.len()).1,
        ),
{
    assert(country_tally(ts, seq![x], 0) == (0nat, 0nat));
    lemma_tally_concat(ts, a, b, b.len());
}

proof fn lemma_tally_concat(ts: Seq<(nat, nat, nat)>, a: Seq<nat>, b: Seq<nat>, j: nat)
    requires
        j <= b.len(),
    ensures
        country_tally(ts, a + b, a.len() + j) == (
            country_tally(ts, a, a.len()).0 + country_tally(ts, b, j).0,
            country_tally(ts, a, a.len()).1 + country_tally(ts, b, j).1,
        ),
    decreases j,
{
    if j == 0 {
        lemma_tally_same_prefix(ts, a + b, a, a.len());
    } else {
        lemma_tally_concat(ts, a, b, (j - 1) as nat);
        assert((a + b)[a.len() + j - 1] == b[j - 1]);
    }
}

/// The tallies `ts` added up over the states of each country fit a `usize`.
pub open spec fn tallies_fit(ts: Seq<(nat, nat, nat)>, cs: Seq<CountryView>) -> bool {
    forall|k: int|
        0 <= k < cs.len() ==> (#[trigger] country_tally(ts, cs[k].states, cs[k].states.len())).0
            <= usize::MAX && country_tally(ts, cs[k].states, cs[k].states.len()).1 <= usize::MAX
}

/// The tallies of every country fit a `usize`.
pub open spec fn country_tallies_fit(v: SaveView, c: nat) -> bool {
    match state_tallies(v, c) {
        Some(ts) => tallies_fit(ts, v.countries),
        None => true,
    }
}

pub open spec fn triples_view(v: Seq<(usize, usize, usize)>) -> Seq<(nat, nat, nat)> {
    v.map_values(|p: (usize, usize, usize)| (p.0 as nat, p.1 as nat, p.2 as nat))
}

proof fn lemma_tally_grows(ts: Seq<(nat, nat, nat)>, sids: Seq<nat>, n: nat, m: nat)
    requires
        n <= m,
    ensures
        country_tally(ts, sids, n).0 <= country_tally(ts, sids, m).0,
        country_tally(ts, sids, n).1 <= country_tally(ts, sids, m).1,
    decreases m,
{
    if n < m {
        lemma_tally_grows(ts, sids, n, (m - 1) as nat);
    }
}

proof fn lemma_tally_within(ts: Seq<(nat, nat, nat)>, sids: Seq<nat>, n: nat)
    requires
        forall|i: int| 0 <= i < ts.len() ==> (#[trigger] ts[i]).1 <= ts[i].2,
    ensures
        country_tally(ts, sids, n).0 <= country_tally(ts, sids, n).1,
    decreases n,
{
    if n > 0 {
        lemma_tally_within(ts, sids, (n - 1) as nat);
        lemma_tally_of_within(ts, sids[n - 1], 0);
    }
}

proof fn lemma_tally_of_within(ts: Seq<(nat, nat, nat)>, id: nat, j: nat)
    requires
        forall|i: int| 0 <= i < ts.len() ==> (#[trigger] ts[i]).1 <= ts[i].2,
    ensures
        tally_of(ts, id, j).0 <= tally_of(ts, id, j).1,
    decreases ts.len() - j,
{
    if j < ts.len() && ts[j as int].0 != id {
        lemma_tally_of_within(ts, id, j + 1);
    }
}

/// The people of one culture never outnumber the people of the state or country they
/// are counted in.
pub proof fn law_culture_within_population(v: SaveView, c: nat, k: int)
    requires
        state_tallies(v, c) is Some,
        0 <= k < v.countries.len(),
    ensures
        ({
            let ts = state_tallies(v, c).unwrap();
            &&& forall|i: int| 0 <= i < ts.len() ==> (#[trigger] ts[i]).1 <= ts[i].2
            &&& country_tally(ts, v.countries[k].states, v.countries[k].states.len()).0
                <= country_tally(ts, v.countries[k].states, v.countries[k].states.len()).1
        }),
{
    let ts = state_tallies(v, c).unwrap();
    assert forall|i: int| 0 <= i < ts.len() implies (#[trigger] ts[i]).1 <= ts[i].2 by {
        crate::data::save::states::law_culture_pop_total(
            v.states[i].pops,
            c,
            v.states[i].pops.len(),
        );
    }
    lemma_tally_within(ts, v.countries[k].states, v.countries[k].states.len());
}

fn find_tally(ts: &Vec<(usize, usize, usize)>, id: usize) -> (r: (usize, usize))
    ensures
        (r.0 as nat, r.1 as nat) == tally_of(triples_view(ts@), id as nat, 0),
{
    let ghost tv = triples_view(ts@);
    let mut j: usize = 0;
    while j < ts.len()
        invariant
            tv == triples_view(ts@),
            j <= ts@.len(),
            tally_of(tv, id as nat, 0) == tally_of(tv, id as nat, j as nat),
        decreases ts@.len() - j,
    {
        if ts[j].0 == id {
            return (ts[j].1, ts[j].2);
        }
        j = j + 1;
    }
    (0, 0)
}

impl Save {
    /// (state id, people of the culture with the id `culture`, all people) of each
    /// state, in the order of the states; an error where a state holds an empty pop.
    pub fn state_cultures(&self, culture: usize) -> (r: Result<Vec<(usize, usize, usize)>, VicError>)
        requires
            all_fit(self@.states),
        ensures
            match state_tallies(self@, culture as nat) {
                Some(ts) => r matches Ok(w) && triples_view(w@) == ts,
                None => r is Err,
            },
    {
        let ghost ss = self@.states;
        let ghost c = culture as nat;
        let mut out: Vec<(usize, usize, usize)> = Vec::new();
        let mut i: usize = 0;
        let states = self.states();
        while i < states.len()
            invariant
                ss == self@.states,
                ss == views(states@),
                all_fit(ss),
                c == culture as nat,
                i <= ss.len(),
                out@.len() == i,
                forall|j: int|
                    0 <= j < i ==> (#[trigger] culture_fold(ss[j].pops, c, ss[j].pops.len())) is Some,
                forall|j: int|
                    0 <= j < i ==> #[trigger] triples_view(out@)[j] == (
                        ss[j].id,
                        culture_fold(ss[j].pops, c, ss[j].pops.len()).unwrap().0,
                        culture_fold(ss[j].pops, c, ss[j].pops.len()).unwrap().1,
                    ),
            decreases ss.len() - i,
        {
            assert(ss[i as int] == states@[i as int]@);
            let st: &State = &states[i];
            assert(totals_fit(ss[i as int].pops));
            match st.culture_pop(culture) {
                Ok((a, b)) => {
                    let ghost before = out@;
                    out.push((st.id(), a, b));
                    assert(triples_view(out@) =~= triples_view(before).push(
                        (ss[i as int].id, a as nat, b as nat),
                    ));
                },
                Err(e) => {
                    return Err(e);
                },
            }
            i = i + 1;
        }
        proof {
            let ts = state_tallies(self@, c).unwrap();
            assert(triples_view(out@) =~= ts);
        }
        Ok(out)
    }

    /// (tag, people of the culture with the id `culture`, all people) of each country,
    /// in the order of the countries, adding up its states (a state id the save does
    /// not hold adds nothing); an error where a state holds an empty pop.
    pub fn country_cultures(&self, culture: usize) -> (r: Result<Vec<(String, usize, usize)>, VicError>)
        requires
            all_fit(self@.states),
            country_tallies_fit(self@, culture as nat),
        ensures
            match state_tallies(self@, culture as nat) {
                Some(ts) => r matches Ok(w) && w@.len() == self@.countries.len() && forall|k: int|
                    0 <= k < w@.len() ==> (#[trigger] w@[k]).0@ == self@.countries[k].tag && (
                        w@[k].1 as nat,
                        w@[k].2 as nat,
                    ) == country_tally(
                        ts,
                        self@.countries[k].states,
                        self@.countries[k].states.len(),
                    ),
                None => r is Err,
            },
    {
        let ts = self.state_cultures(culture)?;
        let ghost tv = triples_view(ts@);
        let ghost cs = self@.countries;
        let countries = self.countries();
        let mut out: Vec<(String, usize, usize)> = Vec::new();
        let mut k: usize = 0;
        while k < countries.len()
            invariant
                cs == self@.countries,
                cs == views(countries@),
                state_tallies(self@, culture as nat) == Some(tv),
                tv == triples_view(ts@),
                country_tallies_fit(self@, culture as nat),
                k <= cs.len(),
                out@.len() == k,
                forall|q: int|
                    0 <= q < k ==> (#[trigger] out@[q]).0@ == cs[q].tag && (
                        out@[q].1 as nat,
                        out@[q].2 as nat,
                    ) == country_tally(tv, cs[q].states, cs[q].states.len()),
            decreases cs.len() - k,
        {
            assert(cs[k as int] == countries@[k as int]@);
            let country = &countries[k];
            let sids = country.states();
            let ghost sv = cs[k as int].states;
            assert(sv == sids@.map_values(|n: usize| n as nat));
            let ghost total = country_tally(tv, sv, sv.len());
            assert(total.0 <= usize::MAX && total.1 <= usize::MAX) by {
                let v = self@;
                assert(tallies_fit(tv, v.countries));
                assert(v.countries[k as int].states == sv);
                let t = country_tally(tv, v.countries[k as int].states, v.countries[k as int].states.len());
                assert(t.0 <= usize::MAX && t.1 <= usize::MAX);
            }
            let mut a: usize = 0;
            let mut b: usize = 0;
            let mut j: usize = 0;
            while j < sids.len()
                invariant
                    sv == sids@.map_values(|n: usize| n as nat),
                    tv == triples_view(ts@),
                    total == country_tally(tv, sv, sv.len()),
                    total.0 <= usize::MAX && total.1 <= usize::MAX,
                    j <= sv.len(),
                    (a as nat, b as nat) == country_tally(tv, sv, j as nat),
                decreases sv.len() - j,
            {
                let t = find_tally(&ts, sids[j]);
                proof {
                    lemma_tally_grows(tv, sv, (j + 1) as nat, sv.len());
                    assert(sv[j as int] == sids@[j as int] as nat);
                }
                a = a + t.0;
                b = b + t.1;
                j = j + 1;
            }
            out.push((country.tag().clone(), a, b));
            k = k + 1;
        }
        Ok(out)
    }
}

} // verus!
