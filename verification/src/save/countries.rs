//! Countries of a save, read line by line with a regular expression.
use vstd::prelude::*;

use crate::error::VicError;
use crate::record::{parse_all, parse_usize, usize_max};
use crate::text::{spec_parse_bounded, split_all, split_pieces};
use super::cultures::{group, group_at, lines_view};
use super::pattern::{first_captures, groups_view, regex_first};

verus! {

broadcast use vstd::string::group_string_axioms;

/// One country of a save.
#[derive(Debug)]
pub struct Country {
    // empty
    empty: bool,
    id: usize,
    tag: String,
    // capital province
    capital: usize,
    // primary cultures
    cultures: Vec<usize>,
    // state religion
    religion: String,
    // population of the lower, middle and upper strata
    population: Vec<usize>,
    states: Vec<usize>,
    c_type: String,
}

pub ghost struct CountryView {
    pub empty: bool,
    pub id: nat,
    pub tag: Seq<char>,
    pub capital: nat,
    pub cultures: Seq<nat>,
    pub religion: Seq<char>,
    pub population: Seq<nat>,
    pub states: Seq<nat>,
    pub c_type: Seq<char>,
}

pub open spec fn nats(v: Seq<usize>) -> Seq<nat> {
    v.map_values(|n: usize| n as nat)
}

impl View for Country {
    type V = CountryView;

    closed spec fn view(&self) -> CountryView {
        CountryView {
            empty: self.empty,
            id: self.id as nat,
            tag: self.tag@,
            capital: self.capital as nat,
            cultures: nats(self.cultures@),
            religion: self.religion@,
            population: nats(self.population@),
            states: nats(self.states@),
            c_type: self.c_type@,
        }
    }
}

/// The pattern of the lines of a country.
pub open spec fn country_pattern() -> Seq<char> {
    "([0-9]+)=none|^\\}|^\\t\\}|^([0-9]+)=\\{|^\\tdefinition=\"([A-Z]+)\"|^\\tcapital=([0-9]+)|^\\tcultures=\\{ ([0-9\\s]+) \\}|^\\treligion=([A-z]+)|^\\t\\tlower_strata_pops=([0-9]+)|^\\t\\tmiddle_strata_pops=([0-9]+)|^\\t\\tupper_strata_pops=([0-9]+)|^\\tstates=\\{ ([0-9\\s]+) \\}|^\\tcountry_type=\"([a-z_]+)\""@
}

/// The fields of a country read so far.
pub ghost struct CountryAcc {
    pub id: Option<nat>,
    pub tag: Option<Seq<char>>,
    pub capital: Option<nat>,
    pub cultures: Option<Seq<nat>>,
    pub religion: Option<Seq<char>>,
    pub population: Option<Seq<nat>>,
    pub states: Option<Seq<nat>>,
    pub c_type: Option<Seq<char>>,
}

/// Where reading a country stands: still going; done; stopped with an error (a
/// capital or a population that does not fit a `usize`); or stuck where reading
/// cannot go on (an id or a list that does not parse, or a closing brace before all
/// fields were read).
pub ghost enum CountryStep {
    Go(CountryAcc),
    Done(Option<CountryView>),
    Fail,
    Stuck,
}

pub open spec fn no_country() -> CountryAcc {
    CountryAcc {
        id: None,
        tag: None,
        capital: None,
        cultures: None,
        religion: None,
        population: None,
        states: None,
        c_type: None,
    }
}

/// A country that the save marks as `none`.
pub open spec fn empty_country(id: nat) -> CountryView {
    CountryView {
        empty: true,
        id,
        tag: Seq::empty(),
        capital: 0,
        cultures: Seq::empty(),
        religion: Seq::empty(),
        population: Seq::empty(),
        states: Seq::empty(),
        c_type: Seq::empty(),
    }
}

pub open spec fn country_done(acc: CountryAcc) -> Option<CountryView> {
    match (acc.id, acc.tag, acc.capital, acc.cultures, acc.religion, acc.population, acc.states, acc.c_type) {
        (Some(id), Some(tag), Some(capital), Some(cultures), Some(religion), Some(population), Some(states), Some(c_type)) => Some(
            CountryView { empty: false, id, tag, capital, cultures, religion, population, states, c_type },
        ),
        _ => None,
    }
}

pub open spec fn parse_nat(c: Seq<char>) -> Option<nat> {
    spec_parse_bounded(c, usize_max())
}

/// The numbers of a space separated list, where each piece is one.
pub open spec fn parse_list(c: Seq<char>) -> Option<Seq<nat>> {
    parse_all(split_all(c, ' '), usize_max())
}

/// The population with stratum `k` set to `n`; three strata at 0 to begin with.
pub open spec fn pop_set(p: Option<Seq<nat>>, k: int, n: nat) -> Seq<nat> {
    match p {
        Some(v) => v,
        None => seq![0nat, 0nat, 0nat],
    }.update(k, n)
}

/// Group `i` of a match read into the country.
pub open spec fn apply_group(st: CountryStep, b: Seq<Option<Seq<char>>>, i: int) -> CountryStep {
    match st {
        CountryStep::Go(acc) => match group(b, i) {
            None => CountryStep::Go(acc),
            Some(c) => if i == 2 {
                if acc.id is None {
                    match parse_nat(c) {
                        Some(n) => CountryStep::Go(CountryAcc { id: Some(n), ..acc }),
                        None => CountryStep::Stuck,
                    }
                } else {
                    CountryStep::Go(acc)
                }
            } else if i == 3 {
                CountryStep::Go(CountryAcc { tag: Some(c), ..acc })
            } else if i == 4 {
                match parse_nat(c) {
                    Some(n) => CountryStep::Go(CountryAcc { capital: Some(n), ..acc }),
                    None => CountryStep::Fail,
                }
            } else if i == 5 {
                match parse_list(c) {
                    Some(v) => CountryStep::Go(CountryAcc { cultures: Some(v), ..acc }),
                    None => CountryStep::Stuck,
                }
            } else if i == 6 {
                CountryStep::Go(CountryAcc { religion: Some(c), ..acc })
            } else if 7 <= i <= 9 {
                match parse_nat(c) {
                    Some(n) => CountryStep::Go(
                        CountryAcc { population: Some(pop_set(acc.population, i - 7, n)), ..acc },
                    ),
                    None => CountryStep::Fail,
                }
            } else if i == 10 {
                match parse_list(c) {
                    Some(v) => CountryStep::Go(CountryAcc { states: Some(v), ..acc }),
                    None => CountryStep::Stuck,
                }
            } else if i == 11 {
                CountryStep::Go(CountryAcc { c_type: Some(c), ..acc })
            } else {
                CountryStep::Go(acc)
            },
        },
        other => other,
    }
}

/// Groups 2 to `n` of a match read into the country, in turn.
pub open spec fn apply_groups(acc: CountryAcc, b: Seq<Option<Seq<char>>>, n: int) -> CountryStep
    decreases n,
{
    if n < 2 {
        CountryStep::Go(acc)
    } else {
        apply_group(apply_groups(acc, b, n - 1), b, n)
    }
}

/// The first match of a line read into the country.
pub open spec fn country_line(acc: CountryAcc, b: Seq<Option<Seq<char>>>) -> CountryStep {
    if group(b, 0) == Some("\t}"@) && acc.id is None {
        CountryStep::Done(None)
    } else if group(b, 0) == Some("}"@) {
        match country_done(acc) {
            Some(v) => CountryStep::Done(Some(v)),
            None => CountryStep::Stuck,
        }
    } else if group(b, 1) is Some {
        match parse_nat(group(b, 1).unwrap()) {
            Some(n) => CountryStep::Done(Some(empty_country(n))),
            None => CountryStep::Stuck,
        }
    } else {
        apply_groups(acc, b, 11)
    }
}

/// The country read from line `i` on, and the line after the one where reading
/// stopped; `Go` where the lines ran out first.
pub open spec fn country_lines(acc: CountryAcc, lines: Seq<Seq<char>>, i: nat) -> (CountryStep, nat)
    decreases lines.len() - i,
{
    if i >= lines.len() {
        (CountryStep::Go(acc), i)
    } else {
        match regex_first(country_pattern(), lines[i as int]) {
            None => country_lines(acc, lines, i + 1),
            Some(b) => match country_line(acc, b) {
                CountryStep::Go(a) => country_lines(a, lines, i + 1),
                other => (other, i + 1),
            },
        }
    }
}

/// The fields of a country read so far.
struct Acc {
    id: Option<usize>,
    tag: Option<String>,
    capital: Option<usize>,
    cultures: Option<Vec<usize>>,
    religion: Option<String>,
    population: Option<Vec<usize>>,
    states: Option<Vec<usize>>,
    c_type: Option<String>,
}

pub open spec fn opt_nat(o: Option<usize>) -> Option<nat> {
    match o {
        Some(n) => Some(n as nat),
        None => None,
    }
}

pub open spec fn opt_str(o: Option<String>) -> Option<Seq<char>> {
    match o {
        Some(s) => Some(s@),
        None => None,
    }
}

pub open spec fn opt_nats(o: Option<Vec<usize>>) -> Option<Seq<nat>> {
    match o {
        Some(v) => Some(nats(v@)),
        None => None,
    }
}

impl Acc {
    spec fn view(&self) -> CountryAcc {
        CountryAcc {
            id: opt_nat(self.id),
            tag: opt_str(self.tag),
            capital: opt_nat(self.capital),
            cultures: opt_nats(self.cultures),
            religion: opt_str(self.religion),
            population: opt_nats(self.population),
            states: opt_nats(self.states),
            c_type: opt_str(self.c_type),
        }
    }
}

/// The numbers of a space separated list; `None` where a piece is not one.
fn numbers(c: &str) -> (r: Option<Vec<usize>>)
    ensures
        opt_nats(r) == parse_list(c@),
{
    let ps = split_pieces(c, ' ');
    let ghost pv = ps@.map_values(|w: String| w@);
    let mut out: Vec<usize> = Vec::new();
    let mut i: usize = 0;
    while i < ps.len()
        invariant
            pv == ps@.map_values(|w: String| w@),
            pv == split_all(c@, ' '),
            i <= pv.len(),
            parse_all(pv.take(i as int), usize_max()) == Some(nats(out@)),
        decreases pv.len() - i,
    {
        assert(pv.take(i + 1).drop_last() =~= pv.take(i as int));
        assert(pv.take(i + 1).last() == pv[i as int]);
        match parse_usize(ps[i].as_str()) {
            Ok(n) => {
                let ghost before = out@;
                out.push(n);
                assert(nats(out@) =~= nats(before).push(n as nat));
            },
            Err(_) => {
                proof {
                    crate::record::lemma_parse_all_prefix(pv, (i + 1) as int, usize_max());
                }
                return None;
            },
        }
        i = i + 1;
    }
    assert(pv.take(i as int) =~= pv);
    Some(out)
}

impl Country {
    /// Sets stratum `strata` of the population to the number `pop`, three strata at 0
    /// to begin with; an error where `pop` is not a number.
    fn insert_pop(t_pop: &mut Option<Vec<usize>>, strata: usize, pop: &str) -> (r: Result<(), VicError>)
        requires
            strata < 3,
            *old(t_pop) matches Some(v) ==> v@.len() == 3,
        ensures
            r is Ok <==> parse_nat(pop@) is Some,
            r is Ok ==> opt_nats(*final(t_pop)) == Some(
                pop_set(opt_nats(*old(t_pop)), strata as int, parse_nat(pop@).unwrap()),
            ),
            *final(t_pop) matches Some(v) ==> v@.len() == 3,
            r matches Err(e) ==> e is Other,
    {
        let mut v = match t_pop.take() {
            Some(v) => v,
            None => vec![0, 0, 0],
        };
        assert(nats(v@) == match opt_nats(*old(t_pop)) {
            Some(x) => x,
            None => seq![0nat, 0nat, 0nat],
        });
        let ghost v0 = v@;
        let n = match parse_usize(pop) {
            Ok(n) => n,
            Err(e) => {
                *t_pop = Some(v);
                return Err(e);
            },
        };
        v.set(strata, n);
        assert(nats(v@) =~= nats(v0).update(strata as int, n as nat));
        *t_pop = Some(v);
        Ok(())
    }
}

/// How reading one group ended.
enum GroupStep {
    Go,
    Fail,
    Stuck,
}

impl Acc {
    /// Group `i` of a match read into the country.
    fn apply(&mut self, b: &Vec<Option<String>>, i: usize) -> (r: GroupStep)
        requires
            2 <= i <= 11,
            old(self).population matches Some(v) ==> v@.len() == 3,
        ensures
            apply_group(CountryStep::Go(old(self).view()), groups_view(b@), i as int) == match r {
                GroupStep::Go => CountryStep::Go(final(self).view()),
                GroupStep::Fail => CountryStep::Fail,
                GroupStep::Stuck => CountryStep::Stuck,
            },
            final(self).population matches Some(v) ==> v@.len() == 3,
    {
        let c = match group_at(b, i) {
            Some(c) => c,
            None => return GroupStep::Go,
        };
        if i == 2 {
            if self.id.is_none() {
                match parse_usize(c.as_str()) {
                    Ok(n) => self.id = Some(n),
                    Err(_) => return GroupStep::Stuck,
                }
            }
        } else if i == 3 {
            self.tag = Some(c.clone());
        } else if i == 4 {
            match parse_usize(c.as_str()) {
                Ok(n) => self.capital = Some(n),
                Err(_) => return GroupStep::Fail,
            }
        } else if i == 5 {
            match numbers(c.as_str()) {
                Some(v) => self.cultures = Some(v),
                None => return GroupStep::Stuck,
            }
        } else if i == 6 {
            self.religion = Some(c.clone());
        } else if i <= 9 {
            match Country::insert_pop(&mut self.population, i - 7, c.as_str()) {
                Ok(()) => {},
                Err(_) => return GroupStep::Fail,
            }
        } else if i == 10 {
            match numbers(c.as_str()) {
                Some(v) => self.states = Some(v),
                None => return GroupStep::Stuck,
            }
        } else {
            self.c_type = Some(c.clone());
        }
        GroupStep::Go
    }

    /// The country, where all its fields were read.
    fn finish(self) -> (r: Option<Country>)
        ensures
            country_done(self.view()) == match r {
                Some(c) => Some(c@),
                None => None,
            },
    {
        match (self.id, self.tag, self.capital, self.cultures, self.religion, self.population, self.states, self.c_type) {
            (Some(id), Some(tag), Some(capital), Some(cultures), Some(religion), Some(population), Some(states), Some(c_type)) => Some(
                Country { empty: false, id, tag, capital, cultures, religion, population, states, c_type },
            ),
            _ => None,
        }
    }
}

/// Once reading stops at a group, later groups change nothing.
proof fn lemma_apply_groups_stop(acc: CountryAcc, b: Seq<Option<Seq<char>>>, n: int, m: int)
    requires
        n <= m,
        !(apply_groups(acc, b, n) is Go),
    ensures
        apply_groups(acc, b, m) == apply_groups(acc, b, n),
    decreases m - n,
{
    if n < m {
        lemma_apply_groups_stop(acc, b, n, m - 1);
    }
}

/// Whether group 0 of a match is `text`.
fn whole_is(b: &Vec<Option<String>>, text: &str) -> (r: bool)
    ensures
        r == (group(groups_view(b@), 0) == Some(text@)),
{
    match group_at(b, 0) {
        Some(s) => *s == String::from_str(text),
        None => false,
    }
}

impl Country {
    /// Reads a country from the lines of a save, from line `*at` on: `None` at a
    /// closing `\t}` before its id, an empty country for `id=none`, and the country at
    /// its closing brace; `*at` moves past the line where reading stopped. An error
    /// where its capital or a population is not a number.
    pub fn new(data: &Vec<String>, at: &mut usize) -> (r: Result<Option<Country>, VicError>)
        requires
            *old(at) <= data@.len(),
            ({
                let run = country_lines(no_country(), lines_view(data@), *old(at) as nat);
                run.0 is Done || run.0 is Fail
            }),
        ensures
            ({
                let run = country_lines(no_country(), lines_view(data@), *old(at) as nat);
                &&& r matches Ok(c) ==> run.0 == CountryStep::Done(
                    match c {
                        Some(c) => Some(c@),
                        None => None,
                    },
                ) && *final(at) as nat == run.1
                &&& run.0 is Fail ==> r is Err
                &&& run.0 is Done ==> r is Ok
                &&& r matches Err(e) ==> e is Other && run.0 is Fail
            }),
    {
        match Self::scan(data, at) {
            Some(r) => r,
            None => Ok(None),
        }
    }

    /// As `new`, where the lines hold the end of the country and reading does not get
    /// stuck; `None` where it does.
    pub fn read(data: &Vec<String>, at: &mut usize) -> (r: Option<Result<Option<Country>, VicError>>)
        requires
            *old(at) <= data@.len(),
        ensures
            ({
                let run = country_lines(no_country(), lines_view(data@), *old(at) as nat);
                &&& r is None ==> (run.0 is Go || run.0 is Stuck)
                &&& r matches Some(Ok(c)) ==> run.0 == CountryStep::Done(
                    match c {
                        Some(c) => Some(c@),
                        None => None,
                    },
                ) && *final(at) as nat == run.1
                &&& run.0 is Fail ==> (r matches Some(Err(_)))
                &&& run.0 is Done ==> (r matches Some(Ok(_)))
                &&& r matches Some(Err(e)) ==> e is Other && run.0 is Fail
            }),
    {
        let mut probe = *at;
        match Self::scan(data, &mut probe) {
            None => {
                *at = probe;
                None
            },
            Some(Err(e)) => Some(Err(e)),
            Some(Ok(_)) => Some(Self::new(data, at)),
        }
    }

    fn scan(data: &Vec<String>, at: &mut usize) -> (r: Option<Result<Option<Country>, VicError>>)
        requires
            *old(at) <= data@.len(),
        ensures
            ({
                let run = country_lines(no_country(), lines_view(data@), *old(at) as nat);
                &&& r is None ==> (run.0 is Go || run.0 is Stuck)
                &&& r matches Some(Ok(c)) ==> run.0 == CountryStep::Done(
                    match c {
                        Some(c) => Some(c@),
                        None => None,
                    },
                ) && *final(at) as nat == run.1
                &&& run.0 is Fail ==> (r matches Some(Err(_)))
                &&& run.0 is Done ==> (r matches Some(Ok(_)))
                &&& r matches Some(Err(e)) ==> e is Other && run.0 is Fail
            }),
    {
        let ghost lv = lines_view(data@);
        let ghost start = *at as nat;
        let mut acc = Acc {
            id: None,
            tag: None,
            capital: None,
            cultures: None,
            religion: None,
            population: None,
            states: None,
            c_type: None,
        };
        assert(acc.view() == no_country());
        while *at < data.len()
            invariant
                lv == lines_view(data@),
                start == *old(at) as nat,
                *at <= data@.len(),
                acc.population matches Some(v) ==> v@.len() == 3,
                country_lines(no_country(), lv, start) == country_lines(acc.view(), lv, *at as nat),
            decreases data@.len() - *at,
        {
            let line = *at;
            *at = *at + 1;
            let found = first_captures(
                "([0-9]+)=none|^\\}|^\\t\\}|^([0-9]+)=\\{|^\\tdefinition=\"([A-Z]+)\"|^\\tcapital=([0-9]+)|^\\tcultures=\\{ ([0-9\\s]+) \\}|^\\treligion=([A-z]+)|^\\t\\tlower_strata_pops=([0-9]+)|^\\t\\tmiddle_strata_pops=([0-9]+)|^\\t\\tupper_strata_pops=([0-9]+)|^\\tstates=\\{ ([0-9\\s]+) \\}|^\\tcountry_type=\"([a-z_]+)\"",
                data[line].as_str(),
            );
            let b = match found {
                None => continue,
                Some(b) => b,
            };
            let ghost bv = groups_view(b@);
            assert(regex_first(country_pattern(), lv[line as int]) == Some(bv));
            if whole_is(&b, "\t}") && acc.id.is_none() {
                return Some(Ok(None));
            }
            if whole_is(&b, "}") {
                return match acc.finish() {
                    Some(c) => Some(Ok(Some(c))),
                    None => None,
                };
            }
            match group_at(&b, 1) {
                Some(c) => {
                    return match parse_usize(c.as_str()) {
                        Ok(n) => {
                            let e = Country {
                                empty: true,
                                id: n,
                                tag: String::new(),
                                capital: 0,
                                cultures: Vec::new(),
                                religion: String::new(),
                                population: Vec::new(),
                                states: Vec::new(),
                                c_type: String::new(),
                            };
                            assert(e@ == empty_country(n as nat)) by {
                                assert(nats(e.cultures@) =~= Seq::<nat>::empty());
                                assert(nats(e.population@) =~= Seq::<nat>::empty());
                                assert(nats(e.states@) =~= Seq::<nat>::empty());
                            }
                            Some(Ok(Some(e)))
                        },
                        Err(_) => None,
                    };
                },
                None => {},
            }
            let ghost acc0 = acc.view();
            assert(country_line(acc0, bv) == apply_groups(acc0, bv, 11));
            let mut i: usize = 2;
            while i <= 11
                invariant
                    2 <= i <= 12,
                    lv == lines_view(data@),
                    start == *old(at) as nat,
                    line < lv.len(),
                    *at == line + 1,
                    regex_first(country_pattern(), lv[line as int]) == Some(bv),
                    country_line(acc0, bv) == apply_groups(acc0, bv, 11),
                    country_lines(no_country(), lv, start) == country_lines(acc0, lv, line as nat),
                    bv == groups_view(b@),
                    acc.population matches Some(v) ==> v@.len() == 3,
                    apply_groups(acc0, bv, i - 1) == CountryStep::Go(acc.view()),
                decreases 12 - i,
            {
                match acc.apply(&b, i) {
                    GroupStep::Go => {},
                    GroupStep::Fail => {
                        proof {
                            lemma_apply_groups_stop(acc0, bv, i as int, 11);
                        }
                        return Some(Err(VicError::Other(String::from_str("a number of the country does not parse"))));
                    },
                    GroupStep::Stuck => {
                        proof {
                            lemma_apply_groups_stop(acc0, bv, i as int, 11);
                        }
                        return None;
                    },
                }
                i = i + 1;
            }
        }
        None
    }

    pub fn id(&self) -> (r: Result<usize, VicError>)
        ensures
            r matches Ok(n) && n as nat == self@.id,
    {
        Ok(self.id)
    }

    /// The tag of the country where it holds state `index`.
    pub fn state_id_to_tag(&self, index: &usize) -> (r: Option<String>)
        ensures
            r matches Some(t) ==> self@.states.contains(*index as nat) && t@ == self@.tag,
            r is None ==> !self@.states.contains(*index as nat),
    {
        let mut i: usize = 0;
        while i < self.states.len()
            invariant
                i <= self.states@.len(),
                forall|j: int| 0 <= j < i ==> self.states@[j] != *index,
            decreases self.states@.len() - i,
        {
            if self.states[i] == *index {
                assert(self@.states[i as int] == *index as nat);
                return Some(self.tag.clone());
            }
            i = i + 1;
        }
        proof {
            if self@.states.contains(*index as nat) {
                let j = choose|j: int| 0 <= j < self@.states.len() && self@.states[j] == *index as nat;
                assert(self.states@[j] != *index);
            }
        }
        None
    }

    pub fn tag(&self) -> (r: &str)
        ensures
            r@ == self@.tag,
    {
        self.tag.as_str()
    }

    pub fn states(&self) -> (r: &Vec<usize>)
        ensures
            nats(r@) == self@.states,
    {
        &self.states
    }
}

} // verus!
