//! Cultures of a save, read line by line with a regular expression.
use vstd::prelude::*;

use crate::error::VicError;
use crate::record::{parse_usize, usize_max};
use crate::text::{spec_parse_bounded, split_nonempty, split_words};
use super::pattern::{captures, captures_view, regex_captures};

verus! {

broadcast use vstd::string::group_string_axioms;

/// One culture of a save: its id, its name and the states it calls home.
#[derive(Debug)]
pub struct Culture {
    id: usize,
    name: String,
    // could find ID instead of string, but this way the save and game files are analyzed independently.
    homelands: Vec<String>,
}

pub ghost struct CultureView {
    pub id: nat,
    pub name: Seq<char>,
    pub homelands: Seq<Seq<char>>,
}

impl View for Culture {
    type V = CultureView;

    closed spec fn view(&self) -> CultureView {
        CultureView {
            id: self.id as nat,
            name: self.name@,
            homelands: self.homelands@.map_values(|s: String| s@),
        }
    }
}

/// The pattern of the lines of a culture: its id, its type, its core states, and the
/// closing brace.
pub open spec fn culture_pattern() -> Seq<char> {
    "^([0-9]+)=\\{|type=([a-z_]+)|core_states=\\{([A-Z_a-z\\s]+)\\}|^\\}"@
}

/// The fields of a culture read so far.
pub ghost struct CultureAcc {
    pub id: Option<nat>,
    pub name: Option<Seq<char>>,
    pub homelands: Option<Seq<Seq<char>>>,
}

/// Where reading a culture stands: still going, done (with a culture where all its
/// fields were read), or stopped at an id that does not fit a `usize`.
pub ghost enum CultureStep {
    Go(CultureAcc),
    Done(Option<CultureView>),
    Fail,
}

/// Group `i` of a match, where it took part.
pub open spec fn group(b: Seq<Option<Seq<char>>>, i: int) -> Option<Seq<char>> {
    if 0 <= i < b.len() {
        b[i]
    } else {
        None
    }
}

pub open spec fn culture_done(acc: CultureAcc) -> Option<CultureView> {
    match (acc.id, acc.name, acc.homelands) {
        (Some(id), Some(name), Some(homelands)) => Some(CultureView { id, name, homelands }),
        _ => None,
    }
}

/// One match read into the culture.
pub open spec fn culture_match(acc: CultureAcc, b: Seq<Option<Seq<char>>>) -> CultureStep {
    if group(b, 0) == Some("}"@) {
        CultureStep::Done(culture_done(acc))
    } else {
        let id = match group(b, 1) {
            Some(c) => spec_parse_bounded(c, usize_max()),
            None => acc.id,
        };
        if group(b, 1) is Some && id is None {
            CultureStep::Fail
        } else {
            CultureStep::Go(
                CultureAcc {
                    id,
                    name: match group(b, 2) {
                        Some(c) => Some(c),
                        None => acc.name,
                    },
                    homelands: match group(b, 3) {
                        Some(c) => Some(split_nonempty(c, ' ')),
                        None => acc.homelands,
                    },
                },
            )
        }
    }
}

/// The culture after the first `n` matches of a line.
pub open spec fn culture_matches(acc: CultureAcc, caps: Seq<Seq<Option<Seq<char>>>>, n: nat) -> CultureStep
    decreases n,
{
    if n == 0 {
        CultureStep::Go(acc)
    } else {
        match culture_matches(acc, caps, (n - 1) as nat) {
            CultureStep::Go(a) => culture_match(a, caps[n - 1]),
            other => other,
        }
    }
}

/// The culture read from line `i` on, and the line after the one where reading
/// stopped; `Go` where the lines ran out first.
pub open spec fn culture_lines(acc: CultureAcc, lines: Seq<Seq<char>>, i: nat) -> (CultureStep, nat)
    decreases lines.len() - i,
{
    if i >= lines.len() {
        (CultureStep::Go(acc), i)
    } else {
        let caps = regex_captures(culture_pattern(), lines[i as int]);
        match culture_matches(acc, caps, caps.len()) {
            CultureStep::Go(a) => culture_lines(a, lines, i + 1),
            other => (other, i + 1),
        }
    }
}

pub open spec fn no_culture() -> CultureAcc {
    CultureAcc { id: None, name: None, homelands: None }
}

pub open spec fn lines_view(v: Seq<String>) -> Seq<Seq<char>> {
    v.map_values(|s: String| s@)
}

/// The fields of a culture read so far.
struct Acc {
    id: Option<usize>,
    name: Option<String>,
    homelands: Option<Vec<String>>,
}

impl Acc {
    spec fn view(&self) -> CultureAcc {
        CultureAcc {
            id: match self.id {
                Some(n) => Some(n as nat),
                None => None,
            },
            name: match self.name {
                Some(s) => Some(s@),
                None => None,
            },
            homelands: match self.homelands {
                Some(v) => Some(v@.map_values(|s: String| s@)),
                None => None,
            },
        }
    }

    fn finish(self) -> (r: Option<Culture>)
        ensures
            culture_done(self.view()) == match r {
                Some(c) => Some(c@),
                None => None,
            },
    {
        match (self.id, self.name, self.homelands) {
            (Some(id), Some(name), Some(homelands)) => Some(Culture { id, name, homelands }),
            _ => None,
        }
    }
}

/// Group `i` of a match, where it took part.
pub(crate) fn group_at(b: &Vec<Option<String>>, i: usize) -> (r: Option<&String>)
    ensures
        r matches Some(s) ==> group(
            b@.map_values(|g: Option<String>| match g { Some(s) => Some(s@), None => None }),
            i as int,
        ) == Some(s@),
        r is None ==> group(
            b@.map_values(|g: Option<String>| match g { Some(s) => Some(s@), None => None }),
            i as int,
        ) is None,
{
    if i < b.len() {
        match &b[i] {
            Some(s) => Some(s),
            None => None,
        }
    } else {
        None
    }
}

/// Whether the whole match is the closing brace.
fn is_closing(b: &Vec<Option<String>>) -> (r: bool)
    ensures
        r == (group(
            b@.map_values(|g: Option<String>| match g { Some(s) => Some(s@), None => None }),
            0,
        ) == Some("}"@)),
{
    match group_at(b, 0) {
        Some(s) => *s == String::from_str("}"),
        None => false,
    }
}

/// Once reading stops at a match, later matches change nothing.
proof fn lemma_culture_matches_stop(acc: CultureAcc, caps: Seq<Seq<Option<Seq<char>>>>, n: nat, m: nat)
    requires
        n <= m,
        !(culture_matches(acc, caps, n) is Go),
    ensures
        culture_matches(acc, caps, m) == culture_matches(acc, caps, n),
    decreases m - n,
{
    if n < m {
        lemma_culture_matches_stop(acc, caps, n, (m - 1) as nat);
    }
}

impl Culture {
    /// Reads a culture from the lines of a save, from line `*at` on, up to its closing
    /// brace; `*at` moves past that line. `None` where the culture lacks its id, its
    /// type or its core states; an error where its id does not fit a `usize`.
    pub fn new(data: &Vec<String>, at: &mut usize) -> (r: Result<Option<Self>, VicError>)
        requires
            *old(at) <= data@.len(),
            !(culture_lines(no_culture(), lines_view(data@), *old(at) as nat).0 is Go),
        ensures
            ({
                let run = culture_lines(no_culture(), lines_view(data@), *old(at) as nat);
                &&& r matches Ok(c) ==> run.0 == CultureStep::Done(
                    match c {
                        Some(c) => Some(c@),
                        None => None,
                    },
                ) && *final(at) as nat == run.1
                &&& run.0 is Fail ==> r is Err
                &&& run.0 is Done ==> r is Ok
                &&& r matches Err(e) ==> e is Other && run.0 is Fail
            }),
    {
        match Self::scan(data, at) {
            Some(r) => r,
            None => Ok(None),
        }
    }

    /// As `new`, where the lines hold the end of the culture; `None` where they run out
    /// first, with `*at` past the last line.
    pub fn read(data: &Vec<String>, at: &mut usize) -> (r: Option<Result<Option<Self>, VicError>>)
        requires
            *old(at) <= data@.len(),
        ensures
            ({
                let run = culture_lines(no_culture(), lines_view(data@), *old(at) as nat);
                &&& r is None ==> run.0 is Go && *final(at) == data@.len()
                &&& r matches Some(Ok(c)) ==> run.0 == CultureStep::Done(
                    match c {
                        Some(c) => Some(c@),
                        None => None,
                    },
                ) && *final(at) as nat == run.1
                &&& run.0 is Fail ==> (r matches Some(Err(_)))
                &&& run.0 is Done ==> (r matches Some(Ok(_)))
                &&& r matches Some(Err(e)) ==> e is Other && run.0 is Fail
            }),
    {
        let mut probe = *at;
        match Self::scan(data, &mut probe) {
            None => {
                *at = probe;
                None
            },
            Some(Err(e)) => Some(Err(e)),
            Some(Ok(_)) => Some(Self::new(data, at)),
        }
    }

    fn scan(data: &Vec<String>, at: &mut usize) -> (r: Option<Result<Option<Self>, VicError>>)
        requires
            *old(at) <= data@.len(),
        ensures
            ({
                let run = culture_lines(no_culture(), lines_view(data@), *old(at) as nat);
                &&& r is None ==> run.0 is Go && *final(at) == data@.len()
                &&& r matches Some(Ok(c)) ==> run.0 == CultureStep::Done(
                    match c {
                        Some(c) => Some(c@),
                        None => None,
                    },
                ) && *final(at) as nat == run.1
                &&& run.0 is Fail ==> (r matches Some(Err(_)))
                &&& run.0 is Done ==> (r matches Some(Ok(_)))
                &&& r matches Some(Err(e)) ==> e is Other && run.0 is Fail
            }),
    {
        let ghost lv = lines_view(data@);
        let ghost start = *at as nat;
        let mut acc = Acc { id: None, name: None, homelands: None };
        assert(acc.view() == no_culture());
        while *at < data.len()
            invariant
                lv == lines_view(data@),
                start == *old(at) as nat,
                *at <= data@.len(),
                culture_lines(no_culture(), lv, start) == culture_lines(acc.view(), lv, *at as nat),
            decreases data@.len() - *at,
        {
            let line = *at;
            *at = *at + 1;
            let caps = captures(
                "^([0-9]+)=\\{|type=([a-z_]+)|core_states=\\{([A-Z_a-z\\s]+)\\}|^\\}",
                data[line].as_str(),
            );
            let ghost cv = captures_view(caps@);
            assert(cv == regex_captures(culture_pattern(), lv[line as int]));
            let ghost acc0 = acc.view();
            let mut k: usize = 0;
            while k < caps.len()
                invariant
                    cv == captures_view(caps@),
                    cv == regex_captures(culture_pattern(), lv[line as int]),
                    lv == lines_view(data@),
                    start == *old(at) as nat,
                    line < lv.len(),
                    *at == line + 1,
                    culture_lines(no_culture(), lv, start) == culture_lines(acc0, lv, line as nat),
                    k <= cv.len(),
                    culture_matches(acc0, cv, k as nat) == CultureStep::Go(acc.view()),
                decreases cv.len() - k,
            {
                let b = &caps[k];
                let ghost bv = cv[k as int];
                assert(bv == b@.map_values(|g: Option<String>| match g { Some(s) => Some(s@), None => None }));
                if is_closing(b) {
                    proof {
                        assert(culture_matches(acc0, cv, (k + 1) as nat) == culture_match(acc.view(), cv[k as int]));
                        lemma_culture_matches_stop(acc0, cv, (k + 1) as nat, cv.len());
                        assert(culture_lines(acc0, lv, line as nat) == (culture_matches(acc0, cv, cv.len()), (line + 1) as nat));
                    }
                    return Some(Ok(acc.finish()));
                }
                match group_at(b, 1) {
                    Some(c) => {
                        match parse_usize(c.as_str()) {
                            Ok(n) => acc.id = Some(n),
                            Err(e) => {
                                proof {
                                    lemma_culture_matches_stop(acc0, cv, (k + 1) as nat, cv.len());
                                }
                                return Some(Err(e));
                            },
                        }
                    },
                    None => {},
                }
                match group_at(b, 2) {
                    Some(c) => acc.name = Some(c.clone()),
                    None => {},
                }
                match group_at(b, 3) {
                    Some(c) => acc.homelands = Some(split_words(c.as_str(), ' ')),
                    None => {},
                }
                k = k + 1;
            }
        }
        None
    }

    pub fn id(&self) -> (r: usize)
        ensures
            r as nat == self@.id,
    {
        self.id
    }

    pub fn name(&self) -> (r: &String)
        ensures
            r@ == self@.name,
    {
        &self.name
    }

    pub fn homelands(&self) -> (r: &Vec<String>)
        ensures
            r@.map_values(|s: String| s@) == self@.homelands,
    {
        &self.homelands
    }
}

} // verus!
