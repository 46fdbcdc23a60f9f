//! Countries as a save file lists them.
use vstd::prelude::*;

use super::states::State;
use crate::error::VicError;
use crate::record::{
    nums_slot, num_slot, parse_usize, read_record, record_accepts, spec_record, table_view,
    text_slot, usize_max, FieldDef, FieldKind, RecordView, ValPolicy,
};
use crate::scanner::{DataStructure, DataView, GetMapData, consume_entries, database_ok, GetMapFile, spec_consume_vec, MapIterator};
use crate::text::spec_parse_bounded;

verus! {

broadcast use vstd::string::group_string_axioms;

/// One country of a save.
#[derive(Debug)]
pub struct Country {
    not_empty: bool,
    id: usize,
    tag: String,
    capital: usize,
    cultures: Vec<usize>,
    religion: String,
    states: Vec<usize>,
    c_type: String,
}

pub ghost struct CountryView {
    pub not_empty: bool,
    pub id: nat,
    pub tag: Seq<char>,
    pub capital: nat,
    pub cultures: Seq<nat>,
    pub religion: Seq<char>,
    pub states: Seq<nat>,
    pub c_type: Seq<char>,
}

impl View for Country {
    type V = CountryView;

    closed spec fn view(&self) -> CountryView {
        CountryView {
            not_empty: self.not_empty,
            id: self.id as nat,
            tag: self.tag@,
            capital: self.capital as nat,
            cultures: self.cultures@.map_values(|n: usize| n as nat),
            religion: self.religion@,
            states: self.states@.map_values(|n: usize| n as nat),
            c_type: self.c_type@,
        }
    }
}

pub open spec fn country_table() -> Seq<(Seq<char>, FieldKind)> {
    seq![
        ("definition"@, FieldKind::Unquoted),
        ("religion"@, FieldKind::Raw),
        ("country_type"@, FieldKind::Raw),
        ("capital"@, FieldKind::Uint),
        ("cultures"@, FieldKind::UintList),
        ("states"@, FieldKind::UintList),
    ]
}

fn country_fields() -> (r: Vec<FieldDef>)
    ensures
        table_view(r@) == country_table(),
{
    let r = vec![
        FieldDef { name: "definition", kind: FieldKind::Unquoted },
        FieldDef { name: "religion", kind: FieldKind::Raw },
        FieldDef { name: "country_type", kind: FieldKind::Raw },
        FieldDef { name: "capital", kind: FieldKind::Uint },
        FieldDef { name: "cultures", kind: FieldKind::UintList },
        FieldDef { name: "states", kind: FieldKind::UintList },
    ];
    assert(table_view(r@) =~= country_table());
    r
}

/// An empty country: only its id.
pub open spec fn empty_country(id: nat) -> CountryView {
    CountryView {
        not_empty: false,
        id,
        tag: Seq::empty(),
        capital: 0,
        cultures: Seq::empty(),
        religion: Seq::empty(),
        states: Seq::empty(),
        c_type: Seq::empty(),
    }
}

/// The country that a block of fields gives: a full country where tag, capital,
/// cultures, religion and type are all there; an empty country where they are not
/// but the block says `none`; otherwise nothing.
pub open spec fn country_of_record(id: nat, r: RecordView) -> Option<CountryView> {
    if text_slot(r, 0) is Some && num_slot(r, 3) is Some && nums_slot(r, 4) is Some && text_slot(
        r,
        1,
    ) is Some && text_slot(r, 2) is Some {
        Some(
            CountryView {
                not_empty: !r.none,
                id,
                tag: text_slot(r, 0).unwrap(),
                capital: num_slot(r, 3).unwrap(),
                cultures: nums_slot(r, 4).unwrap(),
                religion: text_slot(r, 1).unwrap(),
                states: match nums_slot(r, 5) {
                    Some(s) => s,
                    None => Seq::empty(),
                },
                c_type: text_slot(r, 2).unwrap(),
            },
        )
    } else if r.none {
        Some(empty_country(id))
    } else {
        None
    }
}

/// The country that the entry `id = { ... }` gives.
pub open spec fn spec_country(d: DataView) -> Result<CountryView, ()> {
    match d {
        DataView::Itr(l, c) => match spec_parse_bounded(l, usize_max()) {
            Some(id) => match spec_record(c, country_table(), ValPolicy::NoneFlag) {
                Ok(r) => match country_of_record(id, r) {
                    Some(v) => Ok(v),
                    None => Err(()),
                },
                Err(_) => Err(()),
            },
            None => Err(()),
        },
        DataView::Val(_) => Err(()),
    }
}

pub open spec fn country_accepts(d: DataView) -> bool {
    match d {
        DataView::Itr(l, c) => spec_parse_bounded(l, usize_max()) is Some ==> record_accepts(
            c,
            country_table(),
            ValPolicy::NoneFlag,
        ),
        DataView::Val(_) => true,
    }
}

impl Country {
    pub fn id(&self) -> (r: usize)
        ensures
            r as nat == self@.id,
    {
        self.id
    }

    pub fn tag(&self) -> (r: &String)
        ensures
            r@ == self@.tag,
    {
        &self.tag
    }

    pub fn states(&self) -> (r: &Vec<usize>)
        ensures
            r@.map_values(|n: usize| n as nat) == self@.states,
    {
        &self.states
    }

    pub fn religion(&self) -> (r: &String)
        ensures
            r@ == self@.religion,
    {
        &self.religion
    }

    pub fn cultures(&self) -> (r: &Vec<usize>)
        ensures
            r@.map_values(|n: usize| n as nat) == self@.cultures,
    {
        &self.cultures
    }

    pub fn c_type(&self) -> (r: &String)
        ensures
            r@ == self@.c_type,
    {
        &self.c_type
    }

    pub fn empty(&self) -> (r: bool)
        ensures
            r == !self@.not_empty,
    {
        !self.not_empty
    }

    /// Whether the state belongs to the country.
    pub fn contains(&self, s: &State) -> (r: bool)
        ensures
            r == self@.states.contains(s@.id),
    {
        let sid = s.id();
        let mut i: usize = 0;
        while i < self.states.len()
            invariant
                i <= self.states@.len(),
                sid as nat == s@.id,
                forall|j: int| 0 <= j < i ==> self.states@[j] != sid,
            decreases self.states@.len() - i,
        {
            if self.states[i] == sid {
                assert(self@.states[i as int] == s@.id);
                return true;
            }
            i = i + 1;
        }
        proof {
            if self@.states.contains(s@.id) {
                let j = choose|j: int| 0 <= j < self@.states.len() && self@.states[j] == s@.id;
                assert(self.states@[j] != sid);
            }
        }
        false
    }
}

impl GetMapFile for Country {
    open spec fn vec_ok(items: Seq<DataView>, database: Option<Seq<char>>) -> bool {
        database_ok::<Self>(items, database)
    }

    open spec fn spec_vec(items: Seq<DataView>, database: Option<Seq<char>>) -> Result<
        Seq<<Self as View>::V>,
        (),
    > {
        spec_consume_vec::<Self>(items, database)
    }

    fn consume_vec(inp: MapIterator, database: Option<&str>) -> (r: Result<Vec<Self>, VicError>) {
        consume_entries::<Self>(inp, database)
    }
}

impl GetMapData for Country {
    open spec fn accepts(d: DataView) -> bool {
        country_accepts(d)
    }

    open spec fn spec_one(d: DataView) -> Result<CountryView, ()> {
        spec_country(d)
    }

    fn consume_one(inp: DataStructure) -> (r: Result<Self, VicError>) {
        let (itr_label, content_outer) = inp.itr_info()?;
        let id = parse_usize(itr_label.as_str())?;
        let table = country_fields();
        let rec = read_record(content_outer.as_str(), &table, ValPolicy::NoneFlag)?;
        let ghost rv = rec@;
        match (rec.text(0), rec.num(3), rec.nums(4), rec.text(1), rec.text(2)) {
            (Some(tag), Some(capital), Some(cultures), Some(religion), Some(c_type)) => {
                let states = match rec.nums(5) {
                    Some(s) => s,
                    None => Vec::new(),
                };
                let c = Country {
                    tag,
                    capital,
                    cultures,
                    religion,
                    states,
                    c_type,
                    id,
                    not_empty: !rec.none,
                };
                assert(c@.states =~= country_of_record(id as nat, rv).unwrap().states);
                assert(c@ == country_of_record(id as nat, rv).unwrap());
                Ok(c)
            },
            _ => {
                if rec.none {
                    let c = Country {
                        tag: String::new(),
                        capital: 0,
                        cultures: Vec::new(),
                        religion: String::new(),
                        states: Vec::new(),
                        c_type: String::new(),
                        id,
                        not_empty: false,
                    };
                    assert(c@.states =~= Seq::<nat>::empty());
                    assert(c@.cultures =~= Seq::<nat>::empty());
                    assert(c@ == empty_country(id as nat));
                    Ok(c)
                } else {
                    Err(VicError::Other(String::from_str("Incorrectly Initialized Country")))
                }
            },
        }
    }
}

} // verus!
