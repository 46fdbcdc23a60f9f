//! States of a save, as the plain reader of saves takes them: a state is whole only
//! where its region, provinces, capital and country are all given.
use vstd::prelude::*;

use crate::data::save::states::{
    culture_fold, law_culture_pop_total, law_religion_pop_total, lemma_culture_fold_none,
    lemma_religion_fold_none, lemma_total_fold_none, religion_fold, total_fold, totals_fit,
};
use crate::data::save2::pops::{pop_size, PopView};
use crate::error::VicError;
use crate::record::{
    nums_slot, num_slot, parse_usize, read_record, record_accepts, spec_record, table_view,
    text_slot, usize_max, FieldDef, FieldKind, RecordView, ValPolicy,
};
use crate::save::pops::Pop;
use crate::scanner::{
    consume_entries, database_ok, spec_consume_vec, DataStructure, DataView, GetMapData,
    GetMapFile, MapIterator,
};
use crate::text::spec_parse_bounded;

verus! {

broadcast use vstd::string::group_string_axioms;

/// One state of a save.
#[derive(Debug)]
pub struct State {
    id: usize,
    template_name: String,
    provinces: Vec<usize>,
    capital: usize,
    country: usize,
    pops: Vec<Pop>,
}

pub ghost struct StateView {
    pub id: nat,
    pub template_name: Seq<char>,
    pub provinces: Seq<nat>,
    pub capital: nat,
    pub country: nat,
    pub pops: Seq<PopView>,
}

impl View for State {
    type V = StateView;

    closed spec fn view(&self) -> StateView {
        StateView {
            id: self.id as nat,
            template_name: self.template_name@,
            provinces: self.provinces@.map_values(|n: usize| n as nat),
            capital: self.capital as nat,
            country: self.country as nat,
            pops: self.pops@.map_values(|p: Pop| p@),
        }
    }
}

pub open spec fn state_table() -> Seq<(Seq<char>, FieldKind)> {
    seq![
        ("capital"@, FieldKind::Uint),
        ("country"@, FieldKind::Uint),
        ("region"@, FieldKind::Raw),
        ("provinces"@, FieldKind::ProvinceRanges),
    ]
}

fn state_fields() -> (r: Vec<FieldDef>)
    ensures
        table_view(r@) == state_table(),
{
    let r = vec![
        FieldDef { name: "capital", kind: FieldKind::Uint },
        FieldDef { name: "country", kind: FieldKind::Uint },
        FieldDef { name: "region", kind: FieldKind::Raw },
        FieldDef { name: "provinces", kind: FieldKind::ProvinceRanges },
    ];
    assert(table_view(r@) =~= state_table());
    r
}

/// The state that a block of fields gives, where its region, provinces, capital and
/// country are all there.
pub open spec fn state_of_record(id: nat, r: RecordView) -> Option<StateView> {
    if text_slot(r, 2) is Some && nums_slot(r, 3) is Some && num_slot(r, 0) is Some && num_slot(
        r,
        1,
    ) is Some {
        Some(
            StateView {
                id,
                template_name: text_slot(r, 2).unwrap(),
                provinces: nums_slot(r, 3).unwrap(),
                capital: num_slot(r, 0).unwrap(),
                country: num_slot(r, 1).unwrap(),
                pops: Seq::empty(),
            },
        )
    } else {
        None
    }
}

/// The state that the entry `id = { ... }` gives.
pub open spec fn spec_state(d: DataView) -> Result<StateView, ()> {
    match d {
        DataView::Itr(l, c) => match spec_parse_bounded(l, usize_max()) {
            Some(id) => match spec_record(c, state_table(), ValPolicy::Error) {
                Ok(r) => match state_of_record(id, r) {
                    Some(s) => Ok(s),
                    None => Err(()),
                },
                Err(_) => Err(()),
            },
            None => Err(()),
        },
        DataView::Val(_) => Err(()),
    }
}

pub open spec fn state_accepts(d: DataView) -> bool {
    match d {
        DataView::Itr(l, c) => spec_parse_bounded(l, usize_max()) is Some ==> record_accepts(
            c,
            state_table(),
            ValPolicy::Error,
        ),
        DataView::Val(_) => true,
    }
}

impl State {
    pub fn id(&self) -> (r: usize)
        ensures
            r as nat == self@.id,
    {
        self.id
    }

    /// The name of the state template.
    pub fn state(&self) -> (r: &String)
        ensures
            r@ == self@.template_name,
    {
        &self.template_name
    }

    pub fn provinces(&self) -> (r: &Vec<usize>)
        ensures
            r@.map_values(|n: usize| n as nat) == self@.provinces,
    {
        &self.provinces
    }

    pub fn country(&self) -> (r: usize)
        ensures
            r as nat == self@.country,
    {
        self.country
    }

    pub fn capital(&self) -> (r: usize)
        ensures
            r as nat == self@.capital,
    {
        self.capital
    }

    pub fn pops(&self) -> (r: &Vec<Pop>)
        ensures
            r@.map_values(|p: Pop| p@) == self@.pops,
    {
        &self.pops
    }

    /// Whether province `index` belongs to the state.
    pub fn contains(&self, index: usize) -> (r: bool)
        ensures
            r == self@.provinces.contains(index as nat),
    {
        let mut i: usize = 0;
        while i < self.provinces.len()
            invariant
                i <= self.provinces@.len(),
                forall|j: int| 0 <= j < i ==> self.provinces@[j] != index,
            decreases self.provinces@.len() - i,
        {
            if self.provinces[i] == index {
                assert(self@.provinces[i as int] == index as nat);
                return true;
            }
            i = i + 1;
        }
        proof {
            if self@.provinces.contains(index as nat) {
                let j = choose|j: int| 0 <= j < self@.provinces.len() && self@.provinces[j] == index as nat;
                assert(self.provinces@[j] != index);
            }
        }
        false
    }

    /// Adds a pop to the state.
    pub fn insert_pop(&mut self, pop: Pop)
        ensures
            final(self)@ == (StateView { pops: old(self)@.pops.push(pop@), ..old(self)@ }),
    {
        let ghost before = self.pops@;
        self.pops.push(pop);
        assert(self.pops@.map_values(|p: Pop| p@) =~= before.map_values(|p: Pop| p@).push(pop@));
    }

    /// (pops of the selected culture, total population); an error where a pop is empty.
    pub fn culture_pop(&self, culture: usize) -> (r: Result<(usize, usize), VicError>)
        requires
            totals_fit(self@.pops),
        ensures
            r is Ok <==> culture_fold(self@.pops, culture as nat, self@.pops.len()) is Some,
            r matches Ok((a, b)) ==> culture_fold(self@.pops, culture as nat, self@.pops.len())
                == Some((a as nat, b as nat)),
            r matches Err(e) ==> e is Other,
    {
        let ghost ps = self@.pops;
        let mut a: usize = 0;
        let mut b: usize = 0;
        let mut i: usize = 0;
        while i < self.pops.len()
            invariant
                ps == self@.pops,
                ps.len() == self.pops@.len(),
                totals_fit(ps),
                i <= ps.len(),
                culture_fold(ps, culture as nat, i as nat) == Some((a as nat, b as nat)),
            decreases ps.len() - i,
        {
            let p = &self.pops[i];
            assert(ps[i as int] == p@);
            proof {
                law_culture_pop_total(ps, culture as nat, (i + 1) as nat);
            }
            let s = match p.size() {
                Ok(s) => s,
                Err(e) => {
                    proof {
                        lemma_culture_fold_none(ps, culture as nat, (i + 1) as nat);
                    }
                    return Err(e);
                },
            };
            let c = p.culture()?;
            assert(total_fold(ps, (i + 1) as nat) == Some((b + pop_size(p@)) as nat));
            b = b + s;
            if c == culture {
                a = a + s;
            }
            i = i + 1;
        }
        Ok((a, b))
    }

    /// (pops of the selected religion, total population); an error where a pop is empty.
    pub fn religion_pop(&self, religion: &str) -> (r: Result<(usize, usize), VicError>)
        requires
            totals_fit(self@.pops),
        ensures
            r is Ok <==> religion_fold(self@.pops, religion@, self@.pops.len()) is Some,
            r matches Ok((a, b)) ==> religion_fold(self@.pops, religion@, self@.pops.len())
                == Some((a as nat, b as nat)),
            r matches Err(e) ==> e is Other,
    {
        let ghost ps = self@.pops;
        let rel = String::from_str(religion);
        let mut a: usize = 0;
        let mut b: usize = 0;
        let mut i: usize = 0;
        while i < self.pops.len()
            invariant
                ps == self@.pops,
                ps.len() == self.pops@.len(),
                totals_fit(ps),
                rel@ == religion@,
                i <= ps.len(),
                religion_fold(ps, religion@, i as nat) == Some((a as nat, b as nat)),
            decreases ps.len() - i,
        {
            let p = &self.pops[i];
            assert(ps[i as int] == p@);
            proof {
                law_religion_pop_total(ps, religion@, (i + 1) as nat);
            }
            let same = match p.religion() {
                Ok(r) => String::from_str(r) == rel,
                Err(e) => {
                    proof {
                        lemma_religion_fold_none(ps, religion@, (i + 1) as nat);
                    }
                    return Err(e);
                },
            };
            assert(total_fold(ps, (i + 1) as nat) == Some((b + pop_size(p@)) as nat));
            let s = p.size()?;
            if same {
                a = a + s;
            }
            b = b + s;
            i = i + 1;
        }
        Ok((a, b))
    }

    /// The people of the state; an error where a pop is empty.
    pub fn pop(&self) -> (r: Result<usize, VicError>)
        requires
            totals_fit(self@.pops),
        ensures
            r is Ok <==> total_fold(self@.pops, self@.pops.len()) is Some,
            r matches Ok(b) ==> total_fold(self@.pops, self@.pops.len()) == Some(b as nat),
            r matches Err(e) ==> e is Other,
    {
        let ghost ps = self@.pops;
        let mut b: usize = 0;
        let mut i: usize = 0;
        while i < self.pops.len()
            invariant
                ps == self@.pops,
                ps.len() == self.pops@.len(),
                totals_fit(ps),
                i <= ps.len(),
                total_fold(ps, i as nat) == Some(b as nat),
            decreases ps.len() - i,
        {
            let p = &self.pops[i];
            assert(ps[i as int] == p@);
            let s = match p.size() {
                Ok(s) => s,
                Err(e) => {
                    proof {
                        lemma_total_fold_none(ps, (i + 1) as nat);
                    }
                    return Err(e);
                },
            };
            assert(total_fold(ps, (i + 1) as nat) == Some((b + pop_size(p@)) as nat));
            b = b + s;
            i = i + 1;
        }
        Ok(b)
    }
}

impl GetMapFile for State {
    open spec fn vec_ok(items: Seq<DataView>, database: Option<Seq<char>>) -> bool {
        database_ok::<Self>(items, database)
    }

    open spec fn spec_vec(items: Seq<DataView>, database: Option<Seq<char>>) -> Result<
        Seq<<Self as View>::V>,
        (),
    > {
        spec_consume_vec::<Self>(items, database)
    }

    fn consume_vec(inp: MapIterator, database: Option<&str>) -> (r: Result<Vec<Self>, VicError>) {
        consume_entries::<Self>(inp, database)
    }
}

impl GetMapData for State {
    open spec fn accepts(d: DataView) -> bool {
        state_accepts(d)
    }

    open spec fn spec_one(d: DataView) -> Result<StateView, ()> {
        spec_state(d)
    }

    fn consume_one(inp: DataStructure) -> (r: Result<Self, VicError>) {
        let (itr_label, content_outer) = inp.itr_info()?;
        let id = parse_usize(itr_label.as_str())?;
        let table = state_fields();
        let rec = read_record(content_outer.as_str(), &table, ValPolicy::Error)?;
        let ghost rv = rec@;
        match (rec.text(2), rec.nums(3), rec.num(0), rec.num(1)) {
            (Some(name), Some(provinces), Some(capital), Some(country)) => {
                let s = State {
                    id,
                    template_name: name,
                    provinces,
                    capital,
                    country,
                    pops: Vec::new(),
                };
                assert(s@.pops =~= Seq::<PopView>::empty());
                assert(s@ == state_of_record(id as nat, rv).unwrap());
                Ok(s)
            },
            _ => Err(VicError::Other(String::from_str("Incorrectly Initialized Pop"))),
        }
    }
}

} // verus!
