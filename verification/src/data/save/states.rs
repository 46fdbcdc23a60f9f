//! States as a save file lists them, with the pops that live in them.
use vstd::prelude::*;

use crate::data::save2::pops::{pop_size, Pop, PopView};
use crate::error::VicError;
use crate::record::{
    nums_slot, num_slot, parse_usize, read_record, record_accepts, spec_record, table_view,
    text_slot, usize_max, FieldDef, FieldKind, RecordView, ValPolicy,
};
use crate::scanner::{DataStructure, DataView, GetMapData, consume_entries, database_ok, GetMapFile, spec_consume_vec, MapIterator};
use crate::text::spec_parse_bounded;

verus! {

broadcast use vstd::string::group_string_axioms;

/// One state of a save.
#[derive(Debug)]
pub struct State {
    id: usize,
    template_name: String,
    provinces: Vec<usize>,
    capital: Option<usize>,
    country: Option<usize>,
    pops: Vec<Pop>,
    empty: bool,
}

pub ghost struct StateView {
    pub id: nat,
    pub template_name: Seq<char>,
    pub provinces: Seq<nat>,
    pub capital: Option<nat>,
    pub country: Option<nat>,
    pub pops: Seq<PopView>,
    pub empty: bool,
}

pub open spec fn opt_nat(o: Option<usize>) -> Option<nat> {
    match o {
        Some(n) => Some(n as nat),
        None => None,
    }
}

impl View for State {
    type V = StateView;

    closed spec fn view(&self) -> StateView {
        StateView {
            id: self.id as nat,
            template_name: self.template_name@,
            provinces: self.provinces@.map_values(|n: usize| n as nat),
            capital: opt_nat(self.capital),
            country: opt_nat(self.country),
            pops: self.pops@.map_values(|p: Pop| p@),
            empty: self.empty,
        }
    }
}

pub open spec fn state_table() -> Seq<(Seq<char>, FieldKind)> {
    seq![
        ("capital"@, FieldKind::Uint),
        ("country"@, FieldKind::Uint),
        ("region"@, FieldKind::Unquoted),
        ("provinces"@, FieldKind::ProvinceRanges),
    ]
}

fn state_fields() -> (r: Vec<FieldDef>)
    ensures
        table_view(r@) == state_table(),
{
    let r = vec![
        FieldDef { name: "capital", kind: FieldKind::Uint },
        FieldDef { name: "country", kind: FieldKind::Uint },
        FieldDef { name: "region", kind: FieldKind::Unquoted },
        FieldDef { name: "provinces", kind: FieldKind::ProvinceRanges },
    ];
    assert(table_view(r@) =~= state_table());
    r
}

/// The state that a block of fields gives: a state wherever its region is named, an
/// empty state where it is not but the block says `none`, otherwise nothing.
pub open spec fn state_of_record(id: nat, r: RecordView) -> Option<StateView> {
    if text_slot(r, 2) is Some {
        Some(
            StateView {
                id,
                template_name: text_slot(r, 2).unwrap(),
                provinces: match nums_slot(r, 3) {
                    Some(ps) => ps,
                    None => Seq::empty(),
                },
                capital: num_slot(r, 0),
                country: num_slot(r, 1),
                pops: Seq::empty(),
                empty: r.none,
            },
        )
    } else if r.none {
        Some(
            StateView {
                id,
                template_name: Seq::empty(),
                provinces: Seq::empty(),
                capital: None,
                country: None,
                pops: Seq::empty(),
                empty: true,
            },
        )
    } else {
        None
    }
}

/// The state that the entry `id = { ... }` gives.
pub open spec fn spec_state(d: DataView) -> Result<StateView, ()> {
    match d {
        DataView::Itr(l, c) => match spec_parse_bounded(l, usize_max()) {
            Some(id) => match spec_record(c, state_table(), ValPolicy::NoneFlag) {
                Ok(r) => match state_of_record(id, r) {
                    Some(s) => Ok(s),
                    None => Err(()),
                },
                Err(_) => Err(()),
            },
            None => Err(()),
        },
        DataView::Val(_) => Err(()),
    }
}

pub open spec fn state_accepts(d: DataView) -> bool {
    match d {
        DataView::Itr(l, c) => spec_parse_bounded(l, usize_max()) is Some ==> record_accepts(
            c,
            state_table(),
            ValPolicy::NoneFlag,
        ),
        DataView::Val(_) => true,
    }
}

// ---------------------------------------------------------------------------
// Population sums
// ---------------------------------------------------------------------------
/// People of culture `c` and people in all, over the first `n` pops; `None` where
/// one of them is empty.
pub open spec fn culture_fold(ps: Seq<PopView>, c: nat, n: nat) -> Option<(nat, nat)>
    decreases n,
{
    if n == 0 {
        Some((0, 0))
    } else {
        match culture_fold(ps, c, (n - 1) as nat) {
            Some((a, b)) => {
                let p = ps[n - 1];
                if p.empty {
                    None
                } else {
                    Some(
                        (
                            a + if p.culture == c {
                                pop_size(p)
                            } else {
                                0
                            },
                            b + pop_size(p),
                        ),
                    )
                }
            },
            None => None,
        }
    }
}

/// People of religion `r` and people in all, over the first `n` pops; `None` where
/// one of them is empty.
pub open spec fn religion_fold(ps: Seq<PopView>, r: Seq<char>, n: nat) -> Option<(nat, nat)>
    decreases n,
{
    if n == 0 {
        Some((0, 0))
    } else {
        match religion_fold(ps, r, (n - 1) as nat) {
            Some((a, b)) => {
                let p = ps[n - 1];
                if p.empty {
                    None
                } else {
                    Some(
                        (
                            a + if p.religion == r {
                                pop_size(p)
                            } else {
                                0
                            },
                            b + pop_size(p),
                        ),
                    )
                }
            },
            None => None,
        }
    }
}

/// People in all over the first `n` pops; `None` where one of them is empty.
pub open spec fn total_fold(ps: Seq<PopView>, n: nat) -> Option<nat>
    decreases n,
{
    if n == 0 {
        Some(0)
    } else {
        match total_fold(ps, (n - 1) as nat) {
            Some(b) => {
                let p = ps[n - 1];
                if p.empty {
                    None
                } else {
                    Some(b + pop_size(p))
                }
            },
            None => None,
        }
    }
}

/// Every running total, up to the first empty pop, fits in a `usize`.
pub open spec fn totals_fit(ps: Seq<PopView>) -> bool {
    forall|n: nat|
        n <= ps.len() ==> (#[trigger] total_fold(ps, n) matches Some(b) ==> b <= usize::MAX)
}

/// The people of one culture never outnumber the state, and the state's total that
/// `culture_pop` reports is the one that `pop` reports.
pub proof fn law_culture_pop_total(ps: Seq<PopView>, c: nat, n: nat)
    requires
        n <= ps.len(),
    ensures
        culture_fold(ps, c, n) is Some <==> total_fold(ps, n) is Some,
        culture_fold(ps, c, n) matches Some((a, b)) ==> total_fold(ps, n) == Some(b) && a <= b,
    decreases n,
{
    if n > 0 {
        law_culture_pop_total(ps, c, (n - 1) as nat);
    }
}

/// The people of one religion never outnumber the state, and the state's total that
/// `religion_pop` reports is the one that `pop` reports.
pub proof fn law_religion_pop_total(ps: Seq<PopView>, r: Seq<char>, n: nat)
    requires
        n <= ps.len(),
    ensures
        religion_fold(ps, r, n) is Some <==> total_fold(ps, n) is Some,
        religion_fold(ps, r, n) matches Some((a, b)) ==> total_fold(ps, n) == Some(b) && a <= b,
    decreases n,
{
    if n > 0 {
        law_religion_pop_total(ps, r, (n - 1) as nat);
    }
}

impl State {
    pub fn id(&self) -> (r: usize)
        ensures
            r as nat == self@.id,
    {
        self.id
    }

    /// The name of the state template.
    pub fn state(&self) -> (r: &String)
        ensures
            r@ == self@.template_name,
    {
        &self.template_name
    }

    pub fn provinces(&self) -> (r: &Vec<usize>)
        ensures
            r@.map_values(|n: usize| n as nat) == self@.provinces,
    {
        &self.provinces
    }

    pub fn country(&self) -> (r: Option<usize>)
        ensures
            opt_nat(r) == self@.country,
    {
        self.country
    }

    pub fn capital(&self) -> (r: Option<usize>)
        ensures
            opt_nat(r) == self@.capital,
    {
        self.capital
    }

    pub fn pops(&self) -> (r: &Vec<Pop>)
        ensures
            r@.map_values(|p: Pop| p@) == self@.pops,
    {
        &self.pops
    }

    /// Whether province `index` belongs to the state.
    pub fn contains(&self, index: usize) -> (r: bool)
        ensures
            r == self@.provinces.contains(index as nat),
    {
        let mut i: usize = 0;
        while i < self.provinces.len()
            invariant
                i <= self.provinces@.len(),
                forall|j: int| 0 <= j < i ==> self.provinces@[j] != index,
            decreases self.provinces@.len() - i,
        {
            if self.provinces[i] == index {
                assert(self@.provinces[i as int] == index as nat);
                return true;
            }
            i = i + 1;
        }
        proof {
            if self@.provinces.contains(index as nat) {
                let j = choose|j: int| 0 <= j < self@.provinces.len() && self@.provinces[j] == index as nat;
                assert(self.provinces@[j] != index);
            }
        }
        false
    }

    /// Adds a pop to the state.
    pub fn insert_pop(&mut self, pop: Pop)
        ensures
            final(self)@ == (StateView { pops: old(self)@.pops.push(pop@), ..old(self)@ }),
    {
        let ghost before = self.pops@;
        self.pops.push(pop);
        assert(self.pops@.map_values(|p: Pop| p@) =~= before.map_values(|p: Pop| p@).push(pop@));
    }

    /// (pops of the selected culture, total population); an error where a pop is empty.
    pub fn culture_pop(&self, culture: usize) -> (r: Result<(usize, usize), VicError>)
        requires
            totals_fit(self@.pops),
        ensures
            r is Ok <==> culture_fold(self@.pops, culture as nat, self@.pops.len()) is Some,
            r matches Ok((a, b)) ==> culture_fold(self@.pops, culture as nat, self@.pops.len())
                == Some((a as nat, b as nat)),
            r matches Err(e) ==> e is Other,
    {
        let ghost ps = self@.pops;
        let mut a: usize = 0;
        let mut b: usize = 0;
        let mut i: usize = 0;
        while i < self.pops.len()
            invariant
                ps == self@.pops,
                ps.len() == self.pops@.len(),
                totals_fit(ps),
                i <= ps.len(),
                culture_fold(ps, culture as nat, i as nat) == Some((a as nat, b as nat)),
            decreases ps.len() - i,
        {
            let p = &self.pops[i];
            assert(ps[i as int] == p@);
            proof {
                law_culture_pop_total(ps, culture as nat, (i + 1) as nat);
            }
            let s = match p.size() {
                Ok(s) => s,
                Err(e) => {
                    proof {
                        lemma_culture_fold_none(ps, culture as nat, (i + 1) as nat);
                    }
                    return Err(e);
                },
            };
            let c = p.culture()?;
            assert(total_fold(ps, (i + 1) as nat) == Some((b + pop_size(p@)) as nat));
            b = b + s;
            if c == culture {
                a = a + s;
            }
            i = i + 1;
        }
        Ok((a, b))
    }

    /// (pops of the selected religion, total population); an error where a pop is empty.
    pub fn religion_pop(&self, religion: &str) -> (r: Result<(usize, usize), VicError>)
        requires
            totals_fit(self@.pops),
        ensures
            r is Ok <==> religion_fold(self@.pops, religion@, self@.pops.len()) is Some,
            r matches Ok((a, b)) ==> religion_fold(self@.pops, religion@, self@.pops.len())
                == Some((a as nat, b as nat)),
            r matches Err(e) ==> e is Other,
    {
        let ghost ps = self@.pops;
        let rel = String::from_str(religion);
        let mut a: usize = 0;
        let mut b: usize = 0;
        let mut i: usize = 0;
        while i < self.pops.len()
            invariant
                ps == self@.pops,
                ps.len() == self.pops@.len(),
                totals_fit(ps),
                rel@ == religion@,
                i <= ps.len(),
                religion_fold(ps, religion@, i as nat) == Some((a as nat, b as nat)),
            decreases ps.len() - i,
        {
            let p = &self.pops[i];
            assert(ps[i as int] == p@);
            proof {
                law_religion_pop_total(ps, religion@, (i + 1) as nat);
            }
            let same = match p.religion() {
                Ok(r) => *r == rel,
                Err(e) => {
                    proof {
                        lemma_religion_fold_none(ps, religion@, (i + 1) as nat);
                    }
                    return Err(e);
                },
            };
            assert(total_fold(ps, (i + 1) as nat) == Some((b + pop_size(p@)) as nat));
            let s = p.size()?;
            if same {
                a = a + s;
            }
            b = b + s;
            i = i + 1;
        }
        Ok((a, b))
    }

    /// The people of the state; an error where a pop is empty.
    pub fn pop(&self) -> (r: Result<usize, VicError>)
        requires
            totals_fit(self@.pops),
        ensures
            r is Ok <==> total_fold(self@.pops, self@.pops.len()) is Some,
            r matches Ok(b) ==> total_fold(self@.pops, self@.pops.len()) == Some(b as nat),
            r matches Err(e) ==> e is Other,
    {
        let ghost ps = self@.pops;
        let mut b: usize = 0;
        let mut i: usize = 0;
        while i < self.pops.len()
            invariant
                ps == self@.pops,
                ps.len() == self.pops@.len(),
                totals_fit(ps),
                i <= ps.len(),
                total_fold(ps, i as nat) == Some(b as nat),
            decreases ps.len() - i,
        {
            let p = &self.pops[i];
            assert(ps[i as int] == p@);
            let s = match p.size() {
                Ok(s) => s,
                Err(e) => {
                    proof {
                        lemma_total_fold_none(ps, (i + 1) as nat);
                    }
                    return Err(e);
                },
            };
            assert(total_fold(ps, (i + 1) as nat) == Some((b + pop_size(p@)) as nat));
            b = b + s;
            i = i + 1;
        }
        Ok(b)
    }
}

proof fn lemma_total_fold_prefix(ps: Seq<PopView>, p: PopView, n: nat)
    requires
        n <= ps.len(),
    ensures
        total_fold(ps.push(p), n) == total_fold(ps, n),
    decreases n,
{
    if n > 0 {
        lemma_total_fold_prefix(ps, p, (n - 1) as nat);
        assert(ps.push(p)[n - 1] == ps[n - 1]);
    }
}

/// Adding a pop to a state adds its people to the state's total (and an empty pop
/// makes the total an error).
pub proof fn law_insert_pop_total(ps: Seq<PopView>, p: PopView)
    ensures
        total_fold(ps.push(p), ps.len() + 1) == (if p.empty {
            None
        } else {
            match total_fold(ps, ps.len()) {
                Some(b) => Some(b + pop_size(p)),
                None => None,
            }
        }),
{
    lemma_total_fold_prefix(ps, p, ps.len());
    assert(ps.push(p)[ps.len() as int] == p);
}

pub proof fn lemma_culture_fold_none(ps: Seq<PopView>, c: nat, n: nat)
    requires
        n <= ps.len(),
        culture_fold(ps, c, n) is None,
    ensures
        culture_fold(ps, c, ps.len()) is None,
    decreases ps.len() - n,
{
    if n < ps.len() {
        lemma_culture_fold_none(ps, c, n + 1);
    }
}

pub proof fn lemma_religion_fold_none(ps: Seq<PopView>, r: Seq<char>, n: nat)
    requires
        n <= ps.len(),
        religion_fold(ps, r, n) is None,
    ensures
        religion_fold(ps, r, ps.len()) is None,
    decreases ps.len() - n,
{
    if n < ps.len() {
        lemma_religion_fold_none(ps, r, n + 1);
    }
}

pub proof fn lemma_total_fold_none(ps: Seq<PopView>, n: nat)
    requires
        n <= ps.len(),
        total_fold(ps, n) is None,
    ensures
        total_fold(ps, ps.len()) is None,
    decreases ps.len() - n,
{
    if n < ps.len() {
        lemma_total_fold_none(ps, n + 1);
    }
}

impl GetMapFile for State {
    open spec fn vec_ok(items: Seq<DataView>, database: Option<Seq<char>>) -> bool {
        database_ok::<Self>(items, database)
    }

    open spec fn spec_vec(items: Seq<DataView>, database: Option<Seq<char>>) -> Result<
        Seq<<Self as View>::V>,
        (),
    > {
        spec_consume_vec::<Self>(items, database)
    }

    fn consume_vec(inp: MapIterator, database: Option<&str>) -> (r: Result<Vec<Self>, VicError>) {
        consume_entries::<Self>(inp, database)
    }
}

impl GetMapData for State {
    open spec fn accepts(d: DataView) -> bool {
        state_accepts(d)
    }

    open spec fn spec_one(d: DataView) -> Result<StateView, ()> {
        spec_state(d)
    }

    fn consume_one(inp: DataStructure) -> (r: Result<Self, VicError>) {
        let (itr_label, content_outer) = inp.itr_info()?;
        let id = parse_usize(itr_label.as_str())?;
        let table = state_fields();
        let rec = read_record(content_outer.as_str(), &table, ValPolicy::NoneFlag)?;
        let ghost rv = rec@;
        match rec.text(2) {
            Some(name) => {
                let provinces = match rec.nums(3) {
                    Some(v) => v,
                    None => Vec::new(),
                };
                let s = State {
                    id,
                    template_name: name,
                    provinces,
                    capital: rec.num(0),
                    country: rec.num(1),
                    pops: Vec::new(),
                    empty: rec.none,
                };
                assert(s@.provinces =~= state_of_record(id as nat, rv).unwrap().provinces);
                assert(s@.pops =~= Seq::<PopView>::empty());
                assert(s@ == state_of_record(id as nat, rv).unwrap());
                Ok(s)
            },
            None => {
                if rec.none {
                    let s = State {
                        id,
                        template_name: String::new(),
                        provinces: Vec::new(),
                        capital: None,
                        country: None,
                        pops: Vec::new(),
                        empty: true,
                    };
                    assert(s@.provinces =~= Seq::<nat>::empty());
                    assert(s@.pops =~= Seq::<PopView>::empty());
                    assert(s@ == state_of_record(id as nat, rv).unwrap());
                    Ok(s)
                } else {
                    Err(VicError::Other(String::from_str("Incorrectly Initialized State")))
                }
            },
        }
    }
}

} // verus!
