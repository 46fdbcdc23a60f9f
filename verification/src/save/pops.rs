//! Population groups of a save, as the plain reader of saves takes them: a pop is
//! whole only where its workforce and dependents are both given.
use vstd::prelude::*;

use crate::error::VicError;
use crate::record::{
    num_slot, parse_usize, read_record, record_accepts, spec_record, table_view, text_slot,
    usize_max, FieldDef, FieldKind, RecordView, ValPolicy,
};
use crate::data::save2::pops::{empty_pop, pop_size, PopView};
use crate::scanner::{
    consume_entries, database_ok, spec_consume_vec, DataStructure, DataView, GetMapData,
    GetMapFile, MapIterator,
};
use crate::text::spec_parse_bounded;

verus! {

broadcast use vstd::string::group_string_axioms;

/// One population group of a save.
#[derive(Debug)]
pub struct Pop {
    id: usize,
    profession: String,
    religion: String,
    culture: usize,
    location: usize,
    workplace: Option<usize>,
    literates: usize,
    workforce: usize,
    dependents: usize,
    wealth: usize,
    empty: bool,
}

impl View for Pop {
    type V = PopView;

    closed spec fn view(&self) -> PopView {
        PopView {
            id: self.id as nat,
            profession: self.profession@,
            religion: self.religion@,
            culture: self.culture as nat,
            location: self.location as nat,
            workplace: match self.workplace {
                Some(w) => Some(w as nat),
                None => None,
            },
            literates: self.literates as nat,
            workforce: self.workforce as nat,
            dependents: self.dependents as nat,
            wealth: self.wealth as nat,
            empty: self.empty,
        }
    }
}

/// The fields of a pop entry, in the order the record reader holds them.
pub open spec fn pop_table() -> Seq<(Seq<char>, FieldKind)> {
    seq![
        ("type"@, FieldKind::Unquoted),
        ("size_wa"@, FieldKind::Uint),
        ("size_dn"@, FieldKind::Uint),
        ("location"@, FieldKind::Uint),
        ("literate"@, FieldKind::Uint),
        ("religion"@, FieldKind::Unquoted),
        ("wealth"@, FieldKind::Uint),
        ("culture"@, FieldKind::Uint),
        ("workplace"@, FieldKind::Uint),
    ]
}

fn pop_fields() -> (r: Vec<FieldDef>)
    ensures
        table_view(r@) == pop_table(),
{
    let r = vec![
        FieldDef { name: "type", kind: FieldKind::Unquoted },
        FieldDef { name: "size_wa", kind: FieldKind::Uint },
        FieldDef { name: "size_dn", kind: FieldKind::Uint },
        FieldDef { name: "location", kind: FieldKind::Uint },
        FieldDef { name: "literate", kind: FieldKind::Uint },
        FieldDef { name: "religion", kind: FieldKind::Unquoted },
        FieldDef { name: "wealth", kind: FieldKind::Uint },
        FieldDef { name: "culture", kind: FieldKind::Uint },
        FieldDef { name: "workplace", kind: FieldKind::Uint },
    ];
    assert(table_view(r@) =~= pop_table());
    r
}

/// The pop that a block of fields gives: a full pop where profession, religion,
/// culture, location, workforce, dependents and wealth are all there; an empty pop where they are not but
/// the block says `none`; otherwise nothing.
pub open spec fn pop_of_record(id: nat, r: RecordView) -> Option<PopView> {
    if text_slot(r, 0) is Some && text_slot(r, 5) is Some && num_slot(r, 7) is Some && num_slot(
        r,
        3,
    ) is Some && num_slot(r, 1) is Some && num_slot(r, 2) is Some && num_slot(r, 6) is Some {
        Some(
            PopView {
                id,
                profession: text_slot(r, 0).unwrap(),
                religion: text_slot(r, 5).unwrap(),
                culture: num_slot(r, 7).unwrap(),
                location: num_slot(r, 3).unwrap(),
                workplace: num_slot(r, 8),
                literates: match num_slot(r, 4) {
                    Some(n) => n,
                    None => 0,
                },
                workforce: num_slot(r, 1).unwrap(),
                dependents: num_slot(r, 2).unwrap(),
                wealth: num_slot(r, 6).unwrap(),
                empty: r.none,
            },
        )
    } else if r.none {
        Some(empty_pop(id))
    } else {
        None
    }
}

/// The pop that the entry `id = { ... }` gives.
pub open spec fn spec_pop(d: DataView) -> Result<PopView, ()> {
    match d {
        DataView::Itr(l, c) => match spec_parse_bounded(l, usize_max()) {
            Some(id) => match spec_record(c, pop_table(), ValPolicy::NoneFlag) {
                Ok(r) => match pop_of_record(id, r) {
                    Some(p) => Ok(p),
                    None => Err(()),
                },
                Err(_) => Err(()),
            },
            None => Err(()),
        },
        DataView::Val(_) => Err(()),
    }
}

/// Whether reading the entry is accepted: its block must open and close its braces,
/// hold no bare value but `none`, and every quoted field must hold at least its quotes.
pub open spec fn pop_accepts(d: DataView) -> bool {
    match d {
        DataView::Itr(l, c) => spec_parse_bounded(l, usize_max()) is Some ==> record_accepts(
            c,
            pop_table(),
            ValPolicy::NoneFlag,
        ),
        DataView::Val(_) => true,
    }
}

fn empty_error(what: &str) -> (e: VicError)
    ensures
        e is Other,
{
    let mut msg = String::from_str("Tried accessing ");
    msg.append(what);
    msg.append(" of empty pop");
    VicError::Other(msg)
}

impl Pop {
    pub fn location(&self) -> (r: Result<usize, VicError>)
        ensures
            r is Ok <==> !self@.empty,
            r matches Ok(n) ==> n as nat == self@.location,
            r matches Err(e) ==> e is Other,
    {
        if self.empty {
            Err(empty_error("location"))
        } else {
            Ok(self.location)
        }
    }

    pub fn culture(&self) -> (r: Result<usize, VicError>)
        ensures
            r is Ok <==> !self@.empty,
            r matches Ok(n) ==> n as nat == self@.culture,
            r matches Err(e) ==> e is Other,
    {
        if self.empty {
            Err(empty_error("culture"))
        } else {
            Ok(self.culture)
        }
    }

    pub fn religion(&self) -> (r: Result<&str, VicError>)
        ensures
            r is Ok <==> !self@.empty,
            r matches Ok(s) ==> s@ == self@.religion,
            r matches Err(e) ==> e is Other,
    {
        if self.empty {
            Err(empty_error("religion"))
        } else {
            Ok(self.religion.as_str())
        }
    }

    pub fn workforce(&self) -> (r: Result<usize, VicError>)
        ensures
            r is Ok <==> !self@.empty,
            r matches Ok(n) ==> n as nat == self@.workforce,
            r matches Err(e) ==> e is Other,
    {
        if self.empty {
            Err(empty_error("size"))
        } else {
            Ok(self.workforce)
        }
    }

    pub fn dependents(&self) -> (r: Result<usize, VicError>)
        ensures
            r is Ok <==> !self@.empty,
            r matches Ok(n) ==> n as nat == self@.dependents,
            r matches Err(e) ==> e is Other,
    {
        if self.empty {
            Err(empty_error("size"))
        } else {
            Ok(self.dependents)
        }
    }

    pub fn empty(&self) -> (r: bool)
        ensures
            r == self@.empty,
    {
        self.empty
    }

    /// Workforce and dependents together.
    pub fn size(&self) -> (r: Result<usize, VicError>)
        requires
            !self@.empty ==> pop_size(self@) <= usize::MAX,
        ensures
            r is Ok <==> !self@.empty,
            r matches Ok(n) ==> n as nat == pop_size(self@),
            r matches Err(e) ==> e is Other,
    {
        let d = self.dependents()?;
        let w = self.workforce()?;
        Ok(d + w)
    }
}

impl GetMapFile for Pop {
    open spec fn vec_ok(items: Seq<DataView>, database: Option<Seq<char>>) -> bool {
        database_ok::<Self>(items, database)
    }

    open spec fn spec_vec(items: Seq<DataView>, database: Option<Seq<char>>) -> Result<
        Seq<<Self as View>::V>,
        (),
    > {
        spec_consume_vec::<Self>(items, database)
    }

    fn consume_vec(inp: MapIterator, database: Option<&str>) -> (r: Result<Vec<Self>, VicError>) {
        consume_entries::<Self>(inp, database)
    }
}

impl GetMapData for Pop {
    open spec fn accepts(d: DataView) -> bool {
        pop_accepts(d)
    }

    open spec fn spec_one(d: DataView) -> Result<PopView, ()> {
        spec_pop(d)
    }

    fn consume_one(inp: DataStructure) -> (r: Result<Self, VicError>) {
        let (itr_label, content_outer) = inp.itr_info()?;
        let id = parse_usize(itr_label.as_str())?;
        let table = pop_fields();
        let rec = read_record(content_outer.as_str(), &table, ValPolicy::NoneFlag)?;
        let ghost rv = rec@;
        let profession = rec.text(0);
        let religion = rec.text(5);
        let culture = rec.num(7);
        let location = rec.num(3);
        let wealth = rec.num(6);
        let workforce = rec.num(1);
        let dependents = rec.num(2);
        match (profession, religion, culture, location, workforce, dependents, wealth) {
            (
                Some(profession),
                Some(religion),
                Some(culture),
                Some(location),
                Some(workforce),
                Some(dependents),
                Some(wealth),
            ) => {
                let workplace = rec.num(8);
                let literates = match rec.num(4) {
                    Some(n) => n,
                    None => 0,
                };
                let p = Pop {
                    id,
                    profession,
                    religion,
                    culture,
                    location,
                    workplace,
                    literates,
                    workforce,
                    dependents,
                    wealth,
                    empty: rec.none,
                };
                assert(p@ == pop_of_record(id as nat, rv).unwrap());
                Ok(p)
            },
            _ => {
                if rec.none {
                    let p = Pop {
                        id,
                        profession: String::new(),
                        religion: String::new(),
                        culture: 0,
                        location: 0,
                        workplace: None,
                        literates: 0,
                        workforce: 0,
                        dependents: 0,
                        wealth: 0,
                        empty: true,
                    };
                    assert(p@ == empty_pop(id as nat));
                    Ok(p)
                } else {
                    Err(VicError::Other(String::from_str("Incorrectly Initialized Pop")))
                }
            },
        }
    }
}

} // verus!
