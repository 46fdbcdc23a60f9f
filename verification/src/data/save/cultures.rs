//! Cultures as a save file lists them.
use vstd::prelude::*;

use crate::error::VicError;
use crate::record::{
    parse_usize, read_record, record_accepts, spec_record, table_view, text_slot, texts_slot,
    usize_max, FieldDef, FieldKind, RecordView, ValPolicy,
};
use crate::scanner::{DataStructure, DataView, GetMapData, consume_entries, database_ok, GetMapFile, spec_consume_vec, MapIterator};
use crate::text::spec_parse_bounded;

verus! {

broadcast use vstd::string::group_string_axioms;

/// One culture of a save.
#[derive(Debug)]
pub struct Culture {
    id: usize,
    name: String,
    // could find ID instead of string, but this way the save and game files are analyzed independently.
    homelands: Vec<String>,
}

pub ghost struct CultureView {
    pub id: nat,
    pub name: Seq<char>,
    pub homelands: Seq<Seq<char>>,
}

impl View for Culture {
    type V = CultureView;

    closed spec fn view(&self) -> CultureView {
        CultureView {
            id: self.id as nat,
            name: self.name@,
            homelands: self.homelands@.map_values(|s: String| s@),
        }
    }
}

pub open spec fn culture_table() -> Seq<(Seq<char>, FieldKind)> {
    seq![("type"@, FieldKind::Raw), ("core_states"@, FieldKind::ValList)]
}

fn culture_fields() -> (r: Vec<FieldDef>)
    ensures
        table_view(r@) == culture_table(),
{
    let r = vec![
        FieldDef { name: "type", kind: FieldKind::Raw },
        FieldDef { name: "core_states", kind: FieldKind::ValList },
    ];
    assert(table_view(r@) =~= culture_table());
    r
}

pub open spec fn culture_of_record(id: nat, r: RecordView) -> CultureView {
    CultureView {
        id,
        name: text_slot(r, 0).unwrap(),
        homelands: match texts_slot(r, 1) {
            Some(h) => h,
            None => Seq::empty(),
        },
    }
}

/// The culture that the entry `id = { type = name core_states = { ... } }` gives.
pub open spec fn spec_culture(d: DataView) -> Result<CultureView, ()> {
    match d {
        DataView::Itr(l, c) => match spec_parse_bounded(l, usize_max()) {
            Some(id) => match spec_record(c, culture_table(), ValPolicy::Reject) {
                Ok(r) => Ok(culture_of_record(id, r)),
                Err(_) => Err(()),
            },
            None => Err(()),
        },
        DataView::Val(_) => Err(()),
    }
}

/// Whether reading the entry is accepted: its block holds no bare value, and names
/// the culture's type.
pub open spec fn culture_accepts(d: DataView) -> bool {
    match d {
        DataView::Itr(l, c) => spec_parse_bounded(l, usize_max()) is Some ==> {
            &&& record_accepts(c, culture_table(), ValPolicy::Reject)
            &&& (spec_record(c, culture_table(), ValPolicy::Reject) matches Ok(r) ==> text_slot(
                r,
                0,
            ) is Some)
        },
        DataView::Val(_) => true,
    }
}

impl Culture {
    pub fn id(&self) -> (r: usize)
        ensures
            r as nat == self@.id,
    {
        self.id
    }

    pub fn name(&self) -> (r: &String)
        ensures
            r@ == self@.name,
    {
        &self.name
    }

    pub fn homelands(&self) -> (r: &Vec<String>)
        ensures
            r@.map_values(|s: String| s@) == self@.homelands,
    {
        &self.homelands
    }
}

impl GetMapFile for Culture {
    open spec fn vec_ok(items: Seq<DataView>, database: Option<Seq<char>>) -> bool {
        database_ok::<Self>(items, database)
    }

    open spec fn spec_vec(items: Seq<DataView>, database: Option<Seq<char>>) -> Result<
        Seq<<Self as View>::V>,
        (),
    > {
        spec_consume_vec::<Self>(items, database)
    }

    fn consume_vec(inp: MapIterator, database: Option<&str>) -> (r: Result<Vec<Self>, VicError>) {
        consume_entries::<Self>(inp, database)
    }
}

impl GetMapData for Culture {
    open spec fn accepts(d: DataView) -> bool {
        culture_accepts(d)
    }

    open spec fn spec_one(d: DataView) -> Result<CultureView, ()> {
        spec_culture(d)
    }

    fn consume_one(inp: DataStructure) -> (r: Result<Self, VicError>) {
        let (itr_label, content_outer) = inp.itr_info()?;
        let id = parse_usize(itr_label.as_str())?;
        let table = culture_fields();
        let rec = read_record(content_outer.as_str(), &table, ValPolicy::Reject)?;
        let ghost rv = rec@;
        let name = rec.text(0).unwrap();
        let homelands = match rec.texts(1) {
            Some(h) => h,
            None => Vec::new(),
        };
        let c = Culture { id, name, homelands };
        assert(c@.homelands =~= culture_of_record(id as nat, rv).homelands);
        Ok(c)
    }
}

} // verus!
