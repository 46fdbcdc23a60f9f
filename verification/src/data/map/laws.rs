//! Laws and law groups of the game files.
use vstd::prelude::*;

use crate::error::VicError;
use crate::record::{
    read_record, record_accepts, spec_record, table_view, text_slot, FieldDef, FieldKind,
    ValPolicy,
};
use crate::scanner::{files_ok, files_run, get_data_from, DataStructure, DataView, GetMapData, consume_entries, database_ok, GetMapFile, spec_consume_vec, MapIterator};

verus! {

broadcast use vstd::string::group_string_axioms;

/// A law and the group it belongs to.
#[derive(Debug)]
pub struct Law {
    name: String,
    group: String,
}

/// A group of laws and its category.
#[derive(Debug)]
pub struct LawGroup {
    name: String,
    category: String,
}

pub ghost struct LawView {
    pub name: Seq<char>,
    pub group: Seq<char>,
}

pub ghost struct LawGroupView {
    pub name: Seq<char>,
    pub category: Seq<char>,
}

impl View for Law {
    type V = LawView;

    closed spec fn view(&self) -> LawView {
        LawView { name: self.name@, group: self.group@ }
    }
}

impl View for LawGroup {
    type V = LawGroupView;

    closed spec fn view(&self) -> LawGroupView {
        LawGroupView { name: self.name@, category: self.category@ }
    }
}

pub open spec fn law_table() -> Seq<(Seq<char>, FieldKind)> {
    seq![("group"@, FieldKind::Raw)]
}

pub open spec fn law_group_table() -> Seq<(Seq<char>, FieldKind)> {
    seq![("law_group_category"@, FieldKind::Raw)]
}

/// The one named field of an entry `name = { label = value ... }`, read where the
/// block holds no bare value: `None` where reading stops with an error.
pub open spec fn named_field(d: DataView, table: Seq<(Seq<char>, FieldKind)>) -> Option<
    (Seq<char>, Option<Seq<char>>),
> {
    match d {
        DataView::Itr(l, c) => match spec_record(c, table, ValPolicy::Error) {
            Ok(r) => Some((l, text_slot(r, 0))),
            Err(_) => None,
        },
        DataView::Val(_) => None,
    }
}

/// Whether reading such an entry is accepted: its block opens and closes its braces,
/// and, where it is read through, holds the field.
pub open spec fn named_field_accepts(d: DataView, table: Seq<(Seq<char>, FieldKind)>) -> bool {
    match d {
        DataView::Itr(l, c) => {
            &&& record_accepts(c, table, ValPolicy::Error)
            &&& (spec_record(c, table, ValPolicy::Error) matches Ok(r) ==> text_slot(r, 0) is Some)
        },
        DataView::Val(_) => true,
    }
}

fn read_named(inp: DataStructure, table: &Vec<FieldDef>) -> (r: Result<(String, String), VicError>)
    requires
        table@.len() == 1,
        named_field_accepts(inp@, table_view(table@)),
    ensures
        r is Ok <==> named_field(inp@, table_view(table@)) is Some,
        r matches Ok((a, b)) ==> named_field(inp@, table_view(table@)) == Some(
            (a@, Some(b@)),
        ),
{
    let (itr_label, content_outer) = inp.itr_info()?;
    let rec = read_record(content_outer.as_str(), table, ValPolicy::Error)?;
    let v = rec.text(0).unwrap();
    Ok((itr_label, v))
}

impl Law {
    /// The laws of a set of files, each holding entries `name = { group = ... }`.
    pub fn new(files: &Vec<Vec<u8>>) -> (r: Result<Vec<Self>, VicError>)
        requires
            files_ok::<Law>(files@.map_values(|f: Vec<u8>| f@)),
        ensures
            ({
                let fs = files@.map_values(|f: Vec<u8>| f@);
                &&& r is Ok <==> files_run::<Law>(fs, fs.len()) is Ok
                &&& r matches Ok(v) ==> files_run::<Law>(fs, fs.len()) == Ok::<
                    Seq<LawView>,
                    (),
                >(v@.map_values(|x: Law| x@))
            }),
    {
        get_data_from::<Law>(files)
    }

    pub fn name(&self) -> (r: &String)
        ensures
            r@ == self@.name,
    {
        &self.name
    }

    /// The law's name: this accessor hands out the name, not the group that was read.
    pub fn group(&self) -> (r: &String)
        ensures
            r@ == self@.name,
    {
        &self.name
    }
}

impl LawGroup {
    /// The law groups of a set of files, each holding entries
    /// `name = { law_group_category = ... }`.
    pub fn new(files: &Vec<Vec<u8>>) -> (r: Result<Vec<Self>, VicError>)
        requires
            files_ok::<LawGroup>(files@.map_values(|f: Vec<u8>| f@)),
        ensures
            ({
                let fs = files@.map_values(|f: Vec<u8>| f@);
                &&& r is Ok <==> files_run::<LawGroup>(fs, fs.len()) is Ok
                &&& r matches Ok(v) ==> files_run::<LawGroup>(fs, fs.len()) == Ok::<
                    Seq<LawGroupView>,
                    (),
                >(v@.map_values(|x: LawGroup| x@))
            }),
    {
        get_data_from::<LawGroup>(files)
    }

    pub fn name(&self) -> (r: &String)
        ensures
            r@ == self@.name,
    {
        &self.name
    }

    /// The group's name: this accessor hands out the name, not the category that was read.
    pub fn category(&self) -> (r: &String)
        ensures
            r@ == self@.name,
    {
        &self.name
    }
}

impl GetMapFile for Law {
    open spec fn vec_ok(items: Seq<DataView>, database: Option<Seq<char>>) -> bool {
        database_ok::<Self>(items, database)
    }

    open spec fn spec_vec(items: Seq<DataView>, database: Option<Seq<char>>) -> Result<
        Seq<<Self as View>::V>,
        (),
    > {
        spec_consume_vec::<Self>(items, database)
    }

    fn consume_vec(inp: MapIterator, database: Option<&str>) -> (r: Result<Vec<Self>, VicError>) {
        consume_entries::<Self>(inp, database)
    }
}

impl GetMapData for Law {
    open spec fn accepts(d: DataView) -> bool {
        named_field_accepts(d, law_table())
    }

    open spec fn spec_one(d: DataView) -> Result<LawView, ()> {
        match named_field(d, law_table()) {
            Some((name, Some(group))) => Ok(LawView { name, group }),
            _ => Err(()),
        }
    }

    fn consume_one(inp: DataStructure) -> (r: Result<Self, VicError>) {
        let table = vec![FieldDef { name: "group", kind: FieldKind::Raw }];
        assert(table_view(table@) =~= law_table());
        let (name, group) = read_named(inp, &table)?;
        Ok(Law { name, group })
    }
}

impl GetMapFile for LawGroup {
    open spec fn vec_ok(items: Seq<DataView>, database: Option<Seq<char>>) -> bool {
        database_ok::<Self>(items, database)
    }

    open spec fn spec_vec(items: Seq<DataView>, database: Option<Seq<char>>) -> Result<
        Seq<<Self as View>::V>,
        (),
    > {
        spec_consume_vec::<Self>(items, database)
    }

    fn consume_vec(inp: MapIterator, database: Option<&str>) -> (r: Result<Vec<Self>, VicError>) {
        consume_entries::<Self>(inp, database)
    }
}

impl GetMapData for LawGroup {
    open spec fn accepts(d: DataView) -> bool {
        named_field_accepts(d, law_group_table())
    }

    open spec fn spec_one(d: DataView) -> Result<LawGroupView, ()> {
        match named_field(d, law_group_table()) {
            Some((name, Some(category))) => Ok(LawGroupView { name, category }),
            _ => Err(()),
        }
    }

    fn consume_one(inp: DataStructure) -> (r: Result<Self, VicError>) {
        let table = vec![FieldDef { name: "law_group_category", kind: FieldKind::Raw }];
        assert(table_view(table@) =~= law_group_table());
        let (name, category) = read_named(inp, &table)?;
        Ok(LawGroup { name, category })
    }
}

} // verus!
