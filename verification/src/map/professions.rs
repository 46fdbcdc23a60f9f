//! Professions (pop types) of the game files.
use vstd::prelude::*;

use crate::error::VicError;
use crate::record::{
    color_slot, labelled_accepts, labelled_record, read_labelled, table_view, text_slot,
    FieldDef, FieldKind, ValPolicy,
};
use crate::scanner::{
    consume_entries, database_ok, files_ok, files_run, get_data_from, spec_consume_vec,
    DataStructure, DataView, GetMapData, GetMapFile, MapIterator,
};
use crate::wrappers::{ColorSpec, ColorSpecView};

verus! {

broadcast use vstd::string::group_string_axioms;

/// A profession: its color and its stratum.
#[derive(Debug)]
pub struct Profession {
    name: String,
    color: ColorSpec,
    strata: String,
}

pub ghost struct ProfessionView {
    pub name: Seq<char>,
    pub color: ColorSpecView,
    pub strata: Seq<char>,
}

impl View for Profession {
    type V = ProfessionView;

    closed spec fn view(&self) -> ProfessionView {
        ProfessionView { name: self.name@, color: self.color@, strata: self.strata@ }
    }
}

pub open spec fn profession_table() -> Seq<(Seq<char>, FieldKind)> {
    seq![("color"@, FieldKind::Color), ("strata"@, FieldKind::Raw)]
}

impl Profession {
    /// The professions of a set of files.
    pub fn new(files: &Vec<Vec<u8>>) -> (r: Result<Vec<Self>, VicError>)
        requires
            files_ok::<Profession>(files@.map_values(|f: Vec<u8>| f@)),
        ensures
            ({
                let fs = files@.map_values(|f: Vec<u8>| f@);
                &&& r is Ok <==> files_run::<Profession>(fs, fs.len()) is Ok
                &&& r matches Ok(v) ==> files_run::<Profession>(fs, fs.len()) == Ok::<
                    Seq<ProfessionView>,
                    (),
                >(v@.map_values(|x: Profession| x@))
            }),
    {
        get_data_from::<Profession>(files)
    }

    pub fn name(&self) -> (r: &String)
        ensures
            r@ == self@.name,
    {
        &self.name
    }

    pub fn strata(&self) -> (r: &String)
        ensures
            r@ == self@.strata,
    {
        &self.strata
    }

    pub fn color(&self) -> (r: &ColorSpec)
        ensures
            r@ == self@.color,
    {
        &self.color
    }
}

impl GetMapFile for Profession {
    open spec fn vec_ok(items: Seq<DataView>, database: Option<Seq<char>>) -> bool {
        database_ok::<Self>(items, database)
    }

    open spec fn spec_vec(items: Seq<DataView>, database: Option<Seq<char>>) -> Result<
        Seq<<Self as View>::V>,
        (),
    > {
        spec_consume_vec::<Self>(items, database)
    }

    fn consume_vec(inp: MapIterator, database: Option<&str>) -> (r: Result<Vec<Self>, VicError>) {
        consume_entries::<Self>(inp, database)
    }
}

impl GetMapData for Profession {
    open spec fn accepts(d: DataView) -> bool {
        &&& labelled_accepts(d, profession_table(), ValPolicy::Error)
        &&& (labelled_record(d, profession_table(), ValPolicy::Error) matches Some((_, r)) ==> {
            &&& color_slot(r, 0) is Some
            &&& text_slot(r, 1) is Some
        })
    }

    open spec fn spec_one(d: DataView) -> Result<ProfessionView, ()> {
        match labelled_record(d, profession_table(), ValPolicy::Error) {
            Some((name, r)) => Ok(
                ProfessionView {
                    name,
                    color: color_slot(r, 0).unwrap(),
                    strata: text_slot(r, 1).unwrap(),
                },
            ),
            None => Err(()),
        }
    }

    fn consume_one(inp: DataStructure) -> (r: Result<Self, VicError>) {
        let table = vec![
            FieldDef { name: "color", kind: FieldKind::Color },
            FieldDef { name: "strata", kind: FieldKind::Raw },
        ];
        assert(table_view(table@) =~= profession_table());
        let (name, rec) = read_labelled(inp, &table, ValPolicy::Error)?;
        Ok(Profession { name, color: rec.color(0).unwrap(), strata: rec.text(1).unwrap() })
    }
}

} // verus!
