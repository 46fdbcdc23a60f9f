//! Country definitions of the game files.
use vstd::prelude::*;

use crate::error::VicError;
use crate::record::{
    color_slot, labelled_accepts, labelled_record, read_labelled, table_view, FieldDef,
    FieldKind, ValPolicy,
};
use crate::scanner::{files_ok, files_run, get_data_from, DataStructure, DataView, GetMapData, consume_entries, database_ok, GetMapFile, spec_consume_vec, MapIterator};
use crate::wrappers::{ColorSpec, ColorSpecView};

verus! {

broadcast use vstd::string::group_string_axioms;

/// A country definition: its tag and its map color.
#[derive(Debug)]
pub struct Country {
    name: String,
    color: ColorSpec,
}

pub ghost struct CountryDefView {
    pub name: Seq<char>,
    pub color: ColorSpecView,
}

impl View for Country {
    type V = CountryDefView;

    closed spec fn view(&self) -> CountryDefView {
        CountryDefView { name: self.name@, color: self.color@ }
    }
}

pub open spec fn country_def_table() -> Seq<(Seq<char>, FieldKind)> {
    seq![("color"@, FieldKind::Color)]
}

impl Country {
    /// The country definitions of a set of files.
    pub fn new(files: &Vec<Vec<u8>>) -> (r: Result<Vec<Self>, VicError>)
        requires
            files_ok::<Country>(files@.map_values(|f: Vec<u8>| f@)),
        ensures
            ({
                let fs = files@.map_values(|f: Vec<u8>| f@);
                &&& r is Ok <==> files_run::<Country>(fs, fs.len()) is Ok
                &&& r matches Ok(v) ==> files_run::<Country>(fs, fs.len()) == Ok::<
                    Seq<CountryDefView>,
                    (),
                >(v@.map_values(|x: Country| x@))
            }),
    {
        get_data_from::<Country>(files)
    }

    pub fn name(&self) -> (r: &str)
        ensures
            r@ == self@.name,
    {
        self.name.as_str()
    }

    pub fn color(&self) -> (r: &ColorSpec)
        ensures
            r@ == self@.color,
    {
        &self.color
    }
}

impl GetMapFile for Country {
    open spec fn vec_ok(items: Seq<DataView>, database: Option<Seq<char>>) -> bool {
        database_ok::<Self>(items, database)
    }

    open spec fn spec_vec(items: Seq<DataView>, database: Option<Seq<char>>) -> Result<
        Seq<<Self as View>::V>,
        (),
    > {
        spec_consume_vec::<Self>(items, database)
    }

    fn consume_vec(inp: MapIterator, database: Option<&str>) -> (r: Result<Vec<Self>, VicError>) {
        consume_entries::<Self>(inp, database)
    }
}

impl GetMapData for Country {
    open spec fn accepts(d: DataView) -> bool {
        &&& labelled_accepts(d, country_def_table(), ValPolicy::Error)
        &&& (labelled_record(d, country_def_table(), ValPolicy::Error) matches Some((_, r))
            ==> color_slot(r, 0) is Some)
    }

    open spec fn spec_one(d: DataView) -> Result<CountryDefView, ()> {
        match labelled_record(d, country_def_table(), ValPolicy::Error) {
            Some((name, r)) => Ok(CountryDefView { name, color: color_slot(r, 0).unwrap() }),
            None => Err(()),
        }
    }

    fn consume_one(inp: DataStructure) -> (r: Result<Self, VicError>) {
        let table = vec![FieldDef { name: "color", kind: FieldKind::Color }];
        assert(table_view(table@) =~= country_def_table());
        let (name, rec) = read_labelled(inp, &table, ValPolicy::Error)?;
        let color = rec.color(0).unwrap();
        Ok(Country { name, color })
    }
}

} // verus!
