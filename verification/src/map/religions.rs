//! Religions of the game files.
use vstd::prelude::*;

use crate::error::VicError;
use crate::record::{
    color_slot, labelled_accepts, labelled_record, read_labelled, table_view, texts_slot,
    FieldDef, FieldKind, RecordView, ValPolicy,
};
use crate::scanner::{
    consume_entries, database_ok, files_ok, files_run, get_data_from, spec_consume_vec,
    DataStructure, DataView, GetMapData, GetMapFile, MapIterator,
};
use crate::wrappers::{ColorSpec, ColorSpecView};

verus! {

broadcast use vstd::string::group_string_axioms;

/// A religion: its traits, color and taboos.
#[derive(Debug)]
pub struct Religion {
    name: String,
    traits: Vec<String>,
    color: ColorSpec,
    taboos: Vec<String>,
}

pub ghost struct ReligionView {
    pub name: Seq<char>,
    pub traits: Seq<Seq<char>>,
    pub color: ColorSpecView,
    pub taboos: Seq<Seq<char>>,
}

impl View for Religion {
    type V = ReligionView;

    closed spec fn view(&self) -> ReligionView {
        ReligionView {
            name: self.name@,
            traits: self.traits@.map_values(|s: String| s@),
            color: self.color@,
            taboos: self.taboos@.map_values(|s: String| s@),
        }
    }
}

pub open spec fn religion_table() -> Seq<(Seq<char>, FieldKind)> {
    seq![
        ("traits"@, FieldKind::ValList),
        ("color"@, FieldKind::Color),
        ("taboos"@, FieldKind::ValList),
    ]
}

pub open spec fn religion_of(name: Seq<char>, r: RecordView) -> ReligionView {
    ReligionView {
        name,
        traits: texts_slot(r, 0).unwrap(),
        color: color_slot(r, 1).unwrap(),
        taboos: match texts_slot(r, 2) {
            Some(t) => t,
            None => Seq::empty(),
        },
    }
}

impl Religion {
    /// The religions of a set of files.
    pub fn new(files: &Vec<Vec<u8>>) -> (r: Result<Vec<Self>, VicError>)
        requires
            files_ok::<Religion>(files@.map_values(|f: Vec<u8>| f@)),
        ensures
            ({
                let fs = files@.map_values(|f: Vec<u8>| f@);
                &&& r is Ok <==> files_run::<Religion>(fs, fs.len()) is Ok
                &&& r matches Ok(v) ==> files_run::<Religion>(fs, fs.len()) == Ok::<
                    Seq<ReligionView>,
                    (),
                >(v@.map_values(|x: Religion| x@))
            }),
    {
        get_data_from::<Religion>(files)
    }

    pub fn name(&self) -> (r: &str)
        ensures
            r@ == self@.name,
    {
        self.name.as_str()
    }

    pub fn color(&self) -> (r: &ColorSpec)
        ensures
            r@ == self@.color,
    {
        &self.color
    }
}

impl GetMapFile for Religion {
    open spec fn vec_ok(items: Seq<DataView>, database: Option<Seq<char>>) -> bool {
        database_ok::<Self>(items, database)
    }

    open spec fn spec_vec(items: Seq<DataView>, database: Option<Seq<char>>) -> Result<
        Seq<<Self as View>::V>,
        (),
    > {
        spec_consume_vec::<Self>(items, database)
    }

    fn consume_vec(inp: MapIterator, database: Option<&str>) -> (r: Result<Vec<Self>, VicError>) {
        consume_entries::<Self>(inp, database)
    }
}

impl GetMapData for Religion {
    open spec fn accepts(d: DataView) -> bool {
        &&& labelled_accepts(d, religion_table(), ValPolicy::Error)
        &&& (labelled_record(d, religion_table(), ValPolicy::Error) matches Some((_, r)) ==> {
            &&& texts_slot(r, 0) is Some
            &&& color_slot(r, 1) is Some
        })
    }

    open spec fn spec_one(d: DataView) -> Result<ReligionView, ()> {
        match labelled_record(d, religion_table(), ValPolicy::Error) {
            Some((name, r)) => Ok(religion_of(name, r)),
            None => Err(()),
        }
    }

    fn consume_one(inp: DataStructure) -> (r: Result<Self, VicError>) {
        let table = vec![
            FieldDef { name: "traits", kind: FieldKind::ValList },
            FieldDef { name: "color", kind: FieldKind::Color },
            FieldDef { name: "taboos", kind: FieldKind::ValList },
        ];
        assert(table_view(table@) =~= religion_table());
        let (name, rec) = read_labelled(inp, &table, ValPolicy::Error)?;
        let ghost rv = rec@;
        let r = Religion {
            name,
            traits: rec.texts(0).unwrap(),
            color: rec.color(1).unwrap(),
            taboos: match rec.texts(2) {
                Some(t) => t,
                None => Vec::new(),
            },
        };
        assert(r@.taboos =~= religion_of(r@.name, rv).taboos);
        assert(r@ == religion_of(r@.name, rv));
        Ok(r)
    }
}

} // verus!
