//! Cultures of the game files.
use vstd::prelude::*;

use crate::error::VicError;
use crate::record::{
    color_slot, labelled_accepts, labelled_record, read_labelled, table_view, text_slot,
    texts_slot, FieldDef, FieldKind, RecordView, ValPolicy,
};
use crate::scanner::{
    consume_entries, database_ok, files_ok, files_run, get_data_from, spec_consume_vec,
    DataStructure, DataView, GetMapData, GetMapFile, MapIterator,
};
use crate::wrappers::{ColorSpec, ColorSpecView};

verus! {

broadcast use vstd::string::group_string_axioms;

/// A culture: its traits, color, religion and obsessions.
#[derive(Debug)]
pub struct Culture {
    name: String,
    traits: Vec<String>,
    color: ColorSpec,
    religion: String,
    obsessions: Vec<String>,
}

pub ghost struct CultureDefView {
    pub name: Seq<char>,
    pub traits: Seq<Seq<char>>,
    pub color: ColorSpecView,
    pub religion: Seq<char>,
    pub obsessions: Seq<Seq<char>>,
}

impl View for Culture {
    type V = CultureDefView;

    closed spec fn view(&self) -> CultureDefView {
        CultureDefView {
            name: self.name@,
            traits: self.traits@.map_values(|s: String| s@),
            color: self.color@,
            religion: self.religion@,
            obsessions: self.obsessions@.map_values(|s: String| s@),
        }
    }
}

pub open spec fn culture_def_table() -> Seq<(Seq<char>, FieldKind)> {
    seq![
        ("traits"@, FieldKind::ValList),
        ("color"@, FieldKind::Color),
        ("religion"@, FieldKind::Raw),
        ("obsessions"@, FieldKind::ValList),
    ]
}

pub open spec fn culture_def_of(name: Seq<char>, r: RecordView) -> CultureDefView {
    CultureDefView {
        name,
        traits: texts_slot(r, 0).unwrap(),
        color: color_slot(r, 1).unwrap(),
        religion: text_slot(r, 2).unwrap(),
        obsessions: match texts_slot(r, 3) {
            Some(o) => o,
            None => Seq::empty(),
        },
    }
}

impl Culture {
    /// The cultures of a set of files.
    pub fn new(files: &Vec<Vec<u8>>) -> (r: Result<Vec<Self>, VicError>)
        requires
            files_ok::<Culture>(files@.map_values(|f: Vec<u8>| f@)),
        ensures
            ({
                let fs = files@.map_values(|f: Vec<u8>| f@);
                &&& r is Ok <==> files_run::<Culture>(fs, fs.len()) is Ok
                &&& r matches Ok(v) ==> files_run::<Culture>(fs, fs.len()) == Ok::<
                    Seq<CultureDefView>,
                    (),
                >(v@.map_values(|x: Culture| x@))
            }),
    {
        get_data_from::<Culture>(files)
    }

    pub fn name(&self) -> (r: &String)
        ensures
            r@ == self@.name,
    {
        &self.name
    }

    pub fn color(&self) -> (r: &ColorSpec)
        ensures
            r@ == self@.color,
    {
        &self.color
    }
}

impl GetMapFile for Culture {
    open spec fn vec_ok(items: Seq<DataView>, database: Option<Seq<char>>) -> bool {
        database_ok::<Self>(items, database)
    }

    open spec fn spec_vec(items: Seq<DataView>, database: Option<Seq<char>>) -> Result<
        Seq<<Self as View>::V>,
        (),
    > {
        spec_consume_vec::<Self>(items, database)
    }

    fn consume_vec(inp: MapIterator, database: Option<&str>) -> (r: Result<Vec<Self>, VicError>) {
        consume_entries::<Self>(inp, database)
    }
}

impl GetMapData for Culture {
    open spec fn accepts(d: DataView) -> bool {
        &&& labelled_accepts(d, culture_def_table(), ValPolicy::Error)
        &&& (labelled_record(d, culture_def_table(), ValPolicy::Error) matches Some((_, r)) ==> {
            &&& texts_slot(r, 0) is Some
            &&& color_slot(r, 1) is Some
            &&& text_slot(r, 2) is Some
        })
    }

    open spec fn spec_one(d: DataView) -> Result<CultureDefView, ()> {
        match labelled_record(d, culture_def_table(), ValPolicy::Error) {
            Some((name, r)) => Ok(culture_def_of(name, r)),
            None => Err(()),
        }
    }

    fn consume_one(inp: DataStructure) -> (r: Result<Self, VicError>) {
        let table = vec![
            FieldDef { name: "traits", kind: FieldKind::ValList },
            FieldDef { name: "color", kind: FieldKind::Color },
            FieldDef { name: "religion", kind: FieldKind::Raw },
            FieldDef { name: "obsessions", kind: FieldKind::ValList },
        ];
        assert(table_view(table@) =~= culture_def_table());
        let (name, rec) = read_labelled(inp, &table, ValPolicy::Error)?;
        let ghost rv = rec@;
        let c = Culture {
            name,
            traits: rec.texts(0).unwrap(),
            color: rec.color(1).unwrap(),
            religion: rec.text(2).unwrap(),
            obsessions: match rec.texts(3) {
                Some(o) => o,
                None => Vec::new(),
            },
        };
        assert(c@.obsessions =~= culture_def_of(c@.name, rv).obsessions);
        assert(c@ == culture_def_of(c@.name, rv));
        Ok(c)
    }
}

} // verus!
