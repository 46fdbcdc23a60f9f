//! Strategic regions of the game files.
use vstd::prelude::*;

use crate::error::VicError;
use crate::record::{
    color_slot, labelled_accepts, labelled_record, read_labelled, table_view, text_slot,
    texts_slot, FieldDef, FieldKind, RecordView, ValPolicy,
};
use crate::scanner::{files_ok, files_run, get_data_from, DataStructure, DataView, GetMapData, consume_entries, database_ok, GetMapFile, spec_consume_vec, MapIterator};
use crate::wrappers::{ColorSpec, ColorSpecView};

verus! {

broadcast use vstd::string::group_string_axioms;

/// A strategic region: the states it groups, its color and where it stands in the
/// province numbering.
#[derive(Debug)]
pub struct StrategicRegion {
    id: Option<usize>,
    name: String,
    color: Option<ColorSpec>,
    capital: Option<ColorSpec>,
    culture: Option<String>,
    states: Vec<String>,
    offset: Option<usize>,
    ocean: bool,
}

pub ghost struct StrategicRegionView {
    pub id: Option<nat>,
    pub name: Seq<char>,
    pub color: Option<ColorSpecView>,
    pub capital: Option<ColorSpecView>,
    pub culture: Option<Seq<char>>,
    pub states: Seq<Seq<char>>,
    pub offset: Option<nat>,
    pub ocean: bool,
}

pub open spec fn opt_color(c: Option<ColorSpec>) -> Option<ColorSpecView> {
    match c {
        Some(c) => Some(c@),
        None => None,
    }
}

pub open spec fn opt_text(c: Option<String>) -> Option<Seq<char>> {
    match c {
        Some(c) => Some(c@),
        None => None,
    }
}

pub open spec fn opt_usize(c: Option<usize>) -> Option<nat> {
    match c {
        Some(c) => Some(c as nat),
        None => None,
    }
}

impl View for StrategicRegion {
    type V = StrategicRegionView;

    closed spec fn view(&self) -> StrategicRegionView {
        StrategicRegionView {
            id: opt_usize(self.id),
            name: self.name@,
            color: opt_color(self.color),
            capital: opt_color(self.capital),
            culture: opt_text(self.culture),
            states: self.states@.map_values(|s: String| s@),
            offset: opt_usize(self.offset),
            ocean: self.ocean,
        }
    }
}

pub open spec fn region_table() -> Seq<(Seq<char>, FieldKind)> {
    seq![
        ("graphical_culture"@, FieldKind::Raw),
        ("map_color"@, FieldKind::Color),
        ("capital_province"@, FieldKind::Color),
        ("states"@, FieldKind::ValList),
    ]
}

pub open spec fn region_of_record(name: Seq<char>, r: RecordView) -> StrategicRegionView {
    StrategicRegionView {
        id: None,
        name,
        color: color_slot(r, 1),
        capital: color_slot(r, 2),
        culture: text_slot(r, 0),
        states: texts_slot(r, 3).unwrap(),
        offset: None,
        ocean: false,
    }
}

impl StrategicRegion {
    /// The strategic regions of a set of files.
    pub fn new(files: &Vec<Vec<u8>>) -> (r: Result<Vec<Self>, VicError>)
        requires
            files_ok::<StrategicRegion>(files@.map_values(|f: Vec<u8>| f@)),
        ensures
            ({
                let fs = files@.map_values(|f: Vec<u8>| f@);
                &&& r is Ok <==> files_run::<StrategicRegion>(fs, fs.len()) is Ok
                &&& r matches Ok(v) ==> files_run::<StrategicRegion>(fs, fs.len()) == Ok::<
                    Seq<StrategicRegionView>,
                    (),
                >(v@.map_values(|x: StrategicRegion| x@))
            }),
    {
        get_data_from::<StrategicRegion>(files)
    }

    pub fn set_id(&mut self, id: usize)
        ensures
            final(self)@ == (StrategicRegionView { id: Some(id as nat), ..old(self)@ }),
    {
        self.id = Some(id);
    }

    pub fn states(&self) -> (r: &Vec<String>)
        ensures
            r@.map_values(|s: String| s@) == self@.states,
    {
        &self.states
    }

    pub fn set_offset(&mut self, inp: usize)
        ensures
            final(self)@ == (StrategicRegionView { offset: Some(inp as nat), ..old(self)@ }),
    {
        self.offset = Some(inp);
    }

    pub fn get_offset(&self) -> (r: Option<usize>)
        ensures
            opt_usize(r) == self@.offset,
    {
        self.offset
    }

    pub fn name(&self) -> (r: &String)
        ensures
            r@ == self@.name,
    {
        &self.name
    }

    pub fn color(&self) -> (r: Option<ColorSpec>)
        ensures
            opt_color(r) == self@.color,
    {
        match &self.color {
            Some(c) => Some(c.duplicate()),
            None => None,
        }
    }
}

impl GetMapFile for StrategicRegion {
    open spec fn vec_ok(items: Seq<DataView>, database: Option<Seq<char>>) -> bool {
        database_ok::<Self>(items, database)
    }

    open spec fn spec_vec(items: Seq<DataView>, database: Option<Seq<char>>) -> Result<
        Seq<<Self as View>::V>,
        (),
    > {
        spec_consume_vec::<Self>(items, database)
    }

    fn consume_vec(inp: MapIterator, database: Option<&str>) -> (r: Result<Vec<Self>, VicError>) {
        consume_entries::<Self>(inp, database)
    }
}

impl GetMapData for StrategicRegion {
    open spec fn accepts(d: DataView) -> bool {
        &&& labelled_accepts(d, region_table(), ValPolicy::Error)
        &&& (labelled_record(d, region_table(), ValPolicy::Error) matches Some((_, r))
            ==> texts_slot(r, 3) is Some)
    }

    open spec fn spec_one(d: DataView) -> Result<StrategicRegionView, ()> {
        match labelled_record(d, region_table(), ValPolicy::Error) {
            Some((name, r)) => Ok(region_of_record(name, r)),
            None => Err(()),
        }
    }

    fn consume_one(inp: DataStructure) -> (r: Result<Self, VicError>) {
        let table = vec![
            FieldDef { name: "graphical_culture", kind: FieldKind::Raw },
            FieldDef { name: "map_color", kind: FieldKind::Color },
            FieldDef { name: "capital_province", kind: FieldKind::Color },
            FieldDef { name: "states", kind: FieldKind::ValList },
        ];
        assert(table_view(table@) =~= region_table());
        let (name, rec) = read_labelled(inp, &table, ValPolicy::Error)?;
        let ghost rv = rec@;
        let states = rec.texts(3).unwrap();
        let r = StrategicRegion {
            id: None,
            name,
            color: rec.color(1),
            capital: rec.color(2),
            culture: rec.text(0),
            offset: None,
            ocean: false,
            states,
        };
        assert(r@ == region_of_record(r@.name, rv));
        Ok(r)
    }
}

} // verus!
