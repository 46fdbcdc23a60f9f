//! Named colors of the game files.
use vstd::prelude::*;

use crate::error::VicError;
use crate::scanner::{
    consume_entries, database_ok, files_ok, files_run, get_data_from, single_val,
    spec_consume_vec, trimmed, DataStructure, DataView, GetMapData, GetMapFile, MapIterator,
};
use crate::wrappers::{spec_color, ColorSpec, ColorSpecView};

verus! {

broadcast use vstd::string::group_string_axioms;

/// A color with a name.
#[derive(Debug)]
pub struct NamedColor {
    name: String,
    color: ColorSpec,
}

pub ghost struct NamedColorView {
    pub name: Seq<char>,
    pub color: ColorSpecView,
}

impl View for NamedColor {
    type V = NamedColorView;

    closed spec fn view(&self) -> NamedColorView {
        NamedColorView { name: self.name@, color: self.color@ }
    }
}

/// The label under which a file lists its named colors.
pub open spec fn colors_label() -> Seq<char> {
    "colors"@
}

impl NamedColor {
    /// The named colors of a set of files, each listing them under `colors = { ... }`.
    pub fn new(files: &Vec<Vec<u8>>) -> (r: Result<Vec<Self>, VicError>)
        requires
            files_ok::<NamedColor>(files@.map_values(|f: Vec<u8>| f@)),
        ensures
            ({
                let fs = files@.map_values(|f: Vec<u8>| f@);
                &&& r is Ok <==> files_run::<NamedColor>(fs, fs.len()) is Ok
                &&& r matches Ok(v) ==> files_run::<NamedColor>(fs, fs.len()) == Ok::<
                    Seq<NamedColorView>,
                    (),
                >(v@.map_values(|x: NamedColor| x@))
            }),
    {
        get_data_from::<NamedColor>(files)
    }

    pub fn name(&self) -> (r: &String)
        ensures
            r@ == self@.name,
    {
        &self.name
    }

    pub fn color(&self) -> (r: &ColorSpec)
        ensures
            r@ == self@.color,
    {
        &self.color
    }
}

impl GetMapFile for NamedColor {
    /// The colors are read from under the first entry labelled `colors`, whatever
    /// label is asked for.
    open spec fn vec_ok(items: Seq<DataView>, database: Option<Seq<char>>) -> bool {
        database_ok::<Self>(items, Some(colors_label()))
    }

    open spec fn spec_vec(items: Seq<DataView>, database: Option<Seq<char>>) -> Result<
        Seq<<Self as View>::V>,
        (),
    > {
        spec_consume_vec::<Self>(items, Some(colors_label()))
    }

    fn consume_vec(inp: MapIterator, database: Option<&str>) -> (r: Result<Vec<Self>, VicError>) {
        consume_entries::<Self>(inp, Some("colors"))
    }
}

impl GetMapData for NamedColor {
    open spec fn accepts(d: DataView) -> bool {
        d matches DataView::Itr(_, c) ==> trimmed(c).len() > 0
    }

    open spec fn spec_one(d: DataView) -> Result<NamedColorView, ()> {
        match d {
            DataView::Itr(name, c) => match spec_color(trimmed(c)) {
                Ok(color) => Ok(NamedColorView { name, color }),
                Err(_) => Err(()),
            },
            DataView::Val(_) => Err(()),
        }
    }

    fn consume_one(inp: DataStructure) -> (r: Result<Self, VicError>) {
        let (name, content) = inp.itr_info()?;
        let color = ColorSpec::parse(single_val(content.as_str()).as_str())?;
        Ok(NamedColor { name, color })
    }
}

} // verus!
