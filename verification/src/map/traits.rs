//! Discrimination traits of the game files.
use vstd::prelude::*;

use crate::error::VicError;
use crate::record::{
    flag_slot, labelled_accepts, labelled_record, read_labelled, table_view, FieldDef,
    FieldKind, ValPolicy,
};
use crate::scanner::{
    consume_entries, database_ok, files_ok, files_run, get_data_from, spec_consume_vec,
    DataStructure, DataView, GetMapData, GetMapFile, MapIterator,
};

verus! {

broadcast use vstd::string::group_string_axioms;

/// A discrimination trait, and whether it is a heritage trait.
#[derive(Debug)]
pub struct Trait {
    name: String,
    heritage: bool,
}

pub ghost struct TraitView {
    pub name: Seq<char>,
    pub heritage: bool,
}

impl View for Trait {
    type V = TraitView;

    closed spec fn view(&self) -> TraitView {
        TraitView { name: self.name@, heritage: self.heritage }
    }
}

pub open spec fn trait_table() -> Seq<(Seq<char>, FieldKind)> {
    seq![("heritage"@, FieldKind::YesNo)]
}

impl Trait {
    /// The traits of a set of files.
    pub fn new(files: &Vec<Vec<u8>>) -> (r: Result<Vec<Self>, VicError>)
        requires
            files_ok::<Trait>(files@.map_values(|f: Vec<u8>| f@)),
        ensures
            ({
                let fs = files@.map_values(|f: Vec<u8>| f@);
                &&& r is Ok <==> files_run::<Trait>(fs, fs.len()) is Ok
                &&& r matches Ok(v) ==> files_run::<Trait>(fs, fs.len()) == Ok::<
                    Seq<TraitView>,
                    (),
                >(v@.map_values(|x: Trait| x@))
            }),
    {
        get_data_from::<Trait>(files)
    }

    pub fn name(&self) -> (r: &str)
        ensures
            r@ == self@.name,
    {
        self.name.as_str()
    }
}

impl GetMapFile for Trait {
    open spec fn vec_ok(items: Seq<DataView>, database: Option<Seq<char>>) -> bool {
        database_ok::<Self>(items, database)
    }

    open spec fn spec_vec(items: Seq<DataView>, database: Option<Seq<char>>) -> Result<
        Seq<<Self as View>::V>,
        (),
    > {
        spec_consume_vec::<Self>(items, database)
    }

    fn consume_vec(inp: MapIterator, database: Option<&str>) -> (r: Result<Vec<Self>, VicError>) {
        consume_entries::<Self>(inp, database)
    }
}

impl GetMapData for Trait {
    open spec fn accepts(d: DataView) -> bool {
        labelled_accepts(d, trait_table(), ValPolicy::Error)
    }

    /// A trait is a heritage trait where its last `heritage` field says `yes`.
    open spec fn spec_one(d: DataView) -> Result<TraitView, ()> {
        match labelled_record(d, trait_table(), ValPolicy::Error) {
            Some((name, r)) => Ok(
                TraitView {
                    name,
                    heritage: match flag_slot(r, 0) {
                        Some(b) => b,
                        None => false,
                    },
                },
            ),
            None => Err(()),
        }
    }

    fn consume_one(inp: DataStructure) -> (r: Result<Self, VicError>) {
        let table = vec![FieldDef { name: "heritage", kind: FieldKind::YesNo }];
        assert(table_view(table@) =~= trait_table());
        let (name, rec) = read_labelled(inp, &table, ValPolicy::Error)?;
        let heritage = match rec.flag(0) {
            Some(b) => b,
            None => false,
        };
        Ok(Trait { name, heritage })
    }
}

} // verus!
