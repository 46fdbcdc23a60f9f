//! State templates (state regions) of the game files.
use vstd::prelude::*;

use crate::error::VicError;
use crate::record::{
    colors_slot, labelled_accepts, labelled_record, num_slot, pairs_slot, read_labelled,
    resources_slot, spec_record, table_view, text_slot, texts_slot, FieldDef, FieldKind,
    RecordView, Resource, ResourceView, ValPolicy,
};
use crate::record::lemma_uint32_slot;
use crate::scanner::{
    map_items, DataFormat, consume_entries, database_ok, files_ok, files_run, get_data_from, spec_consume_vec,
    DataStructure, DataView, GetMapData, GetMapFile, MapIterator,
};
use crate::wrappers::{ColorSpec, ColorSpecView};
use super::water::{contains_hex, has_hex};

verus! {

broadcast use vstd::string::group_string_axioms;

/// A state template: the provinces, resources and farmland of a state region.
#[derive(Debug)]
pub struct StateTemplate {
    name: String,
    // naive id first, as read from game files; followed by an assigned ID as per the logic of the game.
    // in game, state ID is assigned iteratively, independently of the ID in the game files.
    id: Option<(usize, usize)>,
    subsistence_b: Option<String>,
    arable_r: Option<Vec<String>>,
    capped_r: Option<Vec<(String, usize)>>,
    provinces: Option<Vec<ColorSpec>>,
    arable_land: Option<u32>,
    discoverable: Option<Vec<Resource>>,
    ocean: bool,
    offset: Option<usize>,
}

pub ghost struct StateTemplateView {
    pub name: Seq<char>,
    pub id: Option<(nat, nat)>,
    pub subsistence_b: Option<Seq<char>>,
    pub arable_r: Option<Seq<Seq<char>>>,
    pub capped_r: Option<Seq<(Seq<char>, nat)>>,
    pub provinces: Option<Seq<ColorSpecView>>,
    pub arable_land: Option<nat>,
    pub discoverable: Option<Seq<ResourceView>>,
    pub ocean: bool,
    pub offset: Option<nat>,
}

impl View for StateTemplate {
    type V = StateTemplateView;

    closed spec fn view(&self) -> StateTemplateView {
        StateTemplateView {
            name: self.name@,
            id: match self.id {
                Some((a, b)) => Some((a as nat, b as nat)),
                None => None,
            },
            subsistence_b: match self.subsistence_b {
                Some(s) => Some(s@),
                None => None,
            },
            arable_r: match self.arable_r {
                Some(v) => Some(v@.map_values(|s: String| s@)),
                None => None,
            },
            capped_r: match self.capped_r {
                Some(v) => Some(v@.map_values(|p: (String, usize)| (p.0@, p.1 as nat))),
                None => None,
            },
            provinces: match self.provinces {
                Some(v) => Some(v@.map_values(|c: ColorSpec| c@)),
                None => None,
            },
            arable_land: match self.arable_land {
                Some(n) => Some(n as nat),
                None => None,
            },
            discoverable: match self.discoverable {
                Some(v) => Some(v@.map_values(|r: Resource| r@)),
                None => None,
            },
            ocean: self.ocean,
            offset: match self.offset {
                Some(n) => Some(n as nat),
                None => None,
            },
        }
    }
}

pub open spec fn template_table() -> Seq<(Seq<char>, FieldKind)> {
    seq![
        ("id"@, FieldKind::Uint),
        ("provinces"@, FieldKind::ColorList),
        ("arable_land"@, FieldKind::Uint32),
        ("subsistence_building"@, FieldKind::Unquoted),
        ("arable_resources"@, FieldKind::UnquotedList),
        ("capped_resources"@, FieldKind::PairList),
        ("resource"@, FieldKind::Resources),
    ]
}

pub open spec fn template_of(name: Seq<char>, r: RecordView) -> StateTemplateView {
    StateTemplateView {
        name,
        id: Some((num_slot(r, 0).unwrap(), 0)),
        subsistence_b: text_slot(r, 3),
        arable_r: texts_slot(r, 4),
        capped_r: pairs_slot(r, 5),
        provinces: colors_slot(r, 1),
        arable_land: num_slot(r, 2),
        discoverable: resources_slot(r, 6),
        ocean: false,
        offset: None,
    }
}

/// The number of provinces of a template.
pub open spec fn template_size(t: StateTemplateView) -> nat {
    match t.provinces {
        Some(p) => p.len(),
        None => 0,
    }
}

/// The template lists the province color `rgb`.
pub open spec fn template_contains(t: StateTemplateView, rgb: Seq<u8>) -> bool {
    match t.provinces {
        Some(p) => has_hex(p, rgb),
        None => false,
    }
}

impl StateTemplate {
    /// The state templates of a set of files.
    pub fn new(files: &Vec<Vec<u8>>) -> (r: Result<Vec<Self>, VicError>)
        requires
            files_ok::<StateTemplate>(files@.map_values(|f: Vec<u8>| f@)),
        ensures
            ({
                let fs = files@.map_values(|f: Vec<u8>| f@);
                &&& r is Ok <==> files_run::<StateTemplate>(fs, fs.len()) is Ok
                &&& r matches Ok(v) ==> files_run::<StateTemplate>(fs, fs.len()) == Ok::<
                    Seq<StateTemplateView>,
                    (),
                >(v@.map_values(|x: StateTemplate| x@))
            }),
    {
        get_data_from::<StateTemplate>(files)
    }

    /// checks if state contains province with ID (color).
    pub fn contains(&self, color: [u8; 3]) -> (r: bool)
        ensures
            r == template_contains(self@, color@),
    {
        match &self.provinces {
            Some(p) => contains_hex(p, color),
            None => false,
        }
    }

    pub fn is_ocean(&self) -> (r: bool)
        ensures
            r == self@.ocean,
    {
        self.ocean
    }

    /// Sets the id that the game assigns, keeping the id of the files.
    pub fn set_id(&mut self, id: usize)
        ensures
            final(self)@ == (StateTemplateView {
                id: Some(
                    (
                        match old(self)@.id {
                            Some(a) => a.0,
                            None => 0,
                        },
                        id as nat,
                    ),
                ),
                ..old(self)@
            }),
    {
        match self.id {
            Some(a) => self.id = Some((a.0, id)),
            None => self.id = Some((0, id)),
        }
    }

    pub fn name(&self) -> (r: &String)
        ensures
            r@ == self@.name,
    {
        &self.name
    }

    pub fn id(&self) -> (r: (usize, usize))
        requires
            self@.id is Some,
        ensures
            Some((r.0 as nat, r.1 as nat)) == self@.id,
    {
        match self.id {
            Some(a) => a,
            None => (0, 0),
        }
    }

    pub fn set_offset(&mut self, offset: usize)
        ensures
            final(self)@ == (StateTemplateView { offset: Some(offset as nat), ..old(self)@ }),
    {
        self.offset = Some(offset);
    }

    pub fn get_offset(&self) -> (r: Option<usize>)
        ensures
            r matches Some(n) ==> self@.offset == Some(n as nat),
            r is None ==> self@.offset is None,
    {
        self.offset
    }

    pub fn provinces(&self) -> (r: Option<&Vec<ColorSpec>>)
        ensures
            r matches Some(v) ==> self@.provinces == Some(v@.map_values(|c: ColorSpec| c@)),
            r is None ==> self@.provinces is None,
    {
        match &self.provinces {
            Some(p) => Some(p),
            None => None,
        }
    }

    pub fn size(&self) -> (r: usize)
        ensures
            r as nat == template_size(self@),
    {
        match &self.provinces {
            Some(p) => p.len(),
            None => 0,
        }
    }

    pub fn set_ocean(&mut self, ocean: bool)
        ensures
            final(self)@ == (StateTemplateView { ocean, ..old(self)@ }),
    {
        self.ocean = ocean;
    }

    pub fn arable_land(&self) -> (r: Option<u32>)
        ensures
            r matches Some(n) ==> self@.arable_land == Some(n as nat),
            r is None ==> self@.arable_land is None,
    {
        self.arable_land
    }
}

impl GetMapFile for StateTemplate {
    open spec fn vec_ok(items: Seq<DataView>, database: Option<Seq<char>>) -> bool {
        database_ok::<Self>(items, database)
    }

    open spec fn spec_vec(items: Seq<DataView>, database: Option<Seq<char>>) -> Result<
        Seq<<Self as View>::V>,
        (),
    > {
        spec_consume_vec::<Self>(items, database)
    }

    fn consume_vec(inp: MapIterator, database: Option<&str>) -> (r: Result<Vec<Self>, VicError>) {
        consume_entries::<Self>(inp, database)
    }
}

impl GetMapData for StateTemplate {
    /// Reading is accepted where the block holds no bare value and its fields are
    /// well formed, and where it reads through it names the id and the provinces.
    open spec fn accepts(d: DataView) -> bool {
        &&& labelled_accepts(d, template_table(), ValPolicy::Error)
        &&& (labelled_record(d, template_table(), ValPolicy::Error) matches Some((_, r)) ==> {
            &&& num_slot(r, 0) is Some
            &&& colors_slot(r, 1) is Some
        })
    }

    open spec fn spec_one(d: DataView) -> Result<StateTemplateView, ()> {
        match labelled_record(d, template_table(), ValPolicy::Error) {
            Some((name, r)) => Ok(template_of(name, r)),
            None => Err(()),
        }
    }

    fn consume_one(inp: DataStructure) -> (r: Result<Self, VicError>) {
        let table = vec![
            FieldDef { name: "id", kind: FieldKind::Uint },
            FieldDef { name: "provinces", kind: FieldKind::ColorList },
            FieldDef { name: "arable_land", kind: FieldKind::Uint32 },
            FieldDef { name: "subsistence_building", kind: FieldKind::Unquoted },
            FieldDef { name: "arable_resources", kind: FieldKind::UnquotedList },
            FieldDef { name: "capped_resources", kind: FieldKind::PairList },
            FieldDef { name: "resource", kind: FieldKind::Resources },
        ];
        assert(table_view(table@) =~= template_table());
        let ghost d = inp@;
        let (name, mut rec) = read_labelled(inp, &table, ValPolicy::Error)?;
        let ghost rv = rec@;
        let id = rec.num(0).unwrap();
        let provinces = rec.colors(1).unwrap();
        let arable_land = match rec.num(2) {
            Some(n) => {
                assert(n <= u32::MAX) by {
                    if let DataView::Itr(l, c) = d {
                        let items = map_items(c, DataFormat::Labeled);
                        assert(spec_record(c, template_table(), ValPolicy::Error) == Ok::<RecordView, ()>(rv));
                        lemma_uint32_slot(items, template_table(), ValPolicy::Error, items.len(), 2);
                    }
                }
                Some(n as u32)
            },
            None => None,
        };
        let capped_r = rec.take_pairs(5);
        let discoverable = rec.take_resources(6);
        let t = StateTemplate {
            name,
            id: Some((id, 0)),
            subsistence_b: rec.text(3),
            arable_r: rec.texts(4),
            capped_r,
            provinces: Some(provinces),
            arable_land,
            discoverable,
            ocean: false,
            offset: None,
        };
        assert(t@ == template_of(t@.name, rv));
        Ok(t)
    }
}

} // verus!
