//! Lakes and seas of the game map.
use vstd::prelude::*;

use crate::error::VicError;
use crate::record::{
    colors_slot, read_entries, record_ok, record_run, table_view, FieldDef, FieldKind,
    RecordView, ValPolicy,
};
use crate::scanner::{files_ok, files_run, get_data_from, DataView, GetMapFile, MapIterator};
use crate::wrappers::{ColorSpec, ColorSpecView, ColorWrap};

verus! {

broadcast use vstd::string::group_string_axioms;

/// The province colors of the lakes and of the seas.
#[derive(Debug)]
pub struct Water {
    lakes: Vec<ColorSpec>,
    sea: Vec<ColorSpec>,
}

pub ghost struct WaterView {
    pub lakes: Seq<ColorSpecView>,
    pub sea: Seq<ColorSpecView>,
}

impl View for Water {
    type V = WaterView;

    closed spec fn view(&self) -> WaterView {
        WaterView {
            lakes: self.lakes@.map_values(|c: ColorSpec| c@),
            sea: self.sea@.map_values(|c: ColorSpec| c@),
        }
    }
}

pub open spec fn water_table() -> Seq<(Seq<char>, FieldKind)> {
    seq![("sea_starts"@, FieldKind::ColorList), ("lakes"@, FieldKind::ColorList)]
}

pub open spec fn water_of(r: RecordView) -> WaterView {
    WaterView { lakes: colors_slot(r, 1).unwrap(), sea: colors_slot(r, 0).unwrap() }
}

/// `c` is a hex color with channels `rgb`.
pub open spec fn is_hex(c: ColorSpecView, rgb: Seq<u8>) -> bool {
    c == ColorSpecView::Hex(rgb)
}

/// One of `cs` is the hex color `rgb`.
pub open spec fn has_hex(cs: Seq<ColorSpecView>, rgb: Seq<u8>) -> bool {
    exists|i: int| 0 <= i < cs.len() && #[trigger] is_hex(cs[i], rgb)
}

/// Whether one of `cs` is the hex color `inp`.
pub fn contains_hex(cs: &Vec<ColorSpec>, inp: [u8; 3]) -> (r: bool)
    ensures
        r == has_hex(cs@.map_values(|c: ColorSpec| c@), inp@),
{
    let ghost v = cs@.map_values(|c: ColorSpec| c@);
    let mut i: usize = 0;
    while i < cs.len()
        invariant
            v == cs@.map_values(|c: ColorSpec| c@),
            i <= cs@.len(),
            forall|k: int| 0 <= k < i ==> !#[trigger] is_hex(v[k], inp@),
        decreases cs@.len() - i,
    {
        match &cs[i] {
            ColorSpec::Hex(w) => {
                let a = w.unravel();
                if a[0] == inp[0] && a[1] == inp[1] && a[2] == inp[2] {
                    assert(a@ =~= inp@);
                    assert(is_hex(v[i as int], inp@));
                    return true;
                }
                assert(!(a@ =~= inp@));
            },
            _ => {},
        }
        i = i + 1;
    }
    false
}

impl Water {
    /// The water of a set of files, each listing `sea_starts` and `lakes`.
    pub fn new(files: &Vec<Vec<u8>>) -> (r: Result<Vec<Self>, VicError>)
        requires
            files_ok::<Water>(files@.map_values(|f: Vec<u8>| f@)),
        ensures
            ({
                let fs = files@.map_values(|f: Vec<u8>| f@);
                &&& r is Ok <==> files_run::<Water>(fs, fs.len()) is Ok
                &&& r matches Ok(v) ==> files_run::<Water>(fs, fs.len()) == Ok::<
                    Seq<WaterView>,
                    (),
                >(v@.map_values(|x: Water| x@))
            }),
    {
        get_data_from::<Water>(files)
    }

    /// Whether the province color `inp` is a lake or a sea.
    pub fn has(&self, inp: [u8; 3]) -> (r: bool)
        ensures
            r == (has_hex(self@.lakes, inp@) || has_hex(self@.sea, inp@)),
    {
        contains_hex(&self.lakes, inp) || contains_hex(&self.sea, inp)
    }
}

impl GetMapFile for Water {
    /// A file is read as one block: a bare value is an error, and where it reads
    /// through, it lists both the seas and the lakes.
    open spec fn vec_ok(items: Seq<DataView>, database: Option<Seq<char>>) -> bool {
        &&& record_ok(items, water_table(), ValPolicy::Error)
        &&& (record_run(items, water_table(), ValPolicy::Error, items.len()) matches Ok(r) ==> {
            &&& colors_slot(r, 0) is Some
            &&& colors_slot(r, 1) is Some
        })
    }

    open spec fn spec_vec(items: Seq<DataView>, database: Option<Seq<char>>) -> Result<
        Seq<WaterView>,
        (),
    > {
        match record_run(items, water_table(), ValPolicy::Error, items.len()) {
            Ok(r) => Ok(seq![water_of(r)]),
            Err(_) => Err(()),
        }
    }

    fn consume_vec(inp: MapIterator, database: Option<&str>) -> (r: Result<Vec<Self>, VicError>) {
        let table = vec![
            FieldDef { name: "sea_starts", kind: FieldKind::ColorList },
            FieldDef { name: "lakes", kind: FieldKind::ColorList },
        ];
        assert(table_view(table@) =~= water_table());
        let rec = read_entries(inp, &table, ValPolicy::Error)?;
        let w = Water { lakes: rec.colors(1).unwrap(), sea: rec.colors(0).unwrap() };
        let v = vec![w];
        assert(v@.map_values(|x: Water| x@) =~= seq![w@]);
        Ok(v)
    }
}

} // verus!
