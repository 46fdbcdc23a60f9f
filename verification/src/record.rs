//! Reading the fields of one labelled block: each entry whose label names a
//! field is read by that field's kind, and the last reading of a field stands.
use vstd::prelude::*;

use crate::error::VicError;
use crate::scanner::{
    map_items, multi_vals, prepare_ok, prepared, scan_pieces, single_val, trimmed, DataFormat,
    DataStructure, DataView, MapIterator,
};
use crate::text::{parse_bounded, spec_parse_bounded, to_chars, unquote};
use crate::wrappers::{spec_color, ColorSpec, ColorSpecView};

verus! {

broadcast use vstd::string::group_string_axioms;

/// How the text under a label is read.
#[derive(Copy, Clone, Debug, PartialEq, Eq, Structural)]
pub enum FieldKind {
    /// the value, as written
    Raw,
    /// the value without its first and last character (its quotes)
    Unquoted,
    /// the value as a `usize`
    Uint,
    /// the value as a `u32`
    Uint32,
    /// the values of a list
    ValList,
    /// the values of a list, each a `usize`
    UintList,
    /// whether the value is `yes`
    YesNo,
    /// the value as a color
    Color,
    /// the values of a list, each a color
    ColorList,
    /// `provinces = { start len start len ... }` blocks, each pair standing for
    /// `start..=start + len`; repeated blocks add up
    ProvinceRanges,
    /// the values of a list, each without its first and last character
    UnquotedList,
    /// `label = number` entries, each a label and a `usize`
    PairList,
    /// a `resource = { type = ... depleted_type = ... undiscovered_amount = ...
    /// discovered_amount = ... }` block; repeated blocks add up
    Resources,
}

/// One resource of a state: its type, its depleted type, and its undiscovered and
/// discovered amounts, each where the block names it.
pub type ResourceView = (Option<Seq<char>>, Option<Seq<char>>, Option<nat>, Option<nat>);

/// What a field holds once read.
pub ghost enum FieldValue {
    Text(Seq<char>),
    Num(nat),
    Texts(Seq<Seq<char>>),
    Nums(Seq<nat>),
    Flag(bool),
    Color(ColorSpecView),
    Colors(Seq<ColorSpecView>),
    Pairs(Seq<(Seq<char>, nat)>),
    Resources(Seq<ResourceView>),
}

/// One resource of a state, as read.
#[derive(Debug)]
pub struct Resource {
    pub kind: Option<String>,
    pub depleted: Option<String>,
    pub undiscovered: Option<u32>,
    pub discovered: Option<u32>,
}

pub open spec fn opt_string_view(o: Option<String>) -> Option<Seq<char>> {
    match o {
        Some(s) => Some(s@),
        None => None,
    }
}

pub open spec fn opt_u32_view(o: Option<u32>) -> Option<nat> {
    match o {
        Some(n) => Some(n as nat),
        None => None,
    }
}

impl View for Resource {
    type V = ResourceView;

    open spec fn view(&self) -> ResourceView {
        (
            opt_string_view(self.kind),
            opt_string_view(self.depleted),
            opt_u32_view(self.undiscovered),
            opt_u32_view(self.discovered),
        )
    }
}

/// The executable form of a field's value.
pub enum Field {
    Text(String),
    Num(usize),
    Texts(Vec<String>),
    Nums(Vec<usize>),
    Flag(bool),
    Color(ColorSpec),
    Colors(Vec<ColorSpec>),
    Pairs(Vec<(String, usize)>),
    Resources(Vec<Resource>),
}

impl View for Field {
    type V = FieldValue;

    open spec fn view(&self) -> FieldValue {
        match self {
            Field::Text(s) => FieldValue::Text(s@),
            Field::Num(n) => FieldValue::Num(*n as nat),
            Field::Texts(v) => FieldValue::Texts(v@.map_values(|s: String| s@)),
            Field::Nums(v) => FieldValue::Nums(v@.map_values(|n: usize| n as nat)),
            Field::Flag(b) => FieldValue::Flag(*b),
            Field::Color(c) => FieldValue::Color(c@),
            Field::Colors(v) => FieldValue::Colors(v@.map_values(|c: ColorSpec| c@)),
            Field::Pairs(v) => FieldValue::Pairs(
                v@.map_values(|p: (String, usize)| (p.0@, p.1 as nat)),
            ),
            Field::Resources(v) => FieldValue::Resources(v@.map_values(|r: Resource| r@)),
        }
    }
}

/// A field of a block: its label and how it is read.
pub struct FieldDef {
    pub name: &'static str,
    pub kind: FieldKind,
}

/// What a block does with a bare value among its entries.
#[derive(Copy, Clone, Debug, PartialEq, Eq, Structural)]
pub enum ValPolicy {
    /// a bare value is an error
    Error,
    /// a bare `none` marks the block as empty; any other bare value is not accepted
    NoneFlag,
    /// no bare value is accepted
    Reject,
    /// a bare value is passed over
    Pass,
}

pub open spec fn usize_max() -> nat {
    usize::MAX as nat
}

pub open spec fn u32_max() -> nat {
    u32::MAX as nat
}

/// The numbers of a list of texts, or `None` where one of them is no number no larger than `max`.
pub open spec fn parse_all(ts: Seq<Seq<char>>, max: nat) -> Option<Seq<nat>>
    decreases ts.len(),
{
    if ts.len() == 0 {
        Some(Seq::empty())
    } else {
        match parse_all(ts.drop_last(), max) {
            Some(ns) => match spec_parse_bounded(ts.last(), max) {
                Some(n) => Some(ns.push(n)),
                None => None,
            },
            None => None,
        }
    }
}

/// The colors of a list of texts, or `None` where one of them is no color.
pub open spec fn colors_all(ts: Seq<Seq<char>>) -> Option<Seq<ColorSpecView>>
    decreases ts.len(),
{
    if ts.len() == 0 {
        Some(Seq::empty())
    } else {
        match colors_all(ts.drop_last()) {
            Some(cs) => match spec_color(ts.last()) {
                Ok(c) => Some(cs.push(c)),
                Err(_) => None,
            },
            None => None,
        }
    }
}

/// The values of a list.
pub open spec fn list_vals(c: Seq<char>) -> Seq<Seq<char>> {
    scan_pieces(prepared(c, DataFormat::MultiVal), DataFormat::MultiVal)
}

/// The numbers `start..=start + len` of each pair of a list, in order; a last unpaired
/// number is left out.
pub open spec fn expand_ranges(ns: Seq<nat>) -> Seq<nat>
    decreases ns.len(),
{
    if ns.len() < 2 {
        Seq::empty()
    } else {
        Seq::new((ns[1] + 1) as nat, |i: int| (ns[0] + i) as nat) + expand_ranges(
            ns.subrange(2, ns.len() as int),
        )
    }
}

/// Every pair of a list ends at a number that fits in a `usize`.
pub open spec fn ranges_fit(ns: Seq<nat>) -> bool {
    forall|y: int|
        0 <= y < ns.len() / 2 ==> #[trigger] ns[2 * y] + ns[2 * y + 1] + 1 <= usize::MAX
}

/// Whether reading `c` as `kind` is accepted (the reading does not stop short).
#[verifier::opaque]
pub open spec fn field_ok(kind: FieldKind, c: Seq<char>) -> bool {
    match kind {
        FieldKind::Unquoted => trimmed(c).len() >= 2,
        FieldKind::ValList => prepare_ok(c, DataFormat::MultiVal),
        FieldKind::UintList => prepare_ok(c, DataFormat::MultiVal),
        FieldKind::ColorList => prepare_ok(c, DataFormat::MultiVal),
        FieldKind::ProvinceRanges => prepare_ok(c, DataFormat::Labeled) && ranges_ok(
            map_items(c, DataFormat::Labeled),
        ),
        FieldKind::UnquotedList => prepare_ok(c, DataFormat::MultiVal) && forall|i: int|
            0 <= i < list_vals(c).len() ==> #[trigger] list_vals(c)[i].len() >= 2,
        FieldKind::PairList => prepare_ok(c, DataFormat::Labeled),
        FieldKind::Resources => prepare_ok(c, DataFormat::Labeled) && resource_ok(
            map_items(c, DataFormat::Labeled),
        ),
        _ => trimmed(c).len() > 0,
    }
}

/// What reading `c` as `kind` gives, or `Err` where the text does not hold such a value.
#[verifier::opaque]
pub open spec fn field_read(kind: FieldKind, c: Seq<char>) -> Result<FieldValue, ()> {
    match kind {
        FieldKind::Raw => Ok(FieldValue::Text(trimmed(c))),
        FieldKind::Unquoted => Ok(FieldValue::Text(unquote(trimmed(c)))),
        FieldKind::Uint => match spec_parse_bounded(trimmed(c), usize_max()) {
            Some(n) => Ok(FieldValue::Num(n)),
            None => Err(()),
        },
        FieldKind::Uint32 => match spec_parse_bounded(trimmed(c), u32_max()) {
            Some(n) => Ok(FieldValue::Num(n)),
            None => Err(()),
        },
        FieldKind::ValList => Ok(FieldValue::Texts(list_vals(c))),
        FieldKind::UintList => match parse_all(list_vals(c), usize_max()) {
            Some(ns) => Ok(FieldValue::Nums(ns)),
            None => Err(()),
        },
        FieldKind::YesNo => Ok(FieldValue::Flag(trimmed(c) == seq!['y', 'e', 's'])),
        FieldKind::Color => match spec_color(trimmed(c)) {
            Ok(col) => Ok(FieldValue::Color(col)),
            Err(_) => Err(()),
        },
        FieldKind::ColorList => match colors_all(list_vals(c)) {
            Some(cs) => Ok(FieldValue::Colors(cs)),
            None => Err(()),
        },
        FieldKind::ProvinceRanges => match ranges_run(
            map_items(c, DataFormat::Labeled),
            map_items(c, DataFormat::Labeled).len(),
        ) {
            Some(ns) => Ok(FieldValue::Nums(ns)),
            None => Err(()),
        },
        FieldKind::UnquotedList => Ok(
            FieldValue::Texts(list_vals(c).map_values(|v: Seq<char>| unquote(v))),
        ),
        FieldKind::PairList => match pairs_run(
            map_items(c, DataFormat::Labeled),
            map_items(c, DataFormat::Labeled).len(),
        ) {
            Some(ps) => Ok(FieldValue::Pairs(ps)),
            None => Err(()),
        },
        FieldKind::Resources => match resource_run(
            map_items(c, DataFormat::Labeled),
            map_items(c, DataFormat::Labeled).len(),
        ) {
            Some(r) => Ok(FieldValue::Resources(seq![r])),
            None => Err(()),
        },
    }
}

// ---------------------------------------------------------------------------
// label = number lists, and resource blocks
// ---------------------------------------------------------------------------
/// The label and number of each of the first `n` entries, or `None` where one is a
/// bare value or its number does not fit a `usize`.
pub open spec fn pairs_run(items: Seq<DataView>, n: nat) -> Option<Seq<(Seq<char>, nat)>>
    decreases n,
{
    if n == 0 {
        Some(Seq::empty())
    } else {
        match pairs_run(items, (n - 1) as nat) {
            Some(acc) => match items[n - 1] {
                DataView::Itr(l, v) => match spec_parse_bounded(v, usize_max()) {
                    Some(k) => Some(acc.push((l, k))),
                    None => None,
                },
                DataView::Val(_) => None,
            },
            None => None,
        }
    }
}

/// A resource block after its first `n` entries, or `None` where reading stopped.
pub open spec fn resource_run(items: Seq<DataView>, n: nat) -> Option<ResourceView>
    decreases n,
{
    if n == 0 {
        Some((None, None, None, None))
    } else {
        match resource_run(items, (n - 1) as nat) {
            Some(acc) => match items[n - 1] {
                DataView::Itr(l, v) => if l == "type"@ {
                    Some((Some(unquote(trimmed(v))), acc.1, acc.2, acc.3))
                } else if l == "depleted_type"@ {
                    Some((acc.0, Some(unquote(trimmed(v))), acc.2, acc.3))
                } else if l == "undiscovered_amount"@ {
                    match spec_parse_bounded(trimmed(v), u32_max()) {
                        Some(k) => Some((acc.0, acc.1, Some(k), acc.3)),
                        None => None,
                    }
                } else {
                    match spec_parse_bounded(trimmed(v), u32_max()) {
                        Some(k) => Some((acc.0, acc.1, acc.2, Some(k))),
                        None => None,
                    }
                },
                DataView::Val(_) => None,
            },
            None => None,
        }
    }
}

/// An entry of a resource block is accepted: it names one of the four fields, and
/// holds at least its quotes or a value.
pub open spec fn resource_entry_ok(e: DataView) -> bool {
    match e {
        DataView::Itr(l, v) => if l == "type"@ || l == "depleted_type"@ {
            trimmed(v).len() >= 2
        } else {
            (l == "undiscovered_amount"@ || l == "discovered_amount"@) && trimmed(v).len() > 0
        },
        DataView::Val(_) => true,
    }
}

/// Every entry that a resource block reads before it stops is accepted.
pub open spec fn resource_ok(items: Seq<DataView>) -> bool {
    forall|i: int|
        0 <= i < items.len() ==> (resource_run(items, i as nat) is Some
            ==> #[trigger] resource_entry_ok(items[i]))
}

// ---------------------------------------------------------------------------
// provinces = { provinces = { start len ... } ... }
// ---------------------------------------------------------------------------
/// The provinces of the first `n` entries of a `provinces` block, or `None` where
/// one of them is a bare value or holds something other than numbers.
pub open spec fn ranges_run(items: Seq<DataView>, n: nat) -> Option<Seq<nat>>
    decreases n,
{
    if n == 0 {
        Some(Seq::empty())
    } else {
        match ranges_run(items, (n - 1) as nat) {
            Some(acc) => match items[n - 1] {
                DataView::Itr(_, inner) => match parse_all(list_vals(inner), usize_max()) {
                    Some(ns) => Some(acc + expand_ranges(ns)),
                    None => None,
                },
                DataView::Val(_) => None,
            },
            None => None,
        }
    }
}

/// An entry of a `provinces` block is accepted: it is labelled `provinces`, holds a
/// list, and each of its ranges fits.
pub open spec fn range_entry_ok(e: DataView) -> bool {
    match e {
        DataView::Itr(l, inner) => {
            &&& l == seq!['p', 'r', 'o', 'v', 'i', 'n', 'c', 'e', 's']
            &&& prepare_ok(inner, DataFormat::MultiVal)
            &&& (parse_all(list_vals(inner), usize_max()) matches Some(ns) ==> ranges_fit(ns))
        },
        DataView::Val(_) => true,
    }
}

/// Every entry that a `provinces` block reads before it stops is accepted.
pub open spec fn ranges_ok(items: Seq<DataView>) -> bool {
    forall|i: int|
        0 <= i < items.len() ==> (ranges_run(items, i as nat) is Some ==> #[trigger] range_entry_ok(
            items[i],
        ))
}

// ---------------------------------------------------------------------------
// Blocks of fields
// ---------------------------------------------------------------------------
/// The fields read so far, and whether a bare `none` was seen.
pub ghost struct RecordView {
    pub slots: Seq<Option<FieldValue>>,
    pub none: bool,
}

/// The first field of `table` labelled `l`.
pub open spec fn field_index(table: Seq<(Seq<char>, FieldKind)>, l: Seq<char>) -> Option<int> {
    if exists|j: int| 0 <= j < table.len() && table[j].0 == l {
        Some(
            choose|j: int|
                0 <= j < table.len() && table[j].0 == l && forall|k: int|
                    0 <= k < j ==> table[k].0 != l,
        )
    } else {
        None
    }
}

/// A field's new value: list fields of provinces add up, the others take the last reading.
pub open spec fn merge(kind: FieldKind, old: Option<FieldValue>, new: FieldValue) -> FieldValue {
    if kind == FieldKind::ProvinceRanges {
        match (old, new) {
            (Some(FieldValue::Nums(a)), FieldValue::Nums(b)) => FieldValue::Nums(a + b),
            _ => new,
        }
    } else if kind == FieldKind::Resources {
        match (old, new) {
            (Some(FieldValue::Resources(a)), FieldValue::Resources(b)) => FieldValue::Resources(
                a + b,
            ),
            _ => new,
        }
    } else {
        new
    }
}

/// One entry read into the block, or `Err` where reading stops with an error.
pub open spec fn record_step(
    acc: RecordView,
    e: DataView,
    table: Seq<(Seq<char>, FieldKind)>,
    policy: ValPolicy,
) -> Result<RecordView, ()> {
    match e {
        DataView::Itr(l, c) => match field_index(table, l) {
            Some(j) => match field_read(table[j].1, c) {
                Ok(v) => Ok(
                    RecordView {
                        slots: acc.slots.update(j, Some(merge(table[j].1, acc.slots[j], v))),
                        none: acc.none,
                    },
                ),
                Err(_) => Err(()),
            },
            None => Ok(acc),
        },
        DataView::Val(v) => if policy == ValPolicy::Error {
            Err(())
        } else {
            Ok(RecordView { slots: acc.slots, none: true })
        },
    }
}

/// Whether the entry is accepted in that state of the block.
pub open spec fn entry_ok(
    e: DataView,
    table: Seq<(Seq<char>, FieldKind)>,
    policy: ValPolicy,
) -> bool {
    match e {
        DataView::Itr(l, c) => match field_index(table, l) {
            Some(j) => field_ok(table[j].1, c),
            None => true,
        },
        DataView::Val(v) => match policy {
            ValPolicy::Error => true,
            ValPolicy::NoneFlag => v == seq!['n', 'o', 'n', 'e'],
            ValPolicy::Reject => false,
            ValPolicy::Pass => true,
        },
    }
}

pub open spec fn empty_record(n: nat) -> RecordView {
    RecordView { slots: Seq::new(n, |i: int| None), none: false }
}

/// The block after its first `n` entries, or `Err` where it stopped with an error.
pub open spec fn record_run(
    items: Seq<DataView>,
    table: Seq<(Seq<char>, FieldKind)>,
    policy: ValPolicy,
    n: nat,
) -> Result<RecordView, ()>
    decreases n,
{
    if n == 0 {
        Ok(empty_record(table.len()))
    } else {
        match record_run(items, table, policy, (n - 1) as nat) {
            Ok(acc) => record_step(acc, items[n - 1], table, policy),
            Err(_) => Err(()),
        }
    }
}

/// Every entry read before the block stops is accepted.
pub open spec fn record_ok(
    items: Seq<DataView>,
    table: Seq<(Seq<char>, FieldKind)>,
    policy: ValPolicy,
) -> bool {
    forall|i: int|
        0 <= i < items.len() ==> (record_run(items, table, policy, i as nat) is Ok ==> entry_ok(
            #[trigger] items[i],
            table,
            policy,
        ))
}

/// The fields of the block `c`.
pub open spec fn spec_record(
    c: Seq<char>,
    table: Seq<(Seq<char>, FieldKind)>,
    policy: ValPolicy,
) -> Result<RecordView, ()> {
    let items = map_items(c, DataFormat::Labeled);
    record_run(items, table, policy, items.len())
}

/// Whether the block `c` is accepted.
pub open spec fn record_accepts(
    c: Seq<char>,
    table: Seq<(Seq<char>, FieldKind)>,
    policy: ValPolicy,
) -> bool {
    prepare_ok(c, DataFormat::Labeled) && record_ok(map_items(c, DataFormat::Labeled), table, policy)
}

pub open spec fn table_view(table: Seq<FieldDef>) -> Seq<(Seq<char>, FieldKind)> {
    table.map_values(|f: FieldDef| (f.name@, f.kind))
}

/// The fields read from a block.
pub struct Record {
    pub slots: Vec<Option<Field>>,
    pub none: bool,
}

pub open spec fn slot_view(o: Option<Field>) -> Option<FieldValue> {
    match o {
        Some(f) => Some(f@),
        None => None,
    }
}

impl View for Record {
    type V = RecordView;

    open spec fn view(&self) -> RecordView {
        RecordView { slots: self.slots@.map_values(|o: Option<Field>| slot_view(o)), none: self.none }
    }
}

fn other(msg: &str) -> (e: VicError)
    ensures
        e is Other,
{
    VicError::Other(String::from_str(msg))
}

/// Reads a number no larger than `max` from `s`, as `str::parse` does.
pub fn parse_num(s: &str, max: u64) -> (r: Result<u64, VicError>)
    ensures
        r matches Ok(n) ==> spec_parse_bounded(s@, max as nat) == Some(n as nat),
        r is Err ==> spec_parse_bounded(s@, max as nat) is None,
        r matches Err(e) ==> e is Other,
{
    let v = to_chars(s);
    match parse_bounded(&v, max) {
        Some(n) => Ok(n),
        None => Err(other("invalid digit found in string")),
    }
}

/// Reads a `usize` from `s`, as `str::parse::<usize>` does.
pub fn parse_usize(s: &str) -> (r: Result<usize, VicError>)
    ensures
        r matches Ok(n) ==> spec_parse_bounded(s@, usize_max()) == Some(n as nat),
        r is Err ==> spec_parse_bounded(s@, usize_max()) is None,
        r matches Err(e) ==> e is Other,
{
    match parse_num(s, usize::MAX as u64) {
        Ok(n) => Ok(n as usize),
        Err(e) => Err(e),
    }
}

/// Reads every text of a list as a number no larger than `max`.
fn parse_list(ts: &Vec<String>, max: u64) -> (r: Result<Vec<usize>, VicError>)
    requires
        max <= usize::MAX,
    ensures
        r matches Ok(v) ==> parse_all(ts@.map_values(|s: String| s@), max as nat) == Some(
            v@.map_values(|n: usize| n as nat),
        ),
        r is Err ==> parse_all(ts@.map_values(|s: String| s@), max as nat) is None,
        r matches Err(e) ==> e is Other,
{
    let ghost all = ts@.map_values(|s: String| s@);
    let mut out: Vec<usize> = Vec::new();
    let mut i: usize = 0;
    while i < ts.len()
        invariant
            i <= ts@.len(),
            max <= usize::MAX,
            all == ts@.map_values(|s: String| s@),
            parse_all(all.take(i as int), max as nat) == Some(out@.map_values(|n: usize| n as nat)),
        decreases ts@.len() - i,
    {
        assert(all.take(i + 1).drop_last() =~= all.take(i as int));
        assert(all.take(i + 1).last() == ts@[i as int]@);
        match parse_num(ts[i].as_str(), max) {
            Ok(n) => {
                let ghost prev = out@;
                out.push(n as usize);
                assert(out@.map_values(|n: usize| n as nat) =~= prev.map_values(
                    |n: usize| n as nat,
                ).push(n as nat));
            },
            Err(e) => {
                proof {
                    lemma_parse_all_prefix(all, i as int + 1, max as nat);
                }
                return Err(e);
            },
        }
        i = i + 1;
    }
    assert(all.take(i as int) =~= all);
    Ok(out)
}

pub proof fn lemma_parse_all_prefix(ts: Seq<Seq<char>>, i: int, max: nat)
    requires
        0 <= i <= ts.len(),
        parse_all(ts.take(i), max) is None,
    ensures
        parse_all(ts, max) is None,
    decreases ts.len() - i,
{
    if i < ts.len() {
        assert(ts.take(i + 1).drop_last() =~= ts.take(i));
        lemma_parse_all_prefix(ts, i + 1, max);
    } else {
        assert(ts.take(i) =~= ts);
    }
}

proof fn lemma_colors_all_prefix(ts: Seq<Seq<char>>, i: int)
    requires
        0 <= i <= ts.len(),
        colors_all(ts.take(i)) is None,
    ensures
        colors_all(ts) is None,
    decreases ts.len() - i,
{
    if i < ts.len() {
        assert(ts.take(i + 1).drop_last() =~= ts.take(i));
        lemma_colors_all_prefix(ts, i + 1);
    } else {
        assert(ts.take(i) =~= ts);
    }
}

/// Reads every text of a list as a color.
fn color_list(ts: &Vec<String>) -> (r: Result<Vec<ColorSpec>, VicError>)
    ensures
        r matches Ok(v) ==> colors_all(ts@.map_values(|s: String| s@)) == Some(
            v@.map_values(|c: ColorSpec| c@),
        ),
        r is Err ==> colors_all(ts@.map_values(|s: String| s@)) is None,
        r matches Err(e) ==> (e is Other || e is SaveError),
{
    let ghost all = ts@.map_values(|s: String| s@);
    let mut out: Vec<ColorSpec> = Vec::new();
    let mut i: usize = 0;
    while i < ts.len()
        invariant
            i <= ts@.len(),
            all == ts@.map_values(|s: String| s@),
            colors_all(all.take(i as int)) == Some(out@.map_values(|c: ColorSpec| c@)),
        decreases ts@.len() - i,
    {
        assert(all.take(i + 1).drop_last() =~= all.take(i as int));
        assert(all.take(i + 1).last() == ts@[i as int]@);
        match ColorSpec::parse(ts[i].as_str()) {
            Ok(c) => {
                let ghost prev = out@;
                out.push(c);
                assert(out@.map_values(|c: ColorSpec| c@) =~= prev.map_values(
                    |c: ColorSpec| c@,
                ).push(c@));
            },
            Err(e) => {
                proof {
                    lemma_colors_all_prefix(all, i as int + 1);
                }
                return Err(e);
            },
        }
        i = i + 1;
    }
    assert(all.take(i as int) =~= all);
    Ok(out)
}

/// The provinces `start..=start + len` of each pair of `ns`.
fn expand(ns: &Vec<usize>, out: &mut Vec<usize>)
    requires
        ranges_fit(ns@.map_values(|n: usize| n as nat)),
    ensures
        final(out)@.map_values(|n: usize| n as nat) == old(out)@.map_values(|n: usize| n as nat)
            + expand_ranges(ns@.map_values(|n: usize| n as nat)),
{
    let ghost all = ns@.map_values(|n: usize| n as nat);
    let ghost base = old(out)@.map_values(|n: usize| n as nat);
    let mut y: usize = 0;
    assert(all.subrange(0, all.len() as int) =~= all);
    while y < ns.len() / 2
        invariant
            all == ns@.map_values(|n: usize| n as nat),
            ranges_fit(all),
            y <= ns@.len() / 2,
            base + expand_ranges(all) == out@.map_values(|n: usize| n as nat) + expand_ranges(
                all.subrange(2 * y as int, all.len() as int),
            ),
        decreases ns@.len() / 2 - y,
    {
        let start = ns[2 * y];
        assert(all[2 * y as int] + all[2 * y + 1] + 1 <= usize::MAX);
        let end = ns[2 * y] + ns[2 * y + 1] + 1;
        let ghost rest = all.subrange(2 * y as int, all.len() as int);
        let ghost before = out@.map_values(|n: usize| n as nat);
        let mut i = start;
        while i < end
            invariant
                2 * y + 1 < all.len(),
                start <= i <= end,
                end as nat == all[2 * y as int] + all[2 * y + 1] + 1,
                start as nat == all[2 * y as int],
                out@.map_values(|n: usize| n as nat) == before + Seq::new(
                    (i - start) as nat,
                    |k: int| (start + k) as nat,
                ),
            decreases end - i,
        {
            let ghost prev = out@.map_values(|n: usize| n as nat);
            out.push(i);
            assert(out@.map_values(|n: usize| n as nat) =~= before + Seq::new(
                (i + 1 - start) as nat,
                |k: int| (start + k) as nat,
            )) by {
                assert(out@.map_values(|n: usize| n as nat) =~= prev.push(i as nat));
            }
            i = i + 1;
        }
        assert(rest[0] == all[2 * y as int]);
        assert(rest[1] == all[2 * y + 1]);
        assert(rest.subrange(2, rest.len() as int) =~= all.subrange(
            2 * (y + 1) as int,
            all.len() as int,
        ));
        assert(Seq::new((rest[1] + 1) as nat, |k: int| (rest[0] + k) as nat) =~= Seq::new(
            (i - start) as nat,
            |k: int| (start + k) as nat,
        ));
        assert(expand_ranges(rest) == Seq::new((rest[1] + 1) as nat, |k: int| (rest[0] + k) as nat)
            + expand_ranges(rest.subrange(2, rest.len() as int)));
        assert(before + expand_ranges(rest) =~= out@.map_values(|n: usize| n as nat)
            + expand_ranges(all.subrange(2 * (y + 1) as int, all.len() as int)));
        y = y + 1;
    }
    let ghost rest = all.subrange(2 * y as int, all.len() as int);
    assert(rest.len() < 2);
    assert(expand_ranges(rest) =~= Seq::<nat>::empty());
    assert(all.subrange(0, all.len() as int) =~= all);
}

/// Reads a `provinces` block.
fn read_ranges(c: &str) -> (r: Result<Vec<usize>, VicError>)
    requires
        prepare_ok(c@, DataFormat::Labeled),
        ranges_ok(map_items(c@, DataFormat::Labeled)),
    ensures
        ({
            let items = map_items(c@, DataFormat::Labeled);
            &&& r is Ok <==> ranges_run(items, items.len()) is Some
            &&& r matches Ok(v) ==> ranges_run(items, items.len()) == Some(
                v@.map_values(|n: usize| n as nat),
            )
            &&& r matches Err(e) ==> e is Other
        }),
{
    let mut it = MapIterator::new(c, DataFormat::Labeled);
    let ghost items = it@;
    let mut out: Vec<usize> = Vec::new();
    let mut i: usize = 0;
    let n = it.len_remaining();
    while i < n
        invariant
            items == map_items(c@, DataFormat::Labeled),
            ranges_ok(items),
            n == items.len(),
            i <= n,
            it@ == items.skip(i as int),
            ranges_run(items, i as nat) == Some(out@.map_values(|n: usize| n as nat)),
        decreases n - i,
    {
        let e = it.next().unwrap();
        assert(items.skip(i as int)[0] == items[i as int]);
        assert(range_entry_ok(items[i as int]));
        match e.itr_info() {
            Ok((_, inner)) => {
                let vals = multi_vals(inner.as_str());
                match parse_list(&vals, usize::MAX as u64) {
                    Ok(ns) => {
                        let ghost prev = out@.map_values(|n: usize| n as nat);
                        expand(&ns, &mut out);
                    },
                    Err(e) => {
                        proof {
                            lemma_ranges_run_none(items, (i + 1) as nat);
                        }
                        return Err(e);
                    },
                }
            },
            Err(e) => {
                proof {
                    lemma_ranges_run_none(items, (i + 1) as nat);
                }
                return Err(e);
            },
        }
        assert(it@ =~= items.skip(i + 1));
        i = i + 1;
    }
    Ok(out)
}

proof fn lemma_ranges_run_none(items: Seq<DataView>, n: nat)
    requires
        n <= items.len(),
        ranges_run(items, n) is None,
    ensures
        ranges_run(items, items.len()) is None,
    decreases items.len() - n,
{
    if n < items.len() {
        lemma_ranges_run_none(items, n + 1);
    }
}

/// Reads the text under a label as `kind`.
pub fn read_field(kind: FieldKind, c: &str) -> (r: Result<Field, VicError>)
    requires
        field_ok(kind, c@),
    ensures
        r is Ok <==> field_read(kind, c@) is Ok,
        r matches Ok(f) ==> field_read(kind, c@) == Ok::<FieldValue, ()>(f@),
        r matches Err(e) ==> (e is Other || e is SaveError),
{
    reveal(field_ok);
    reveal(field_read);
    match kind {
        FieldKind::Raw => Ok(Field::Text(single_val(c))),
        FieldKind::Unquoted => {
            let v = to_chars(single_val(c).as_str());
            let s = crate::text::string_of(&v, 1, v.len() - 1);
            Ok(Field::Text(s))
        },
        FieldKind::Uint => {
            match parse_usize(single_val(c).as_str()) {
                Ok(n) => Ok(Field::Num(n)),
                Err(e) => Err(e),
            }
        },
        FieldKind::Uint32 => {
            match parse_num(single_val(c).as_str(), u32::MAX as u64) {
                Ok(n) => Ok(Field::Num(n as usize)),
                Err(e) => Err(e),
            }
        },
        FieldKind::ValList => {
            let v = multi_vals(c);
            Ok(Field::Texts(v))
        },
        FieldKind::UintList => {
            let v = multi_vals(c);
            match parse_list(&v, usize::MAX as u64) {
                Ok(ns) => Ok(Field::Nums(ns)),
                Err(e) => Err(e),
            }
        },
        FieldKind::YesNo => {
            let v = single_val(c);
            let yes = String::from_str("yes");
            proof {
                reveal_strlit("yes");
                assert("yes"@ =~= seq!['y', 'e', 's']);
            }
            Ok(Field::Flag(v == yes))
        },
        FieldKind::Color => {
            match ColorSpec::parse(single_val(c).as_str()) {
                Ok(col) => Ok(Field::Color(col)),
                Err(e) => Err(e),
            }
        },
        FieldKind::ColorList => {
            let v = multi_vals(c);
            match color_list(&v) {
                Ok(cs) => Ok(Field::Colors(cs)),
                Err(e) => Err(e),
            }
        },
        FieldKind::ProvinceRanges => {
            match read_ranges(c) {
                Ok(ns) => Ok(Field::Nums(ns)),
                Err(e) => Err(e),
            }
        },
        FieldKind::UnquotedList => Ok(Field::Texts(unquoted_list(c))),
        FieldKind::PairList => {
            match read_pairs(c) {
                Ok(ps) => Ok(Field::Pairs(ps)),
                Err(e) => Err(e),
            }
        },
        FieldKind::Resources => {
            match read_resource(c) {
                Ok(r) => {
                    let v = vec![r];
                    assert(v@.map_values(|r: Resource| r@) =~= seq![r@]);
                    Ok(Field::Resources(v))
                },
                Err(e) => Err(e),
            }
        },
    }
}

/// The values of a list, each without its first and last character.
fn unquoted_list(c: &str) -> (r: Vec<String>)
    requires
        prepare_ok(c@, DataFormat::MultiVal),
        forall|i: int| 0 <= i < list_vals(c@).len() ==> #[trigger] list_vals(c@)[i].len() >= 2,
    ensures
        r@.map_values(|s: String| s@) == list_vals(c@).map_values(|v: Seq<char>| unquote(v)),
{
    let vals = multi_vals(c);
    let ghost lv = list_vals(c@);
    assert(vals@.len() == lv.len());
    let mut out: Vec<String> = Vec::new();
    let mut i: usize = 0;
    while i < vals.len()
        invariant
            lv == list_vals(c@),
            vals@.map_values(|s: String| s@) == lv,
            forall|k: int| 0 <= k < lv.len() ==> #[trigger] lv[k].len() >= 2,
            i <= vals@.len(),
            out@.len() == i,
            forall|k: int| 0 <= k < i ==> #[trigger] out@[k]@ == unquote(lv[k]),
        decreases vals@.len() - i,
    {
        assert(vals@[i as int]@ == lv[i as int]);
        let v = to_chars(vals[i].as_str());
        let s = crate::text::string_of(&v, 1, v.len() - 1);
        out.push(s);
        i = i + 1;
    }
    assert(out@.map_values(|s: String| s@) =~= lv.map_values(|v: Seq<char>| unquote(v)));
    out
}

proof fn lemma_pairs_run_none(items: Seq<DataView>, n: nat)
    requires
        n <= items.len(),
        pairs_run(items, n) is None,
    ensures
        pairs_run(items, items.len()) is None,
    decreases items.len() - n,
{
    if n < items.len() {
        lemma_pairs_run_none(items, n + 1);
    }
}

proof fn lemma_resource_run_none(items: Seq<DataView>, n: nat)
    requires
        n <= items.len(),
        resource_run(items, n) is None,
    ensures
        resource_run(items, items.len()) is None,
    decreases items.len() - n,
{
    if n < items.len() {
        lemma_resource_run_none(items, n + 1);
    }
}

/// Reads `label = number` entries.
fn read_pairs(c: &str) -> (r: Result<Vec<(String, usize)>, VicError>)
    requires
        prepare_ok(c@, DataFormat::Labeled),
    ensures
        ({
            let items = map_items(c@, DataFormat::Labeled);
            &&& r is Ok <==> pairs_run(items, items.len()) is Some
            &&& r matches Ok(v) ==> pairs_run(items, items.len()) == Some(
                v@.map_values(|p: (String, usize)| (p.0@, p.1 as nat)),
            )
            &&& r matches Err(e) ==> e is Other
        }),
{
    let mut it = MapIterator::new(c, DataFormat::Labeled);
    let ghost items = it@;
    let n = it.len_remaining();
    let mut out: Vec<(String, usize)> = Vec::new();
    let mut i: usize = 0;
    while i < n
        invariant
            items == map_items(c@, DataFormat::Labeled),
            n == items.len(),
            i <= n,
            it@ == items.skip(i as int),
            pairs_run(items, i as nat) == Some(
                out@.map_values(|p: (String, usize)| (p.0@, p.1 as nat)),
            ),
        decreases n - i,
    {
        let e = it.next().unwrap();
        assert(items.skip(i as int)[0] == items[i as int]);
        match e.itr_info() {
            Ok((a, b)) => {
                match parse_usize(b.as_str()) {
                    Ok(k) => {
                        let ghost prev = out@;
                        out.push((a, k));
                        assert(out@.map_values(|p: (String, usize)| (p.0@, p.1 as nat))
                            =~= prev.map_values(|p: (String, usize)| (p.0@, p.1 as nat)).push(
                            (a@, k as nat),
                        ));
                    },
                    Err(err) => {
                        proof {
                            lemma_pairs_run_none(items, (i + 1) as nat);
                        }
                        return Err(err);
                    },
                }
            },
            Err(err) => {
                proof {
                    lemma_pairs_run_none(items, (i + 1) as nat);
                }
                return Err(err);
            },
        }
        assert(it@ =~= items.skip(i + 1));
        i = i + 1;
    }
    Ok(out)
}

/// Reads a resource block.
fn read_resource(c: &str) -> (r: Result<Resource, VicError>)
    requires
        prepare_ok(c@, DataFormat::Labeled),
        resource_ok(map_items(c@, DataFormat::Labeled)),
    ensures
        ({
            let items = map_items(c@, DataFormat::Labeled);
            &&& r is Ok <==> resource_run(items, items.len()) is Some
            &&& r matches Ok(v) ==> resource_run(items, items.len()) == Some(v@)
            &&& r matches Err(e) ==> e is Other
        }),
{
    let mut it = MapIterator::new(c, DataFormat::Labeled);
    let ghost items = it@;
    let n = it.len_remaining();
    let mut out = Resource { kind: None, depleted: None, undiscovered: None, discovered: None };
    let mut i: usize = 0;
    let type_label = String::from_str("type");
    let depleted_label = String::from_str("depleted_type");
    let undiscovered_label = String::from_str("undiscovered_amount");
    while i < n
        invariant
            items == map_items(c@, DataFormat::Labeled),
            resource_ok(items),
            type_label@ == "type"@,
            depleted_label@ == "depleted_type"@,
            undiscovered_label@ == "undiscovered_amount"@,
            n == items.len(),
            i <= n,
            it@ == items.skip(i as int),
            resource_run(items, i as nat) == Some(out@),
        decreases n - i,
    {
        let e = it.next().unwrap();
        assert(items.skip(i as int)[0] == items[i as int]);
        assert(resource_entry_ok(items[i as int]));
        match e.itr_info() {
            Ok((a, b)) => {
                if a == type_label || a == depleted_label {
                    let v = to_chars(single_val(b.as_str()).as_str());
                    let s = crate::text::string_of(&v, 1, v.len() - 1);
                    if a == type_label {
                        out.kind = Some(s);
                    } else {
                        out.depleted = Some(s);
                    }
                } else {
                    match parse_num(single_val(b.as_str()).as_str(), u32::MAX as u64) {
                        Ok(k) => {
                            if a == undiscovered_label {
                                out.undiscovered = Some(k as u32);
                            } else {
                                out.discovered = Some(k as u32);
                            }
                        },
                        Err(err) => {
                            proof {
                                lemma_resource_run_none(items, (i + 1) as nat);
                            }
                            return Err(err);
                        },
                    }
                }
            },
            Err(err) => {
                proof {
                    lemma_resource_run_none(items, (i + 1) as nat);
                }
                return Err(err);
            },
        }
        assert(it@ =~= items.skip(i + 1));
        i = i + 1;
    }
    Ok(out)
}

fn duplicate_resource(r: &Resource) -> (d: Resource)
    ensures
        d@ == r@,
{
    Resource {
        kind: match &r.kind {
            Some(s) => Some(s.clone()),
            None => None,
        },
        depleted: match &r.depleted {
            Some(s) => Some(s.clone()),
            None => None,
        },
        undiscovered: r.undiscovered,
        discovered: r.discovered,
    }
}

} // verus!

verus! {

/// The position of the first field of `table` labelled `label`.
fn find_field(table: &Vec<FieldDef>, label: &String) -> (r: Option<usize>)
    ensures
        r matches Some(j) ==> field_index(table_view(table@), label@) == Some(j as int)
            && j < table@.len(),
        r is None ==> field_index(table_view(table@), label@) is None,
{
    let ghost tv = table_view(table@);
    let mut j: usize = 0;
    while j < table.len()
        invariant
            tv == table_view(table@),
            j <= table@.len(),
            forall|k: int| 0 <= k < j ==> tv[k].0 != label@,
        decreases table@.len() - j,
    {
        let name = String::from_str(table[j].name);
        if *label == name {
            proof {
                assert(tv[j as int].0 == label@);
                let jj = choose|jj: int|
                    0 <= jj < tv.len() && tv[jj].0 == label@ && forall|k: int|
                        0 <= k < jj ==> tv[k].0 != label@;
                if jj < j {
                    assert(tv[jj].0 != label@);
                } else if jj > j {
                    assert(tv[j as int].0 != label@);
                }
            }
            return Some(j);
        }
        j = j + 1;
    }
    proof {
        assert forall|k: int| !(0 <= k < tv.len() && tv[k].0 == label@) by {
            if 0 <= k < tv.len() {
                assert(tv[k].0 != label@);
            }
        }
    }
    None
}

fn copy_nums(v: &Vec<usize>) -> (r: Vec<usize>)
    ensures
        r@ == v@,
{
    let mut r: Vec<usize> = Vec::new();
    let mut i: usize = 0;
    while i < v.len()
        invariant
            i <= v@.len(),
            r@ == v@.take(i as int),
        decreases v@.len() - i,
    {
        r.push(v[i]);
        i = i + 1;
        assert(r@ =~= v@.take(i as int));
    }
    assert(v@.take(i as int) =~= v@);
    r
}

/// A field's new value, given its old one.
fn merge_field(kind: FieldKind, old: &Option<Field>, new: Field) -> (r: Field)
    ensures
        r@ == merge(kind, slot_view(*old), new@),
{
    if kind == FieldKind::ProvinceRanges {
        match (old, new) {
            (Some(Field::Nums(a)), Field::Nums(b)) => {
                let mut c = copy_nums(a);
                let ghost ca = c@;
                let mut i: usize = 0;
                while i < b.len()
                    invariant
                        i <= b@.len(),
                        c@ == ca + b@.take(i as int),
                    decreases b@.len() - i,
                {
                    c.push(b[i]);
                    i = i + 1;
                    assert(c@ =~= ca + b@.take(i as int));
                }
                assert(b@.take(i as int) =~= b@);
                assert(c@.map_values(|n: usize| n as nat) =~= a@.map_values(|n: usize| n as nat)
                    + b@.map_values(|n: usize| n as nat));
                Field::Nums(c)
            },
            (_, new) => new,
        }
    } else if kind == FieldKind::Resources {
        match (old, new) {
            (Some(Field::Resources(a)), Field::Resources(b)) => {
                let mut c: Vec<Resource> = Vec::new();
                let mut i: usize = 0;
                while i < a.len()
                    invariant
                        i <= a@.len(),
                        c@.len() == i,
                        forall|k: int| 0 <= k < i ==> #[trigger] c@[k]@ == a@[k]@,
                    decreases a@.len() - i,
                {
                    c.push(duplicate_resource(&a[i]));
                    i = i + 1;
                }
                let ghost ca = c@;
                let mut b = b;
                let ghost bb = b@;
                c.append(&mut b);
                assert(c@.map_values(|r: Resource| r@) =~= a@.map_values(|r: Resource| r@)
                    + bb.map_values(|r: Resource| r@));
                Field::Resources(c)
            },
            (_, new) => new,
        }
    } else {
        new
    }
}

/// Reads one entry into the block.
fn step_entry(rec: &mut Record, e: DataStructure, table: &Vec<FieldDef>, policy: ValPolicy) -> (r:
    Result<(), VicError>)
    requires
        old(rec).slots@.len() == table@.len(),
        entry_ok(e@, table_view(table@), policy),
    ensures
        final(rec).slots@.len() == table@.len(),
        r is Ok <==> record_step(old(rec)@, e@, table_view(table@), policy) is Ok,
        r is Ok ==> record_step(old(rec)@, e@, table_view(table@), policy) == Ok::<
            RecordView,
            (),
        >(final(rec)@),
        r matches Err(e) ==> (e is Other || e is SaveError),
{
    let ghost tv = table_view(table@);
    match e {
        DataStructure::Itr(label, content) => {
            match find_field(table, &label) {
                Some(j) => {
                    let kind = table[j].kind;
                    assert(tv[j as int].1 == kind);
                    match read_field(kind, content.as_str()) {
                        Ok(f) => {
                            let ghost before = rec@;
                            let merged = merge_field(kind, &rec.slots[j], f);
                            rec.slots.set(j, Some(merged));
                            assert(rec@.slots =~= before.slots.update(j as int, Some(merged@)));
                            Ok(())
                        },
                        Err(err) => Err(err),
                    }
                },
                None => Ok(()),
            }
        },
        DataStructure::Val(_) => {
            if policy == ValPolicy::Error {
                return Err(VicError::Other(String::from_str("unexpected value in block")));
            }
            rec.none = true;
            Ok(())
        },
    }
}

/// Reads the fields of the block `c`.
pub fn read_record(c: &str, table: &Vec<FieldDef>, policy: ValPolicy) -> (r: Result<
    Record,
    VicError,
>)
    requires
        record_accepts(c@, table_view(table@), policy),
    ensures
        r is Ok <==> spec_record(c@, table_view(table@), policy) is Ok,
        r matches Ok(rec) ==> spec_record(c@, table_view(table@), policy) == Ok::<RecordView, ()>(
            rec@,
        ),
        r matches Ok(rec) ==> rec.slots@.len() == table@.len(),
        r matches Err(e) ==> (e is Other || e is SaveError),
{
    let it = MapIterator::new(c, DataFormat::Labeled);
    read_entries(it, table, policy)
}

/// Reads the fields of a block from its entries.
pub fn read_entries(it: MapIterator, table: &Vec<FieldDef>, policy: ValPolicy) -> (r: Result<
    Record,
    VicError,
>)
    requires
        record_ok(it@, table_view(table@), policy),
    ensures
        r is Ok <==> record_run(it@, table_view(table@), policy, it@.len()) is Ok,
        r matches Ok(rec) ==> record_run(it@, table_view(table@), policy, it@.len()) == Ok::<
            RecordView,
            (),
        >(rec@),
        r matches Ok(rec) ==> rec.slots@.len() == table@.len(),
        r matches Err(e) ==> (e is Other || e is SaveError),
{
    let ghost tv = table_view(table@);
    let ghost items = it@;
    let mut entries = it;
    let n = entries.len_remaining();
    let mut slots: Vec<Option<Field>> = Vec::new();
    let mut k: usize = 0;
    while k < table.len()
        invariant
            k <= table@.len(),
            slots@.len() == k,
            forall|i: int| 0 <= i < k ==> #[trigger] slots@[i] is None,
        decreases table@.len() - k,
    {
        slots.push(None);
        k = k + 1;
    }
    let mut rec = Record { slots, none: false };
    assert(rec@.slots =~= empty_record(tv.len()).slots);
    assert(rec@ == empty_record(tv.len()));
    let mut i: usize = 0;
    while i < n
        invariant
            tv == table_view(table@),
            items == it@,
            record_ok(items, tv, policy),
            n == items.len(),
            i <= n,
            entries@ == items.skip(i as int),
            rec.slots@.len() == tv.len(),
            record_run(items, tv, policy, i as nat) == Ok::<RecordView, ()>(rec@),
        decreases n - i,
    {
        let e = entries.next().unwrap();
        assert(items.skip(i as int)[0] == items[i as int]);
        assert(entry_ok(items[i as int], tv, policy));
        proof {
            assert(record_run(items, tv, policy, (i + 1) as nat) == record_step(
                rec@,
                items[i as int],
                tv,
                policy,
            ));
        }
        match step_entry(&mut rec, e, table, policy) {
            Ok(()) => {},
            Err(err) => {
                proof {
                    lemma_record_run_err(items, tv, policy, (i + 1) as nat);
                }
                return Err(err);
            },
        }
        assert(entries@ =~= items.skip(i + 1));
        i = i + 1;
    }
    Ok(rec)
}

proof fn lemma_record_run_err(
    items: Seq<DataView>,
    table: Seq<(Seq<char>, FieldKind)>,
    policy: ValPolicy,
    n: nat,
)
    requires
        n <= items.len(),
        record_run(items, table, policy, n) is Err,
    ensures
        record_run(items, table, policy, items.len()) is Err,
    decreases items.len() - n,
{
    if n < items.len() {
        lemma_record_run_err(items, table, policy, n + 1);
    }
}

} // verus!

verus! {

// ---------------------------------------------------------------------------
// Reading a field's value back out of a block
// ---------------------------------------------------------------------------
pub open spec fn text_slot(r: RecordView, j: int) -> Option<Seq<char>> {
    match r.slots[j] {
        Some(FieldValue::Text(t)) => Some(t),
        _ => None,
    }
}

pub open spec fn num_slot(r: RecordView, j: int) -> Option<nat> {
    match r.slots[j] {
        Some(FieldValue::Num(n)) => Some(n),
        _ => None,
    }
}

pub open spec fn texts_slot(r: RecordView, j: int) -> Option<Seq<Seq<char>>> {
    match r.slots[j] {
        Some(FieldValue::Texts(t)) => Some(t),
        _ => None,
    }
}

pub open spec fn nums_slot(r: RecordView, j: int) -> Option<Seq<nat>> {
    match r.slots[j] {
        Some(FieldValue::Nums(t)) => Some(t),
        _ => None,
    }
}

pub open spec fn flag_slot(r: RecordView, j: int) -> Option<bool> {
    match r.slots[j] {
        Some(FieldValue::Flag(b)) => Some(b),
        _ => None,
    }
}

pub open spec fn color_slot(r: RecordView, j: int) -> Option<ColorSpecView> {
    match r.slots[j] {
        Some(FieldValue::Color(c)) => Some(c),
        _ => None,
    }
}

pub open spec fn colors_slot(r: RecordView, j: int) -> Option<Seq<ColorSpecView>> {
    match r.slots[j] {
        Some(FieldValue::Colors(c)) => Some(c),
        _ => None,
    }
}

pub open spec fn pairs_slot(r: RecordView, j: int) -> Option<Seq<(Seq<char>, nat)>> {
    match r.slots[j] {
        Some(FieldValue::Pairs(p)) => Some(p),
        _ => None,
    }
}

pub open spec fn resources_slot(r: RecordView, j: int) -> Option<Seq<ResourceView>> {
    match r.slots[j] {
        Some(FieldValue::Resources(p)) => Some(p),
        _ => None,
    }
}

/// Where some field of `table` is labelled `l`, a first one is.
proof fn lemma_first_label(table: Seq<(Seq<char>, FieldKind)>, l: Seq<char>, j: int)
    requires
        0 <= j < table.len(),
        table[j].0 == l,
    ensures
        exists|m: int|
            0 <= m < table.len() && table[m].0 == l && forall|k: int|
                0 <= k < m ==> table[k].0 != l,
        field_index(table, l) matches Some(m) ==> 0 <= m < table.len() && table[m].0 == l,
    decreases j,
{
    if exists|k: int| 0 <= k < j && table[k].0 == l {
        let k = choose|k: int| 0 <= k < j && table[k].0 == l;
        lemma_first_label(table, l, k);
    } else {
        assert(forall|k: int| 0 <= k < j ==> table[k].0 != l);
    }
}

/// A field read as a `u32` holds a number no larger than `u32::MAX`.
pub proof fn lemma_uint32_slot(
    items: Seq<DataView>,
    table: Seq<(Seq<char>, FieldKind)>,
    policy: ValPolicy,
    n: nat,
    j: int,
)
    requires
        n <= items.len(),
        0 <= j < table.len(),
        table[j].1 == FieldKind::Uint32,
        record_run(items, table, policy, n) is Ok,
    ensures
        record_run(items, table, policy, n)->Ok_0.slots.len() == table.len(),
        num_slot(record_run(items, table, policy, n)->Ok_0, j) matches Some(k) ==> k <= u32_max(),
        record_run(items, table, policy, n)->Ok_0.slots[j] is Some ==> num_slot(
            record_run(items, table, policy, n)->Ok_0,
            j,
        ) is Some,
    decreases n,
{
    if n > 0 {
        lemma_uint32_slot(items, table, policy, (n - 1) as nat, j);
        let acc = record_run(items, table, policy, (n - 1) as nat)->Ok_0;
        let r = record_run(items, table, policy, n)->Ok_0;
        match items[n - 1] {
            DataView::Itr(l, c) => match field_index(table, l) {
                Some(k) => {
                    reveal(field_read);
                    let w = choose|w: int| 0 <= w < table.len() && table[w].0 == l;
                    lemma_first_label(table, l, w);
                    assert(0 <= k < table.len());
                    let v = field_read(table[k].1, c)->Ok_0;
                    assert(r.slots == acc.slots.update(k, Some(merge(table[k].1, acc.slots[k], v))));
                    if k == j {
                        assert(merge(table[k].1, acc.slots[k], v) == v);
                        match spec_parse_bounded(trimmed(c), u32_max()) {
                            Some(x) => {
                                assert(v == FieldValue::Num(x));
                            },
                            None => {},
                        }
                    } else {
                        assert(r.slots[j] == acc.slots[j]);
                    }
                },
                None => {},
            },
            DataView::Val(_) => {},
        }
    } else {
        assert(record_run(items, table, policy, n)->Ok_0 == empty_record(table.len()));
    }
}

/// A copy of a list of strings.
pub fn clone_strings(v: &Vec<String>) -> (r: Vec<String>)
    ensures
        r@.map_values(|s: String| s@) == v@.map_values(|s: String| s@),
{
    let mut out: Vec<String> = Vec::new();
    let mut i: usize = 0;
    while i < v.len()
        invariant
            i <= v@.len(),
            out@.len() == i,
            forall|k: int| 0 <= k < i ==> #[trigger] out@[k]@ == v@[k]@,
        decreases v@.len() - i,
    {
        out.push(v[i].clone());
        i = i + 1;
    }
    assert(out@.map_values(|s: String| s@) =~= v@.map_values(|s: String| s@));
    out
}

impl Record {
    pub fn text(&self, j: usize) -> (r: Option<String>)
        requires
            j < self.slots@.len(),
        ensures
            r matches Some(s) ==> text_slot(self@, j as int) == Some(s@),
            r is None ==> text_slot(self@, j as int) is None,
    {
        match &self.slots[j] {
            Some(Field::Text(s)) => Some(s.clone()),
            _ => None,
        }
    }

    pub fn num(&self, j: usize) -> (r: Option<usize>)
        requires
            j < self.slots@.len(),
        ensures
            r matches Some(n) ==> num_slot(self@, j as int) == Some(n as nat),
            r is None ==> num_slot(self@, j as int) is None,
    {
        match &self.slots[j] {
            Some(Field::Num(n)) => Some(*n),
            _ => None,
        }
    }

    pub fn texts(&self, j: usize) -> (r: Option<Vec<String>>)
        requires
            j < self.slots@.len(),
        ensures
            r matches Some(v) ==> texts_slot(self@, j as int) == Some(
                v@.map_values(|s: String| s@),
            ),
            r is None ==> texts_slot(self@, j as int) is None,
    {
        match &self.slots[j] {
            Some(Field::Texts(v)) => Some(clone_strings(v)),
            _ => None,
        }
    }

    pub fn nums(&self, j: usize) -> (r: Option<Vec<usize>>)
        requires
            j < self.slots@.len(),
        ensures
            r matches Some(v) ==> nums_slot(self@, j as int) == Some(
                v@.map_values(|n: usize| n as nat),
            ),
            r is None ==> nums_slot(self@, j as int) is None,
    {
        match &self.slots[j] {
            Some(Field::Nums(v)) => Some(copy_nums(v)),
            _ => None,
        }
    }

    /// Takes a field read as `label = number` entries out of the block.
    pub fn take_pairs(&mut self, j: usize) -> (r: Option<Vec<(String, usize)>>)
        requires
            j < old(self).slots@.len(),
        ensures
            r matches Some(v) ==> pairs_slot(old(self)@, j as int) == Some(
                v@.map_values(|p: (String, usize)| (p.0@, p.1 as nat)),
            ),
            r is None ==> pairs_slot(old(self)@, j as int) is None,
            final(self)@.slots == old(self)@.slots.update(j as int, None),
            final(self)@.none == old(self)@.none,
            final(self).slots@.len() == old(self).slots@.len(),
    {
        let f = self.slots.remove(j);
        self.slots.insert(j, None);
        assert(self@.slots =~= old(self)@.slots.update(j as int, None));
        match f {
            Some(Field::Pairs(v)) => Some(v),
            _ => None,
        }
    }

    /// Takes a field of resource blocks out of the block.
    pub fn take_resources(&mut self, j: usize) -> (r: Option<Vec<Resource>>)
        requires
            j < old(self).slots@.len(),
        ensures
            r matches Some(v) ==> resources_slot(old(self)@, j as int) == Some(
                v@.map_values(|x: Resource| x@),
            ),
            r is None ==> resources_slot(old(self)@, j as int) is None,
            final(self)@.slots == old(self)@.slots.update(j as int, None),
            final(self)@.none == old(self)@.none,
            final(self).slots@.len() == old(self).slots@.len(),
    {
        let f = self.slots.remove(j);
        self.slots.insert(j, None);
        assert(self@.slots =~= old(self)@.slots.update(j as int, None));
        match f {
            Some(Field::Resources(v)) => Some(v),
            _ => None,
        }
    }

    pub fn flag(&self, j: usize) -> (r: Option<bool>)
        requires
            j < self.slots@.len(),
        ensures
            r == flag_slot(self@, j as int),
    {
        match &self.slots[j] {
            Some(Field::Flag(b)) => Some(*b),
            _ => None,
        }
    }
}

} // verus!

verus! {

/// The label of an entry `label = { ... }` and the fields of its block; `None` where
/// the entry is a bare value or reading its block stops with an error.
pub open spec fn labelled_record(
    d: DataView,
    table: Seq<(Seq<char>, FieldKind)>,
    policy: ValPolicy,
) -> Option<(Seq<char>, RecordView)> {
    match d {
        DataView::Itr(l, c) => match spec_record(c, table, policy) {
            Ok(r) => Some((l, r)),
            Err(_) => None,
        },
        DataView::Val(_) => None,
    }
}

/// Whether reading the block of an entry `label = { ... }` is accepted.
pub open spec fn labelled_accepts(
    d: DataView,
    table: Seq<(Seq<char>, FieldKind)>,
    policy: ValPolicy,
) -> bool {
    match d {
        DataView::Itr(l, c) => record_accepts(c, table, policy),
        DataView::Val(_) => true,
    }
}

/// Reads the label of an entry `label = { ... }` and the fields of its block.
pub fn read_labelled(inp: DataStructure, table: &Vec<FieldDef>, policy: ValPolicy) -> (r: Result<
    (String, Record),
    VicError,
>)
    requires
        labelled_accepts(inp@, table_view(table@), policy),
    ensures
        r is Ok <==> labelled_record(inp@, table_view(table@), policy) is Some,
        r matches Ok((l, rec)) ==> labelled_record(inp@, table_view(table@), policy) == Some(
            (l@, rec@),
        ) && rec.slots@.len() == table@.len(),
        r matches Err(e) ==> (e is Other || e is SaveError),
{
    let (itr_label, content_outer) = inp.itr_info()?;
    let rec = read_record(content_outer.as_str(), table, policy)?;
    Ok((itr_label, rec))
}

impl Record {
    pub fn color(&self, j: usize) -> (r: Option<ColorSpec>)
        requires
            j < self.slots@.len(),
        ensures
            r matches Some(c) ==> color_slot(self@, j as int) == Some(c@),
            r is None ==> color_slot(self@, j as int) is None,
    {
        match &self.slots[j] {
            Some(Field::Color(c)) => Some(c.duplicate()),
            _ => None,
        }
    }

    pub fn colors(&self, j: usize) -> (r: Option<Vec<ColorSpec>>)
        requires
            j < self.slots@.len(),
        ensures
            r matches Some(v) ==> colors_slot(self@, j as int) == Some(
                v@.map_values(|c: ColorSpec| c@),
            ),
            r is None ==> colors_slot(self@, j as int) is None,
    {
        match &self.slots[j] {
            Some(Field::Colors(v)) => {
                let mut out: Vec<ColorSpec> = Vec::new();
                let mut i: usize = 0;
                while i < v.len()
                    invariant
                        i <= v@.len(),
                        out@.len() == i,
                        forall|k: int| 0 <= k < i ==> #[trigger] out@[k]@ == v@[k]@,
                    decreases v@.len() - i,
                {
                    out.push(v[i].duplicate());
                    i = i + 1;
                }
                assert(out@.map_values(|c: ColorSpec| c@) =~= v@.map_values(|c: ColorSpec| c@));
                Some(out)
            },
            _ => None,
        }
    }
}

} // verus!
