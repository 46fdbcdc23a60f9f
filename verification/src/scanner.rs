//! The scanner for Paradox script text: it cuts a block of text into its
//! top-level entries and turns each entry into a labelled pair or a bare value.
use vstd::prelude::*;

use crate::error::VicError;
use crate::text::{
    chars_of, is_whitespace, is_ws, skip_bom, string_of, to_chars, trim, trim_bom, trim_bounds,
};

verus! {

broadcast use vstd::string::group_string_axioms;

/// The format of the content of b in DataStructure::Itr((a[^label], b[^data])).
///
/// Examples provided for each enum variant.
///
/// Iterator collected into array for readability.
///
/// panics if a MapIterator is built over None.
#[derive(Copy, Clone, Debug, PartialEq, Eq, Structural)]
pub enum DataFormat {
    /// input: " info={ fe fi fo fum }\n\t "
    ///
    /// output: \["info={ fe fi fo fum }"\]
    Single,
    /// input: " info={ fe fi fo fum }\n\t "
    ///
    /// output: \["info={", "fe", "fi", "fo", "fum }"\]
    ///
    /// splits on whitespace outside quotes and comments at brace depth 0, and inside
    /// the first level of braces but before the brace that closes it; each piece
    /// becomes Itr(("", piece))
    MultiItr,
    /// Identical to MultiItr, but returns Val(a) instead of Itr(("", a))
    MultiVal,
    /// input: " info={ fe fi fo fum }\n\t "
    ///
    /// output: \["info={ fe fi fo fum }"\]
    ///
    /// input: " info={ fe fi fo fum }\n\t info2 = data"
    ///
    /// output: \["info={ fe fi fo fum }", "info2 = data"\]
    Labeled,
    /// input: " info={ fe fi fo fum }\n\t "
    ///
    /// output: panics!
    Nothing,
}

/// What a scanned entry holds: a label with its data, or a bare value.
pub ghost enum DataView {
    Itr(Seq<char>, Seq<char>),
    Val(Seq<char>),
}

/// Itr -> a label and the text of the data under it.
///
/// Val -> a bare value.
///
/// Iterating over MapIterator produces this enum.
#[derive(Debug)]
pub enum DataStructure {
    Itr(String, String),
    Val(String),
}

impl View for DataStructure {
    type V = DataView;

    open spec fn view(&self) -> DataView {
        match self {
            DataStructure::Itr(a, b) => DataView::Itr(a@, b@),
            DataStructure::Val(a) => DataView::Val(a@),
        }
    }
}

/// The state that the scanner carries from one character to the next.
pub ghost struct ScanState {
    /// inside a quoted string
    pub para: bool,
    /// an `=` was seen in the current entry
    pub eq: bool,
    /// brace depth
    pub depth: int,
    /// inside a `#` comment
    pub comment: bool,
    /// text was seen after the `=` of the current entry
    pub text: bool,
    /// how much of `hsv360` was just seen
    pub hsv360: int,
    /// how much of `hsv` was just seen
    pub hsv: int,
    /// how much of `rgb` was just seen
    pub rgb: int,
}

pub open spec fn initial_state() -> ScanState {
    ScanState {
        para: false,
        eq: false,
        depth: 0,
        comment: false,
        text: false,
        hsv360: 0,
        hsv: 0,
        rgb: 0,
    }
}

pub open spec fn rgb_word() -> Seq<char> {
    seq!['r', 'g', 'b']
}

pub open spec fn hsv_word() -> Seq<char> {
    seq!['h', 's', 'v']
}

pub open spec fn hsv360_word() -> Seq<char> {
    seq!['h', 's', 'v', '3', '6', '0']
}

/// How much of a color keyword has been seen after `c`: the next letter of `word`
/// advances, any other character but whitespace and braces starts over.
pub open spec fn next_stage(k: int, c: char, word: Seq<char>) -> int {
    if 0 <= k < word.len() && c == word[k] {
        k + 1
    } else if !is_ws(c) && c != '{' && c != '}' {
        0
    } else {
        k
    }
}

/// Whether the next character of `s` from `n` on that is not whitespace is a
/// closing brace.
pub open spec fn closes_next(s: Seq<char>, n: nat) -> bool
    decreases s.len() - n,
{
    if n >= s.len() {
        false
    } else if is_ws(s[n as int]) {
        closes_next(s, n + 1)
    } else {
        s[n as int] == '}'
    }
}

/// One step of the scanner: the state after `c`, and whether `c` ends an entry.
/// `before_close` tells whether the next character that is not whitespace closes a
/// brace.
pub open spec fn scan_step(st: ScanState, c: char, fmt: DataFormat, before_close: bool) -> (
    ScanState,
    bool,
) {
    let rgb = next_stage(st.rgb, c, rgb_word());
    let hsv = next_stage(st.hsv, c, hsv_word());
    let hsv360 = next_stage(st.hsv360, c, hsv360_word());
    let para = st.para != (c == '"');
    let comment = (st.comment || (c == '#' && !para)) && c != '\n';
    let text = st.text || (!is_ws(c) && !comment && st.eq);
    if !para && !comment {
        let depth = if c == '{' {
            st.depth + 1
        } else if c == '}' {
            st.depth - 1
        } else {
            st.depth
        };
        let eq = st.eq || c == '=';
        let split = match fmt {
            DataFormat::Single => false,
            DataFormat::MultiVal => is_ws(c) && (depth == 0 || (depth == 1 && !before_close)),
            DataFormat::MultiItr => is_ws(c) && (depth == 0 || (depth == 1 && !before_close)),
            DataFormat::Labeled => eq && text && (c == '\n' || (c == '\t' && hsv != 3 && hsv360
                != 6 && rgb != 3)) && depth == 0,
            DataFormat::Nothing => false,
        };
        (
            ScanState {
                para,
                eq: eq && !split,
                depth,
                comment,
                text: text && !split,
                hsv360,
                hsv,
                rgb,
            },
            split,
        )
    } else {
        (ScanState { para, eq: st.eq, depth: st.depth, comment, text, hsv360, hsv, rgb }, false)
    }
}

/// After the first `n` characters of `s`: the scanner state, the non-empty entries
/// completed so far, and where the current entry starts.
pub open spec fn scan_run(s: Seq<char>, fmt: DataFormat, n: nat) -> (ScanState, Seq<Seq<char>>, int)
    decreases n,
{
    if n == 0 {
        (initial_state(), Seq::empty(), 0)
    } else {
        let prev = scan_run(s, fmt, (n - 1) as nat);
        let (st, sep) = scan_step(prev.0, s[n - 1], fmt, closes_next(s, n));
        if sep {
            (
                st,
                if prev.2 < n - 1 {
                    prev.1.push(s.subrange(prev.2, n - 1))
                } else {
                    prev.1
                },
                n as int,
            )
        } else {
            (st, prev.1, prev.2)
        }
    }
}

/// The non-empty pieces of `s` between the characters that end an entry.
pub open spec fn scan_pieces(s: Seq<char>, fmt: DataFormat) -> Seq<Seq<char>> {
    let r = scan_run(s, fmt, s.len());
    if r.2 < s.len() {
        r.1.push(s.subrange(r.2, s.len() as int))
    } else {
        r.1
    }
}

/// The text trimmed of byte order marks and whitespace.
pub open spec fn trimmed(s: Seq<char>) -> Seq<char> {
    trim(trim_bom(s))
}

/// Whether the scanner can be built over `s`: the format is not `None`, and where
/// the text opens with `{` for a format other than `Single`, it also closes with `}`.
pub open spec fn prepare_ok(s: Seq<char>, fmt: DataFormat) -> bool {
    let t = trimmed(s);
    &&& fmt != DataFormat::Nothing
    &&& (fmt == DataFormat::Single || !(t.len() > 0 && t[0] == '{') || (t.len() >= 2 && t.last()
        == '}'))
}

/// The text that the scanner cuts: trimmed, and for formats other than `Single`
/// with one enclosing pair of braces taken off.
pub open spec fn prepared(s: Seq<char>, fmt: DataFormat) -> Seq<char> {
    let t = trimmed(s);
    if fmt != DataFormat::Single && t.len() > 0 && t[0] == '{' {
        trim(t.subrange(1, t.len() - 1))
    } else {
        t
    }
}

/// `k` is the position of the first `c` in `p`.
pub open spec fn is_first(p: Seq<char>, c: char, k: int) -> bool {
    &&& 0 <= k < p.len()
    &&& p[k] == c
    &&& forall|j: int| 0 <= j < k ==> p[j] != c
}

/// The entry that a piece of text gives in each format.
pub open spec fn item_of(p: Seq<char>, fmt: DataFormat) -> DataView {
    match fmt {
        DataFormat::Labeled => if exists|k: int| is_first(p, '=', k) {
            let k = choose|k: int| is_first(p, '=', k);
            DataView::Itr(trim(p.take(k)), trim(p.skip(k + 1)))
        } else {
            DataView::Val(p)
        },
        DataFormat::MultiItr => DataView::Itr(Seq::empty(), p),
        _ => DataView::Val(p),
    }
}

/// The entries that scanning `s` in format `fmt` gives, in order.
pub open spec fn map_items(s: Seq<char>, fmt: DataFormat) -> Seq<DataView> {
    scan_pieces(prepared(s, fmt), fmt).map_values(|p: Seq<char>| item_of(p, fmt))
}

/// The executable scanner state.
struct Scanner {
    para: bool,
    eq: bool,
    depth: i128,
    comment: bool,
    text: bool,
    hsv360: u8,
    hsv: u8,
    rgb: u8,
}

impl Scanner {
    spec fn state(&self) -> ScanState {
        ScanState {
            para: self.para,
            eq: self.eq,
            depth: self.depth as int,
            comment: self.comment,
            text: self.text,
            hsv360: self.hsv360 as int,
            hsv: self.hsv as int,
            rgb: self.rgb as int,
        }
    }

    spec fn bounded(&self, n: int) -> bool {
        &&& -n <= self.depth <= n
        &&& self.hsv360 <= 6
        &&& self.hsv <= 3
        &&& self.rgb <= 3
    }
}

fn stage(k: u8, c: char, word: &[char]) -> (r: u8)
    requires
        k <= word@.len() <= 6,
    ensures
        r == next_stage(k as int, c, word@),
        r <= word@.len(),
{
    if (k as usize) < word.len() && c == word[k as usize] {
        k + 1
    } else if !is_whitespace(c) && c != '{' && c != '}' {
        0
    } else {
        k
    }
}

fn step(st: &mut Scanner, c: char, fmt: DataFormat, before_close: bool, Ghost(n): Ghost<int>) -> (split: bool)
    requires
        old(st).bounded(n),
        0 <= n,
        n + 1 < 0x1_0000_0000_0000_0000,
    ensures
        (final(st).state(), split) == scan_step(old(st).state(), c, fmt, before_close),
        final(st).bounded(n + 1),
{
    let rgb_w: [char; 3] = ['r', 'g', 'b'];
    let hsv_w: [char; 3] = ['h', 's', 'v'];
    let hsv360_w: [char; 6] = ['h', 's', 'v', '3', '6', '0'];
    assert(rgb_w@ =~= rgb_word());
    assert(hsv_w@ =~= hsv_word());
    assert(hsv360_w@ =~= hsv360_word());
    let rgb = stage(st.rgb, c, &rgb_w);
    let hsv = stage(st.hsv, c, &hsv_w);
    let hsv360 = stage(st.hsv360, c, &hsv360_w);
    let para = st.para != (c == '"');
    let comment = (st.comment || (c == '#' && !para)) && c != '\n';
    let text = st.text || (!is_whitespace(c) && !comment && st.eq);
    st.rgb = rgb;
    st.hsv = hsv;
    st.hsv360 = hsv360;
    st.para = para;
    st.comment = comment;
    st.text = text;
    if !para && !comment {
        if c == '{' {
            st.depth = st.depth + 1;
        } else if c == '}' {
            st.depth = st.depth - 1;
        }
        let eq = st.eq || c == '=';
        let split = match fmt {
            DataFormat::Single => false,
            DataFormat::MultiVal => is_whitespace(c) && (st.depth == 0 || (st.depth == 1
                && !before_close)),
            DataFormat::MultiItr => is_whitespace(c) && (st.depth == 0 || (st.depth == 1
                && !before_close)),
            DataFormat::Labeled => eq && text && (c == '\n' || (c == '\t' && hsv != 3 && hsv360
                != 6 && rgb != 3)) && st.depth == 0,
            DataFormat::Nothing => false,
        };
        st.eq = eq && !split;
        st.text = text && !split;
        split
    } else {
        false
    }
}

/// Position of the first `=` in `v[lo..hi]`, if there is one.
fn find_eq(v: &Vec<char>, lo: usize, hi: usize) -> (r: Option<usize>)
    requires
        lo <= hi <= v@.len(),
    ensures
        r matches Some(k) ==> lo <= k < hi && is_first(
            v@.subrange(lo as int, hi as int),
            '=',
            k - lo,
        ),
        r is None ==> !exists|k: int| is_first(v@.subrange(lo as int, hi as int), '=', k),
{
    let ghost p = v@.subrange(lo as int, hi as int);
    let mut i = lo;
    while i < hi
        invariant
            lo <= i <= hi <= v@.len(),
            p == v@.subrange(lo as int, hi as int),
            forall|j: int| 0 <= j < i - lo ==> p[j] != '=',
        decreases hi - i,
    {
        if v[i] == '=' {
            assert(p[i - lo] == '=');
            return Some(i);
        }
        i = i + 1;
    }
    proof {
        assert forall|k: int| !is_first(p, '=', k) by {
            if 0 <= k < p.len() {
                assert(p[k] != '=');
            }
        }
    }
    None
}

/// The entry that `v[lo..hi]` gives in format `fmt`.
fn make_item(v: &Vec<char>, lo: usize, hi: usize, fmt: DataFormat) -> (r: DataStructure)
    requires
        lo <= hi <= v@.len(),
    ensures
        r@ == item_of(v@.subrange(lo as int, hi as int), fmt),
{
    let ghost p = v@.subrange(lo as int, hi as int);
    match fmt {
        DataFormat::Labeled => {
            match find_eq(v, lo, hi) {
                Some(k) => {
                    let (a0, a1) = trim_bounds(v, lo, k);
                    let (b0, b1) = trim_bounds(v, k + 1, hi);
                    proof {
                        let kk = choose|kk: int| is_first(p, '=', kk);
                        assert(is_first(p, '=', k - lo));
                        if kk < k - lo {
                            assert(p[kk] != '=');
                        } else if kk > k - lo {
                            assert(p[k - lo] != '=');
                        }
                        assert(p.take(k - lo) =~= v@.subrange(lo as int, k as int));
                        assert(p.skip(k - lo + 1) =~= v@.subrange(k + 1, hi as int));
                    }
                    DataStructure::Itr(string_of(v, a0, a1), string_of(v, b0, b1))
                },
                None => DataStructure::Val(string_of(v, lo, hi)),
            }
        },
        DataFormat::MultiItr => DataStructure::Itr(String::new(), string_of(v, lo, hi)),
        _ => DataStructure::Val(string_of(v, lo, hi)),
    }
}

/// The entries of a block of Paradox script text, handed out one at a time.
pub struct MapIterator {
    /// the entries still to come, the next one last
    data: Vec<DataStructure>,
    version: DataFormat,
}

impl View for MapIterator {
    type V = Seq<DataView>;

    closed spec fn view(&self) -> Seq<DataView> {
        Seq::new(self.data@.len(), |i: int| self.data@[self.data@.len() - 1 - i]@)
    }
}

/// Whether the next character of `t` from `i` on that is not whitespace is a closing
/// brace.
fn next_closes(t: &Vec<char>, i: usize) -> (r: bool)
    requires
        i <= t@.len(),
    ensures
        r == closes_next(t@, i as nat),
{
    let mut k = i;
    while k < t.len()
        invariant
            i <= k <= t@.len(),
            closes_next(t@, i as nat) == closes_next(t@, k as nat),
        decreases t@.len() - k,
    {
        if !is_whitespace(t[k]) {
            return t[k] == '}';
        }
        k = k + 1;
    }
    false
}

/// The text of `v` from `lo` to `hi` gives `item_of` views of its scan pieces.
fn scan_items(t: &Vec<char>, fmt: DataFormat) -> (r: Vec<DataStructure>)
    requires
        fmt != DataFormat::Nothing,
    ensures
        r@.map_values(|d: DataStructure| d@) == scan_pieces(t@, fmt).map_values(
            |p: Seq<char>| item_of(p, fmt),
        ),
{
    let n = t.len();
    let mut st = Scanner {
        para: false,
        eq: false,
        depth: 0,
        comment: false,
        text: false,
        hsv360: 0,
        hsv: 0,
        rgb: 0,
    };
    let mut out: Vec<DataStructure> = Vec::new();
    let mut start: usize = 0;
    let mut i: usize = 0;
    while i < n
        invariant
            n == t@.len(),
            i <= n,
            start <= i,
            st.bounded(i as int),
            st.state() == scan_run(t@, fmt, i as nat).0,
            start as int == scan_run(t@, fmt, i as nat).2,
            out@.map_values(|d: DataStructure| d@) == scan_run(t@, fmt, i as nat).1.map_values(
                |p: Seq<char>| item_of(p, fmt),
            ),
        decreases n - i,
    {
        let c = t[i];
        let ghost prev_out = out@;
        let before_close = if (fmt == DataFormat::MultiVal || fmt == DataFormat::MultiItr)
            && is_whitespace(c) {
            next_closes(t, i + 1)
        } else {
            false
        };
        assert(scan_step(st.state(), c, fmt, before_close) == scan_step(
            st.state(),
            c,
            fmt,
            closes_next(t@, (i + 1) as nat),
        ));
        let split = step(&mut st, c, fmt, before_close, Ghost(i as int));
        if split {
            if start < i {
                let item = make_item(t, start, i, fmt);
                out.push(item);
                proof {
                    assert(out@.map_values(|d: DataStructure| d@) =~= prev_out.map_values(
                        |d: DataStructure| d@,
                    ).push(item@));
                    assert(scan_run(t@, fmt, (i + 1) as nat).1 == scan_run(
                        t@,
                        fmt,
                        i as nat,
                    ).1.push(t@.subrange(start as int, i as int)));
                    assert(scan_run(t@, fmt, (i + 1) as nat).1.map_values(
                        |p: Seq<char>| item_of(p, fmt),
                    ) =~= scan_run(t@, fmt, i as nat).1.map_values(
                        |p: Seq<char>| item_of(p, fmt),
                    ).push(item_of(t@.subrange(start as int, i as int), fmt)));
                }
            }
            start = i + 1;
        }
        i = i + 1;
    }
    if start < n {
        let ghost prev_out = out@;
        let item = make_item(t, start, n, fmt);
        out.push(item);
        proof {
            assert(out@.map_values(|d: DataStructure| d@) =~= prev_out.map_values(
                |d: DataStructure| d@,
            ).push(item@));
            assert(scan_pieces(t@, fmt).map_values(|p: Seq<char>| item_of(p, fmt))
                =~= scan_run(t@, fmt, n as nat).1.map_values(|p: Seq<char>| item_of(p, fmt)).push(
                item_of(t@.subrange(start as int, n as int), fmt),
            ));
        }
    }
    out
}

impl MapIterator {
    /// Scans `data` in format `format`.
    pub fn new(data: &str, format: DataFormat) -> (r: MapIterator)
        requires
            prepare_ok(data@, format),
        ensures
            r@ == map_items(data@, format),
            r.format() == format,
    {
        let cs = to_chars(data);
        let n = cs.len();
        let a = skip_bom(&cs, 0, n);
        assert(cs@.subrange(0, n as int) =~= cs@);
        let (mut lo, mut hi) = trim_bounds(&cs, a, n);
        let ghost t = cs@.subrange(lo as int, hi as int);
        assert(t == trimmed(data@));
        if format != DataFormat::Single && lo < hi && cs[lo] == '{' {
            assert(t[0] == '{');
            assert(t.last() == cs@[hi - 1]);
            let (l2, h2) = trim_bounds(&cs, lo + 1, hi - 1);
            assert(t.subrange(1, t.len() - 1) =~= cs@.subrange(lo + 1, hi - 1));
            lo = l2;
            hi = h2;
        }
        let prepared_text = chars_of(&cs, lo, hi);
        let fwd = scan_items(&prepared_text, format);
        let mut rev: Vec<DataStructure> = Vec::new();
        let mut fwd = fwd;
        let ghost all = fwd@;
        let m = fwd.len();
        while fwd.len() > 0
            invariant
                all.len() == m,
                fwd@ == all.take(fwd@.len() as int),
                rev@.len() + fwd@.len() == m,
                forall|j: int| 0 <= j < rev@.len() ==> #[trigger] rev@[j] == all[m - 1 - j],
            decreases fwd@.len(),
        {
            let ghost before = fwd@;
            let d = fwd.pop().unwrap();
            assert(fwd@ =~= all.take(fwd@.len() as int));
            rev.push(d);
        }
        let r = MapIterator { data: rev, version: format };
        proof {
            let items = map_items(data@, format);
            assert(all.map_values(|d: DataStructure| d@) == items);
            assert(r@ =~= items) by {
                assert forall|i: int| 0 <= i < items.len() implies r@[i] == items[i] by {
                    assert(r.data@[m - 1 - i] == all[i]);
                }
            }
        }
        r
    }

    /// The format that the entries were scanned in.
    pub closed spec fn format(&self) -> DataFormat {
        self.version
    }

    /// The number of entries still to come.
    pub fn len_remaining(&self) -> (r: usize)
        ensures
            r == self@.len(),
    {
        self.data.len()
    }

    /// Hands out the next entry, or `None` when there is none left.
    pub fn next(&mut self) -> (r: Option<DataStructure>)
        ensures
            old(self)@.len() == 0 ==> r is None && final(self)@ == old(self)@,
            old(self)@.len() > 0 ==> (r matches Some(d) && d@ == old(self)@[0]),
            old(self)@.len() > 0 ==> final(self)@ == old(self)@.drop_first(),
            final(self).format() == old(self).format(),
    {
        let r = self.data.pop();
        proof {
            if old(self)@.len() > 0 {
                assert(self@ =~= old(self)@.drop_first());
            } else {
                assert(self@ =~= old(self)@);
            }
        }
        r
    }

    /// The values of all entries still to come; an error if one of them is labelled.
    pub fn get_vec(self) -> (r: Result<Vec<String>, VicError>)
        ensures
            r is Ok <==> forall|i: int| 0 <= i < self@.len() ==> #[trigger] self@[i] is Val,
            r matches Ok(v) ==> v@.len() == self@.len() && forall|i: int|
                0 <= i < self@.len() ==> self@[i] == DataView::Val(#[trigger] v@[i]@),
            r matches Err(e) ==> e is Other,
    {
        let mut it = self;
        let ghost all = it@;
        let mut out: Vec<String> = Vec::new();
        while it.data.len() > 0
            invariant
                all == self@,
                out@.len() + it@.len() == all.len(),
                it@ == all.skip(out@.len() as int),
                forall|i: int| 0 <= i < out@.len() ==> all[i] == DataView::Val(#[trigger] out@[i]@),
            decreases it@.len(),
        {
            let ghost before = it@;
            let d = it.next().unwrap();
            assert(all.skip(out@.len() as int)[0] == all[out@.len() as int]);
            assert(d@ == all[out@.len() as int]);
            match d {
                DataStructure::Val(a) => {
                    out.push(a);
                    assert(it@ =~= all.skip(out@.len() as int));
                },
                DataStructure::Itr(a, _) => {
                    assert(!(all[out@.len() as int] is Val));
                    assert(!(self@[out@.len() as int] is Val));
                    return Err(val_error(a));
                },
            }
        }
        assert forall|i: int| 0 <= i < all.len() implies #[trigger] all[i] is Val by {
            assert(all[i] == DataView::Val(out@[i]@));
        }
        Ok(out)
    }

    /// The value of the next entry; an error if it is labelled.
    pub fn get_val(self) -> (r: Result<String, VicError>)
        requires
            self@.len() > 0,
        ensures
            r is Ok <==> self@[0] is Val,
            r matches Ok(a) ==> self@[0] == DataView::Val(a@),
            r matches Err(e) ==> e is Other,
    {
        let mut it = self;
        it.next().unwrap().val_info()
    }

    /// Every entry still to come, in order.
    pub fn into_vec(self) -> (r: Vec<DataStructure>)
        ensures
            r@.map_values(|d: DataStructure| d@) == self@,
    {
        let mut it = self;
        let ghost all = it@;
        let mut out: Vec<DataStructure> = Vec::new();
        while it.data.len() > 0
            invariant
                out@.len() + it@.len() == all.len(),
                it@ == all.skip(out@.len() as int),
                out@.map_values(|d: DataStructure| d@) == all.take(out@.len() as int),
            decreases it@.len(),
        {
            let ghost prev = out@;
            let d = it.next().unwrap();
            assert(all.skip(out@.len() as int)[0] == all[out@.len() as int]);
            out.push(d);
            assert(out@.map_values(|d: DataStructure| d@) =~= all.take(out@.len() as int));
            assert(it@ =~= all.skip(out@.len() as int));
        }
        assert(all.take(out@.len() as int) =~= all);
        out
    }
}

fn val_error(a: String) -> (e: VicError)
    ensures
        e is Other,
{
    let mut msg = String::from_str("Unimplemented error in map_scanner::val_info: >");
    msg.append(a.as_str());
    msg.append("<");
    VicError::Other(msg)
}

impl DataStructure {
    /// Whether this is a labelled entry whose label is `rhs`.
    pub fn name(&self, rhs: &str) -> (r: bool)
        ensures
            r == (self@ matches DataView::Itr(l, _) && l == rhs@),
    {
        match self {
            DataStructure::Itr(lhs, _) => {
                let t = String::from_str(rhs);
                *lhs == t
            },
            DataStructure::Val(_) => false,
        }
    }

    /// The label and data of a labelled entry, or the value of a bare one.
    pub fn info(&self) -> (r: Vec<&str>)
        ensures
            self@ matches DataView::Itr(a, b) ==> r@.len() == 2 && r@[0]@ == a && r@[1]@ == b,
            self@ matches DataView::Val(a) ==> r@.len() == 1 && r@[0]@ == a,
    {
        match self {
            DataStructure::Itr(a, b) => vec![a.as_str(), b.as_str()],
            DataStructure::Val(a) => vec![a.as_str()],
        }
    }

    /// The label and data of a labelled entry; an error for a bare value.
    pub fn itr_info(self) -> (r: Result<(String, String), VicError>)
        ensures
            r is Ok <==> self@ is Itr,
            r matches Ok(p) ==> self@ == DataView::Itr(p.0@, p.1@),
            r matches Err(e) ==> e is Other,
    {
        match self {
            DataStructure::Itr(a, b) => Ok((a, b)),
            DataStructure::Val(a) => {
                let mut msg = String::from_str("Unimplemented error in map_scanner::itr_info: >");
                msg.append(a.as_str());
                msg.append("<");
                Err(VicError::Other(msg))
            },
        }
    }

    /// A labelled entry with an empty label over `inp`.
    pub fn new(inp: &str) -> (r: DataStructure)
        ensures
            r@ == DataView::Itr(Seq::empty(), inp@),
    {
        DataStructure::Itr(String::new(), inp.to_owned())
    }

    /// The value of a bare entry; an error for a labelled one.
    pub fn val_info(self) -> (r: Result<String, VicError>)
        ensures
            r is Ok <==> self@ is Val,
            r matches Ok(a) ==> self@ == DataView::Val(a@),
            r matches Err(e) ==> e is Other,
    {
        match self {
            DataStructure::Val(a) => Ok(a),
            DataStructure::Itr(a, _) => Err(val_error(a)),
        }
    }
}

} // verus!

verus! {

// ---------------------------------------------------------------------------
// Laws of the scanner
// ---------------------------------------------------------------------------
proof fn lemma_single_run(s: Seq<char>, n: nat)
    requires
        n <= s.len(),
    ensures
        scan_run(s, DataFormat::Single, n).1 == Seq::<Seq<char>>::empty(),
        scan_run(s, DataFormat::Single, n).2 == 0,
    decreases n,
{
    if n > 0 {
        lemma_single_run(s, (n - 1) as nat);
    }
}

/// The `Single` format never splits: it gives one bare value, the trimmed text,
/// or nothing where the trimmed text is empty.
pub proof fn law_single_is_whole(s: Seq<char>)
    ensures
        map_items(s, DataFormat::Single) == (if trimmed(s).len() > 0 {
            seq![DataView::Val(trimmed(s))]
        } else {
            Seq::<DataView>::empty()
        }),
{
    let t = prepared(s, DataFormat::Single);
    lemma_single_run(t, t.len());
    assert(t.subrange(0, t.len() as int) =~= t);
    assert(map_items(s, DataFormat::Single) =~= (if trimmed(s).len() > 0 {
        seq![DataView::Val(trimmed(s))]
    } else {
        Seq::<DataView>::empty()
    }));
}

proof fn lemma_pieces_nonempty_run(s: Seq<char>, fmt: DataFormat, n: nat)
    requires
        n <= s.len(),
    ensures
        0 <= scan_run(s, fmt, n).2 <= n,
        forall|i: int|
            0 <= i < scan_run(s, fmt, n).1.len() ==> #[trigger] scan_run(s, fmt, n).1[i].len()
                > 0,
    decreases n,
{
    if n > 0 {
        lemma_pieces_nonempty_run(s, fmt, (n - 1) as nat);
    }
}

/// Every piece that the scanner cuts is non-empty.
pub proof fn law_pieces_nonempty(s: Seq<char>, fmt: DataFormat)
    ensures
        forall|i: int|
            0 <= i < scan_pieces(s, fmt).len() ==> #[trigger] scan_pieces(s, fmt)[i].len() > 0,
{
    lemma_pieces_nonempty_run(s, fmt, s.len());
}

/// In the `MultiVal` format every entry is a bare value: the piece of text itself.
pub proof fn law_multival_items(s: Seq<char>)
    ensures
        map_items(s, DataFormat::MultiVal) == scan_pieces(
            prepared(s, DataFormat::MultiVal),
            DataFormat::MultiVal,
        ).map_values(|p: Seq<char>| DataView::Val(p)),
{
    assert(map_items(s, DataFormat::MultiVal) =~= scan_pieces(
        prepared(s, DataFormat::MultiVal),
        DataFormat::MultiVal,
    ).map_values(|p: Seq<char>| DataView::Val(p)));
}

/// The one value of `content` read in the `Single` format: the trimmed text.
pub fn single_val(content: &str) -> (r: String)
    requires
        trimmed(content@).len() > 0,
    ensures
        r@ == trimmed(content@),
{
    proof {
        law_single_is_whole(content@);
    }
    let it = MapIterator::new(content, DataFormat::Single);
    match it.get_val() {
        Ok(v) => v,
        Err(_) => String::new(),
    }
}

/// The values of `content` read in the `MultiVal` format.
pub fn multi_vals(content: &str) -> (r: Vec<String>)
    requires
        prepare_ok(content@, DataFormat::MultiVal),
    ensures
        r@.map_values(|s: String| s@) == scan_pieces(
            prepared(content@, DataFormat::MultiVal),
            DataFormat::MultiVal,
        ),
{
    proof {
        law_multival_items(content@);
    }
    let it = MapIterator::new(content, DataFormat::MultiVal);
    let ghost items = it@;
    match it.get_vec() {
        Ok(v) => {
            assert(v@.map_values(|s: String| s@) =~= scan_pieces(
                prepared(content@, DataFormat::MultiVal),
                DataFormat::MultiVal,
            )) by {
                let ps = scan_pieces(prepared(content@, DataFormat::MultiVal), DataFormat::MultiVal);
                assert forall|i: int| 0 <= i < ps.len() implies v@[i]@ == ps[i] by {
                    assert(items[i] == DataView::Val(ps[i]));
                    assert(items[i] == DataView::Val(v@[i]@));
                }
            }
            v
        },
        Err(_) => {
            assert(items[0] == DataView::Val(scan_pieces(prepared(content@, DataFormat::MultiVal), DataFormat::MultiVal)[0])) by {
                // every MultiVal entry is a bare value
                let ps = scan_pieces(prepared(content@, DataFormat::MultiVal), DataFormat::MultiVal);
                assert(forall|i: int| 0 <= i < items.len() ==> #[trigger] items[i] == DataView::Val(ps[i]));
            }
            Vec::new()
        },
    }
}

} // verus!

verus! {

// ---------------------------------------------------------------------------
// Reading whole files of entries
// ---------------------------------------------------------------------------
/// Types read from one labelled entry.
pub trait GetMapData: Sized + View {
    /// Whether reading the entry `d` is accepted (reading does not stop short).
    spec fn accepts(d: DataView) -> bool;

    /// What reading the entry `d` gives, or `Err` where it is not such a value.
    spec fn spec_one(d: DataView) -> Result<<Self as View>::V, ()>;

    /// Reads one entry.
    fn consume_one(inp: DataStructure) -> (r: Result<Self, VicError>)
        requires
            Self::accepts(inp@),
        ensures
            r is Ok <==> Self::spec_one(inp@) is Ok,
            r matches Ok(v) ==> Self::spec_one(inp@) == Ok::<<Self as View>::V, ()>(v@),
    ;
}

/// Types read from a whole file of entries.
pub trait GetMapFile: Sized + View {
    /// Whether reading the entries `items` of a file is accepted.
    spec fn vec_ok(items: Seq<DataView>, database: Option<Seq<char>>) -> bool;

    /// What reading the entries `items` of a file gives.
    spec fn spec_vec(items: Seq<DataView>, database: Option<Seq<char>>) -> Result<
        Seq<<Self as View>::V>,
        (),
    >;

    /// Reads the entries of a file.
    fn consume_vec(inp: MapIterator, database: Option<&str>) -> (r: Result<Vec<Self>, VicError>)
        requires
            Self::vec_ok(inp@, opt_view(database)),
        ensures
            r is Ok <==> Self::spec_vec(inp@, opt_view(database)) is Ok,
            r matches Ok(v) ==> Self::spec_vec(inp@, opt_view(database)) == Ok::<
                Seq<<Self as View>::V>,
                (),
            >(v@.map_values(|x: Self| x@)),
    ;
}

/// Every entry read, in order, or `Err` where one of them cannot be read.
pub open spec fn consume_all<T: GetMapData>(items: Seq<DataView>) -> Result<Seq<T::V>, ()>
    decreases items.len(),
{
    if items.len() == 0 {
        Ok(Seq::empty())
    } else {
        match consume_all::<T>(items.drop_last()) {
            Ok(vs) => match T::spec_one(items.last()) {
                Ok(v) => Ok(vs.push(v)),
                Err(_) => Err(()),
            },
            Err(_) => Err(()),
        }
    }
}

/// Every entry that is read before reading stops is accepted.
pub open spec fn all_accepted<T: GetMapData>(items: Seq<DataView>) -> bool {
    forall|i: int|
        0 <= i < items.len() ==> (consume_all::<T>(items.take(i)) is Ok ==> T::accepts(
            #[trigger] items[i],
        ))
}

/// The entry is labelled `a`.
pub open spec fn is_named(d: DataView, a: Seq<char>) -> bool {
    d matches DataView::Itr(l, _) && l == a
}

/// The first entry labelled `a`.
pub open spec fn find_named(items: Seq<DataView>, a: Seq<char>) -> Option<int> {
    if exists|k: int| 0 <= k < items.len() && #[trigger] is_named(items[k], a) {
        Some(
            choose|k: int|
                0 <= k < items.len() && is_named(items[k], a) && forall|j: int|
                    0 <= j < k ==> !#[trigger] is_named(items[j], a),
        )
    } else {
        None
    }
}

/// The block that `consume_vec` reads: all entries, or those under the first entry
/// labelled `database`.
pub open spec fn database_items(items: Seq<DataView>, database: Option<Seq<char>>) -> Option<
    Seq<DataView>,
> {
    match database {
        None => Some(items),
        Some(a) => match find_named(items, a) {
            Some(k) => match items[k] {
                DataView::Itr(_, b) => Some(map_items(b, DataFormat::Labeled)),
                DataView::Val(_) => None,
            },
            None => None,
        },
    }
}

pub open spec fn database_ok<T: GetMapData>(items: Seq<DataView>, database: Option<Seq<char>>) -> bool {
    match database {
        None => all_accepted::<T>(items),
        Some(a) => match find_named(items, a) {
            Some(k) => match items[k] {
                DataView::Itr(_, b) => prepare_ok(b, DataFormat::Labeled) && all_accepted::<T>(
                    map_items(b, DataFormat::Labeled),
                ),
                DataView::Val(_) => true,
            },
            None => true,
        },
    }
}

/// What `consume_vec` gives.
pub open spec fn spec_consume_vec<T: GetMapData>(
    items: Seq<DataView>,
    database: Option<Seq<char>>,
) -> Result<Seq<T::V>, ()> {
    match database_items(items, database) {
        Some(block) => consume_all::<T>(block),
        None => Err(()),
    }
}

proof fn lemma_consume_all_err<T: GetMapData>(items: Seq<DataView>, i: int)
    requires
        0 <= i <= items.len(),
        consume_all::<T>(items.take(i)) is Err,
    ensures
        consume_all::<T>(items) is Err,
    decreases items.len() - i,
{
    if i < items.len() {
        assert(items.take(i + 1).drop_last() =~= items.take(i));
        lemma_consume_all_err::<T>(items, i + 1);
    } else {
        assert(items.take(i) =~= items);
    }
}

/// Reads every entry of `inp`.
fn consume_each<T: GetMapData>(inp: MapIterator) -> (r: Result<Vec<T>, VicError>)
    requires
        all_accepted::<T>(inp@),
    ensures
        r is Ok <==> consume_all::<T>(inp@) is Ok,
        r matches Ok(v) ==> consume_all::<T>(inp@) == Ok::<Seq<T::V>, ()>(
            v@.map_values(|x: T| x@),
        ),
{
    let mut it = inp;
    let ghost items = it@;
    let n = it.len_remaining();
    let mut out: Vec<T> = Vec::new();
    let mut i: usize = 0;
    assert(items.take(0) =~= Seq::<DataView>::empty());
    assert(out@.map_values(|x: T| x@) =~= Seq::<T::V>::empty());
    while i < n
        invariant
            items == inp@,
            all_accepted::<T>(items),
            n == items.len(),
            i <= n,
            it@ == items.skip(i as int),
            consume_all::<T>(items.take(i as int)) == Ok::<Seq<T::V>, ()>(
                out@.map_values(|x: T| x@),
            ),
        decreases n - i,
    {
        let d = it.next().unwrap();
        assert(items.skip(i as int)[0] == items[i as int]);
        assert(items.take(i + 1).drop_last() =~= items.take(i as int));
        assert(items.take(i + 1).last() == items[i as int]);
        match T::consume_one(d) {
            Ok(v) => {
                let ghost prev = out@;
                out.push(v);
                assert(out@.map_values(|x: T| x@) =~= prev.map_values(|x: T| x@).push(v@));
            },
            Err(e) => {
                proof {
                    lemma_consume_all_err::<T>(items, i + 1);
                }
                return Err(e);
            },
        }
        assert(it@ =~= items.skip(i + 1));
        i = i + 1;
    }
    assert(items.take(n as int) =~= items);
    Ok(out)
}

/// The text of an optional label.
pub open spec fn opt_view(a: Option<&str>) -> Option<Seq<char>> {
    match a {
        Some(s) => Some(s@),
        None => None,
    }
}

/// Reads the entries of `inp`: all of them, or, where `database` names a label, those
/// in the block under the first entry with that label (an error where there is none).
pub fn consume_entries<T: GetMapData>(inp: MapIterator, database: Option<&str>) -> (r: Result<
    Vec<T>,
    VicError,
>)
    requires
        database_ok::<T>(inp@, opt_view(database)),
    ensures
        r is Ok <==> spec_consume_vec::<T>(inp@, opt_view(database)) is Ok,
        r matches Ok(v) ==> spec_consume_vec::<T>(inp@, opt_view(database)) == Ok::<
            Seq<T::V>,
            (),
        >(v@.map_values(|x: T| x@)),
{
    match database {
        Some(a) => {
            let mut it = inp;
            let ghost items = it@;
            let n = it.len_remaining();
            let mut i: usize = 0;
            while i < n
                invariant
                    items == inp@,
                    opt_view(database) == Some(a@),
                    database_ok::<T>(items, Some(a@)),
                    n == items.len(),
                    i <= n,
                    it@ == items.skip(i as int),
                    forall|j: int| 0 <= j < i ==> !#[trigger] is_named(items[j], a@),
                decreases n - i,
            {
                let d = it.next().unwrap();
                assert(items.skip(i as int)[0] == items[i as int]);
                if d.name(a) {
                    proof {
                        assert(is_named(items[i as int], a@));
                        let k = choose|k: int|
                            0 <= k < items.len() && is_named(items[k], a@) && forall|j: int|
                                0 <= j < k ==> !#[trigger] is_named(items[j], a@);
                        if k < i {
                            assert(!is_named(items[k], a@));
                        } else if k > i {
                            assert(!is_named(items[i as int], a@));
                        }
                        assert(find_named(items, a@) == Some(i as int));
                        assert(d@ == items[i as int]);
                    }
                    match d {
                        DataStructure::Itr(_, b) => {
                            let block = MapIterator::new(b.as_str(), DataFormat::Labeled);
                            return consume_each::<T>(block);
                        },
                        DataStructure::Val(_) => {
                            return Err(VicError::Other(String::from_str("Unimplemented error")));
                        },
                    }
                }
                assert(it@ =~= items.skip(i + 1));
                i = i + 1;
            }
            proof {
                assert forall|k: int| !(0 <= k < items.len() && #[trigger] is_named(items[k], a@)) by {
                    if 0 <= k < items.len() {
                        assert(!is_named(items[k], a@));
                    }
                }
            }
            Err(VicError::Other(String::from_str("Unimplemented error")))
        },
        None => consume_each::<T>(inp),
    }
}

} // verus!

verus! {

/// Decodes bytes as UTF-8 with `std::str::from_utf8`: `Some` exactly where the bytes
/// are valid UTF-8, holding the characters they encode.
#[verifier::external_body]
pub(crate) fn utf8_text(b: &[u8]) -> (r: Option<&str>)
    ensures
        r is Some <==> vstd::utf8::valid_utf8(b@),
        r matches Some(s) ==> s@ == vstd::utf8::decode_utf8(b@),
{
    std::str::from_utf8(b).ok()
}

/// After the first `n` characters of `s`: the characters kept and whether a comment is open.
/// A `#` opens a comment, which runs up to the end of its line; the line break stays.
pub open spec fn strip_run(s: Seq<char>, n: nat) -> (Seq<char>, bool)
    decreases n,
{
    if n == 0 {
        (Seq::empty(), false)
    } else {
        let (out, comment) = strip_run(s, (n - 1) as nat);
        let c = s[n - 1];
        if c == '#' {
            (out, true)
        } else if c == '\n' {
            (out.push(c), false)
        } else if comment {
            (out, comment)
        } else {
            (out.push(c), comment)
        }
    }
}

/// `s` without its comments.
pub open spec fn strip_comments(s: Seq<char>) -> Seq<char> {
    strip_run(s, s.len()).0
}

/// The text of a file without its comments, or `None` where it is not UTF-8.
pub open spec fn file_text(b: Seq<u8>) -> Option<Seq<char>> {
    if vstd::utf8::valid_utf8(b) {
        Some(strip_comments(vstd::utf8::decode_utf8(b)))
    } else {
        None
    }
}

/// The entries of the first `n` files, or `Err` where reading stopped.
pub open spec fn files_run<T: GetMapFile>(files: Seq<Seq<u8>>, n: nat) -> Result<Seq<T::V>, ()>
    decreases n,
{
    if n == 0 {
        Ok(Seq::empty())
    } else {
        match files_run::<T>(files, (n - 1) as nat) {
            Ok(prev) => match file_text(files[n - 1]) {
                Some(t) => match T::spec_vec(map_items(t, DataFormat::Labeled), None) {
                    Ok(vs) => Ok(prev + vs),
                    Err(_) => Err(()),
                },
                None => Err(()),
            },
            Err(_) => Err(()),
        }
    }
}

/// Every file read before reading stops is accepted.
pub open spec fn files_ok<T: GetMapFile>(files: Seq<Seq<u8>>) -> bool {
    forall|i: int|
        0 <= i < files.len() ==> (files_run::<T>(files, i as nat) is Ok ==> (file_text(
            #[trigger] files[i],
        ) matches Some(t) ==> prepare_ok(t, DataFormat::Labeled) && T::vec_ok(
            map_items(t, DataFormat::Labeled),
            None,
        )))
}

/// `s` without its comments.
fn strip(s: &str) -> (r: String)
    ensures
        r@ == strip_comments(s@),
{
    let v = crate::text::to_chars(s);
    let mut out = String::new();
    let mut comment = false;
    let mut i: usize = 0;
    while i < v.len()
        invariant
            i <= v@.len(),
            v@ == s@,
            (out@, comment) == strip_run(s@, i as nat),
        decreases v@.len() - i,
    {
        let c = v[i];
        if c == '#' {
            comment = true;
        } else if c == '\n' {
            crate::text::push_char(&mut out, c);
            comment = false;
        } else if !comment {
            crate::text::push_char(&mut out, c);
        }
        i = i + 1;
    }
    out
}

proof fn lemma_files_run_err<T: GetMapFile>(files: Seq<Seq<u8>>, n: nat)
    requires
        n <= files.len(),
        files_run::<T>(files, n) is Err,
    ensures
        files_run::<T>(files, files.len()) is Err,
    decreases files.len() - n,
{
    if n < files.len() {
        lemma_files_run_err::<T>(files, n + 1);
    }
}

/// Reads the entries of a set of files, one after the other: each is decoded as UTF-8,
/// stripped of its comments and scanned as labelled entries.
pub fn get_data_from<T: GetMapFile>(files: &Vec<Vec<u8>>) -> (r: Result<Vec<T>, VicError>)
    requires
        files_ok::<T>(files@.map_values(|f: Vec<u8>| f@)),
    ensures
        ({
            let fs = files@.map_values(|f: Vec<u8>| f@);
            &&& r is Ok <==> files_run::<T>(fs, fs.len()) is Ok
            &&& r matches Ok(v) ==> files_run::<T>(fs, fs.len()) == Ok::<Seq<T::V>, ()>(
                v@.map_values(|x: T| x@),
            )
        }),
{
    let ghost fs = files@.map_values(|f: Vec<u8>| f@);
    let mut ret: Vec<T> = Vec::new();
    let mut i: usize = 0;
    assert(ret@.map_values(|x: T| x@) =~= Seq::<T::V>::empty());
    while i < files.len()
        invariant
            fs == files@.map_values(|f: Vec<u8>| f@),
            files_ok::<T>(fs),
            i <= files@.len(),
            files_run::<T>(fs, i as nat) == Ok::<Seq<T::V>, ()>(ret@.map_values(|x: T| x@)),
        decreases files@.len() - i,
    {
        assert(fs[i as int] == files@[i as int]@);
        match utf8_text(files[i].as_slice()) {
            Some(text) => {
                let data = strip(text);
                let temp = MapIterator::new(data.as_str(), DataFormat::Labeled);
                match T::consume_vec(temp, None) {
                    Ok(vs) => {
                        let ghost prev = ret@;
                        let mut vs = vs;
                        let ghost add = vs@;
                        ret.append(&mut vs);
                        assert(ret@ == prev + add);
                        assert(ret@.map_values(|x: T| x@) =~= prev.map_values(|x: T| x@)
                            + add.map_values(|x: T| x@));
                    },
                    Err(e) => {
                        proof {
                            lemma_files_run_err::<T>(fs, (i + 1) as nat);
                        }
                        return Err(e);
                    },
                }
            },
            None => {
                proof {
                    lemma_files_run_err::<T>(fs, (i + 1) as nat);
                }
                return Err(VicError::Other(String::from_str("invalid utf-8 sequence")));
            },
        }
        i = i + 1;
    }
    Ok(ret)
}

} // verus!
