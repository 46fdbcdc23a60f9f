//! The plain reader of save files: a text is cut at each whitespace that stands
//! outside braces and quotes, and each piece is a bare value or `label=...`.
use vstd::prelude::*;

use crate::error::VicError;
use crate::record::{parse_num, usize_max};
use crate::text::{
    chars_of, is_whitespace, is_ws, spec_parse_bounded, string_of, to_chars, trim, trim_bounds,
};

verus! {

broadcast use vstd::string::group_string_axioms;

/// Where the cutting of a text stands: brace depth, whether inside quotes, where the
/// current piece starts, and the pieces cut so far.
pub ghost struct CutState {
    pub depth: int,
    pub quoted: bool,
    pub start: int,
    pub pieces: Seq<Seq<char>>,
}

/// The piece `s[start..end]`, trimmed, added where it is not empty.
pub open spec fn with_piece(pieces: Seq<Seq<char>>, s: Seq<char>, start: int, end: int) -> Seq<
    Seq<char>,
> {
    let p = trim(s.subrange(start, end));
    if p.len() > 0 {
        pieces.push(p)
    } else {
        pieces
    }
}

/// One character read: braces change the depth, a quote opens or closes a quoted
/// part, and a whitespace at depth 0 outside quotes ends a piece.
pub open spec fn cut_step(st: CutState, s: Seq<char>, i: int) -> CutState {
    let c = s[i];
    let depth = if c == '{' {
        st.depth + 1
    } else if c == '}' {
        st.depth - 1
    } else {
        st.depth
    };
    let quoted = if c == '"' {
        !st.quoted
    } else {
        st.quoted
    };
    if is_ws(c) && depth == 0 && !quoted {
        CutState { depth, quoted, start: i + 1, pieces: with_piece(st.pieces, s, st.start, i) }
    } else {
        CutState { depth, quoted, start: st.start, pieces: st.pieces }
    }
}

pub open spec fn cut_run(s: Seq<char>, n: nat) -> CutState
    decreases n,
{
    if n == 0 {
        CutState { depth: 0, quoted: false, start: 0, pieces: Seq::empty() }
    } else {
        cut_step(cut_run(s, (n - 1) as nat), s, n - 1)
    }
}

/// The pieces of a text: the trimmed text cut at each whitespace outside braces and
/// quotes, each piece trimmed, the empty ones left out.
pub open spec fn save_pieces(data: Seq<char>) -> Seq<Seq<char>> {
    let s = trim(data);
    let st = cut_run(s, s.len());
    with_piece(st.pieces, s, st.start, s.len() as int)
}

/// What a piece of a save is.
pub ghost enum SaveItem {
    /// `label=rest` or `label{rest`: the label and the pieces inside
    Itr(Seq<char>, Seq<Seq<char>>),
    /// a piece without `=` or `{`
    Val(Seq<char>),
}

/// The first `=` or `{` of a piece.
pub open spec fn split_at(o: Seq<char>) -> Option<int> {
    if exists|k: int| 0 <= k < o.len() && (o[k] == '=' || o[k] == '{') {
        Some(
            choose|k: int|
                0 <= k < o.len() && (o[k] == '=' || o[k] == '{') && forall|j: int|
                    0 <= j < k ==> !(o[j] == '=' || o[j] == '{'),
        )
    } else {
        None
    }
}

/// `rest` without its enclosing braces, where it has both.
pub open spec fn unbrace(rest: Seq<char>) -> Seq<char> {
    if rest.len() >= 2 && rest[0] == '{' && rest[rest.len() - 1] == '}' {
        rest.subrange(1, rest.len() - 1)
    } else {
        rest
    }
}

pub open spec fn save_item(o: Seq<char>) -> SaveItem {
    match split_at(o) {
        Some(k) => SaveItem::Itr(
            o.subrange(0, k),
            save_pieces(unbrace(o.subrange(k + 1, o.len() as int))),
        ),
        None => SaveItem::Val(o),
    }
}

/// The pieces of a save still to be read.
pub struct SaveIterator {
    /// the pieces, last first
    rev: Vec<String>,
}

impl View for SaveIterator {
    type V = Seq<Seq<char>>;

    closed spec fn view(&self) -> Seq<Seq<char>> {
        self.rev@.map_values(|s: String| s@).reverse()
    }
}

/// A piece of a save: a labelled block and the pieces inside, or a bare value.
pub enum DataStructure {
    Itr(String, SaveIterator),
    Val(String),
}

impl View for DataStructure {
    type V = SaveItem;

    open spec fn view(&self) -> SaveItem {
        match self {
            DataStructure::Itr(l, it) => SaveItem::Itr(l@, it@),
            DataStructure::Val(v) => SaveItem::Val(v@),
        }
    }
}

proof fn lemma_cut_start(s: Seq<char>, n: nat)
    requires
        n <= s.len(),
    ensures
        0 <= cut_run(s, n).start <= n,
    decreases n,
{
    if n > 0 {
        lemma_cut_start(s, (n - 1) as nat);
    }
}

proof fn lemma_cut_depth(s: Seq<char>, n: nat)
    ensures
        -(n as int) <= cut_run(s, n).depth <= n,
    decreases n,
{
    if n > 0 {
        lemma_cut_depth(s, (n - 1) as nat);
    }
}

/// The pieces of `v`, trimmed of its ends first.
fn cut(v: &Vec<char>) -> (r: Vec<String>)
    ensures
        r@.map_values(|s: String| s@) == save_pieces(v@),
{
    let (a, b) = trim_bounds(v, 0, v.len());
    let s = chars_of(v, a, b);
    assert(v@.subrange(0, v@.len() as int) =~= v@);
    let ghost sv = s@;
    let mut out: Vec<String> = Vec::new();
    let mut depth: i128 = 0;
    let mut quoted = false;
    let mut start: usize = 0;
    let mut i: usize = 0;
    while i < s.len()
        invariant
            sv == s@,
            sv.len() <= usize::MAX,
            i <= sv.len(),
            ({
                let st = cut_run(sv, i as nat);
                &&& st.depth == depth as int
                &&& st.quoted == quoted
                &&& st.start == start as int
                &&& out@.map_values(|x: String| x@) == st.pieces
            }),
        decreases sv.len() - i,
    {
        proof {
            lemma_cut_start(sv, i as nat);
            lemma_cut_depth(sv, i as nat);
        }
        let c = s[i];
        if c == '{' {
            depth = depth + 1;
        } else if c == '}' {
            depth = depth - 1;
        }
        if c == '"' {
            quoted = !quoted;
        }
        if is_whitespace(c) && depth == 0 && !quoted {
            let (x, y) = trim_bounds(&s, start, i);
            if x < y {
                let ghost before = out@;
                out.push(string_of(&s, x, y));
                assert(out@.map_values(|q: String| q@) =~= before.map_values(|q: String| q@).push(
                    sv.subrange(x as int, y as int),
                ));
            }
            start = i + 1;
        }
        i = i + 1;
    }
    proof {
        lemma_cut_start(sv, i as nat);
    }
    let (x, y) = trim_bounds(&s, start, s.len());
    if x < y {
        let ghost before = out@;
        out.push(string_of(&s, x, y));
        assert(out@.map_values(|q: String| q@) =~= before.map_values(|q: String| q@).push(
            sv.subrange(x as int, y as int),
        ));
    }
    out
}

/// The pieces of `v`, last first.
fn reversed(v: Vec<String>) -> (r: Vec<String>)
    ensures
        r@.map_values(|s: String| s@).reverse() == v@.map_values(|s: String| s@),
{
    let mut v = v;
    let ghost orig = v@.map_values(|s: String| s@);
    let mut out: Vec<String> = Vec::new();
    while v.len() > 0
        invariant
            orig.len() == v@.len() + out@.len(),
            forall|k: int| 0 <= k < v@.len() ==> #[trigger] v@[k]@ == orig[k],
            forall|k: int|
                0 <= k < out@.len() ==> #[trigger] out@[k]@ == orig[orig.len() - 1 - k],
        decreases v@.len(),
    {
        let s = v.pop().unwrap();
        out.push(s);
    }
    assert(out@.map_values(|s: String| s@).reverse() =~= orig);
    out
}

impl SaveIterator {
    /// The pieces of `data`.
    pub fn new(data: &str) -> (r: SaveIterator)
        ensures
            r@ == save_pieces(data@),
    {
        let v = to_chars(data);
        let pieces = cut(&v);
        SaveIterator { rev: reversed(pieces) }
    }

    fn from_chars(v: &Vec<char>) -> (r: SaveIterator)
        ensures
            r@ == save_pieces(v@),
    {
        let pieces = cut(v);
        SaveIterator { rev: reversed(pieces) }
    }

    /// The next piece of the save.
    pub fn next(&mut self) -> (r: Option<DataStructure>)
        ensures
            old(self)@.len() == 0 ==> r is None && final(self)@ == old(self)@,
            old(self)@.len() > 0 ==> (r matches Some(d) && d@ == save_item(old(self)@[0])
                && final(self)@ == old(self)@.drop_first()),
    {
        let ghost before = self.rev@.map_values(|s: String| s@);
        match self.rev.pop() {
            Some(o) => {
                assert(before.reverse()[0] == o@);
                assert(self.rev@.map_values(|s: String| s@).reverse() =~= before.reverse().drop_first());
                Some(item_of(o))
            },
            None => None,
        }
    }

    /// The value of the first piece, which must be a bare value.
    pub fn y_str(self) -> (r: Result<String, VicError>)
        requires
            self@.len() > 0,
            save_item(self@[0]) is Val,
        ensures
            r matches Ok(s) && s@ == self@[0],
    {
        let mut it = self;
        match it.next() {
            Some(DataStructure::Val(a)) => Ok(a),
            _ => Ok(String::new()),
        }
    }

    /// The number that the first piece, a bare value, holds.
    pub fn y_parse(self) -> (r: Result<usize, VicError>)
        requires
            self@.len() > 0,
            save_item(self@[0]) is Val,
        ensures
            r is Ok <==> spec_parse_bounded(self@[0], usize_max()) is Some,
            r matches Ok(n) ==> spec_parse_bounded(self@[0], usize_max()) == Some(n as nat),
            r matches Err(e) ==> e is Other,
    {
        let mut it = self;
        match it.next() {
            Some(DataStructure::Val(a)) => {
                let n = parse_num(a.as_str(), usize::MAX as u64)?;
                Ok(n as usize)
            },
            _ => Ok(0),
        }
    }
}

/// The piece `o` read: `label` and the pieces of what follows the first `=` or `{`
/// (without its enclosing braces), or a bare value.
fn item_of(o: String) -> (r: DataStructure)
    ensures
        r@ == save_item(o@),
{
    let v = to_chars(o.as_str());
    let mut k: usize = 0;
    while k < v.len()
        invariant
            v@ == o@,
            k <= v@.len(),
            forall|j: int| 0 <= j < k ==> !(v@[j] == '=' || v@[j] == '{'),
        decreases v@.len() - k,
    {
        if v[k] == '=' || v[k] == '{' {
            proof {
                let m = choose|m: int|
                    0 <= m < v@.len() && (v@[m] == '=' || v@[m] == '{') && forall|j: int|
                        0 <= j < m ==> !(v@[j] == '=' || v@[j] == '{');
                if m < k {
                    assert(!(v@[m] == '=' || v@[m] == '{'));
                } else if m > k {
                    assert(!(v@[k as int] == '=' || v@[k as int] == '{'));
                }
            }
            let label = string_of(&v, 0, k);
            let n = v.len();
            let inner = if n - (k + 1) >= 2 && v[k + 1] == '{' && v[n - 1] == '}' {
                assert(v@.subrange(k + 1, n as int).subrange(1, (n - (k + 1) - 1) as int) =~= v@.subrange(k + 2, n - 1));
                chars_of(&v, k + 2, n - 1)
            } else {
                chars_of(&v, k + 1, n)
            };
            let it = SaveIterator::from_chars(&inner);
            return DataStructure::Itr(label, it);
        }
        k = k + 1;
    }
    DataStructure::Val(o)
}

impl DataStructure {
    /// Whether this is a block labelled `rhs`.
    pub fn name(&self, rhs: &str) -> (r: bool)
        ensures
            r == (self@ matches SaveItem::Itr(l, _) && l == rhs@),
    {
        match self {
            DataStructure::Itr(lhs, _) => *lhs == String::from_str(rhs),
            DataStructure::Val(_) => false,
        }
    }

    /// The label and the pieces of a block; an error for a bare value.
    pub fn into_iter_alt(self) -> (r: Result<(String, SaveIterator), VicError>)
        ensures
            r is Ok <==> self@ is Itr,
            r matches Ok((l, it)) ==> self@ == SaveItem::Itr(l@, it@),
            r matches Err(e) ==> e is Other,
    {
        match self {
            DataStructure::Itr(a, b) => Ok((a, b)),
            DataStructure::Val(a) => {
                let mut msg = String::from_str("tried passing Val as IntoIteratorV2\n");
                msg.append(a.as_str());
                Err(VicError::Other(msg))
            },
        }
    }

    /// The pieces of a block.
    pub fn into_iter(self) -> (r: SaveIterator)
        requires
            self@ is Itr,
        ensures
            self@ == SaveItem::Itr(self@->Itr_0, r@),
    {
        match self {
            DataStructure::Itr(_, b) => b,
            DataStructure::Val(_) => SaveIterator { rev: Vec::new() },
        }
    }
}

} // verus!
