//! Walking the token tape that `jomini` makes of a game file: an iterator over the
//! tokens, that steps over whole arrays and objects, within optional bounds.
use vstd::prelude::*;

use jomini::TextToken::{
    Array, End, Header, MixedContainer, Object, Operator, Parameter, Quoted, UndefinedParameter,
    Unquoted,
};

verus! {

/// A token of the tape, scalars held as their bytes.
#[derive(Debug)]
pub enum Token {
    /// start of an array, with the index of its end token
    Array { end: usize, mixed: bool },
    /// start of an object, with the index of its end token
    Object { end: usize, mixed: bool },
    MixedContainer,
    Unquoted(Vec<u8>),
    Quoted(Vec<u8>),
    Parameter(Vec<u8>),
    UndefinedParameter(Vec<u8>),
    /// a non-equal operator
    Operator,
    /// end of an array or object, with the index of its start
    End(usize),
    /// the header of the scalar that follows, as `rgb` in `rgb { 1 2 3 }`
    Header(Vec<u8>),
}

pub ghost enum TokenView {
    Array { end: nat, mixed: bool },
    Object { end: nat, mixed: bool },
    MixedContainer,
    Unquoted(Seq<u8>),
    Quoted(Seq<u8>),
    Parameter(Seq<u8>),
    UndefinedParameter(Seq<u8>),
    Operator,
    End(nat),
    Header(Seq<u8>),
}

impl View for Token {
    type V = TokenView;

    open spec fn view(&self) -> TokenView {
        match self {
            Token::Array { end, mixed } => TokenView::Array { end: *end as nat, mixed: *mixed },
            Token::Object { end, mixed } => TokenView::Object { end: *end as nat, mixed: *mixed },
            Token::MixedContainer => TokenView::MixedContainer,
            Token::Unquoted(s) => TokenView::Unquoted(s@),
            Token::Quoted(s) => TokenView::Quoted(s@),
            Token::Parameter(s) => TokenView::Parameter(s@),
            Token::UndefinedParameter(s) => TokenView::UndefinedParameter(s@),
            Token::Operator => TokenView::Operator,
            Token::End(i) => TokenView::End(*i as nat),
            Token::Header(s) => TokenView::Header(s@),
        }
    }
}

pub open spec fn tokens_view(v: Seq<Token>) -> Seq<TokenView> {
    v.map_values(|t: Token| t@)
}

/// The tokens that `jomini::TextTape::from_slice` makes of `data`, where it parses.
pub uninterp spec fn text_tape(data: Seq<u8>) -> Option<Seq<TokenView>>;

/// The bytes that `u8::is_ascii_whitespace` accepts: space, tab, line feed, form
/// feed and carriage return.
pub open spec fn ascii_ws(b: u8) -> bool {
    b == 32 || b == 9 || b == 10 || b == 12 || b == 13
}

/// `bytes` without the ASCII whitespace at its end.
pub open spec fn trim_ascii_end(bytes: Seq<u8>) -> Seq<u8>
    decreases bytes.len(),
{
    if bytes.len() > 0 && ascii_ws(bytes.last()) {
        trim_ascii_end(bytes.drop_last())
    } else {
        bytes
    }
}

/// The decimal digits of `n`, most significant first.
pub open spec fn decimal_text(n: nat) -> Seq<char>
    decreases n,
{
    if n < 10 {
        seq![(n + 48) as char]
    } else {
        decimal_text(n / 10).push(((n % 10) + 48) as char)
    }
}

/// What `Display` of `jomini::Scalar` writes for a scalar of bytes `bytes`: where
/// every byte is ASCII, the bytes as characters, with the whitespace at the end
/// trimmed and every backslash dropped; otherwise a note of the scalar's length.
pub open spec fn scalar_display(bytes: Seq<u8>) -> Seq<char> {
    if forall|i: int| 0 <= i < bytes.len() ==> #[trigger] bytes[i] < 128 {
        trim_ascii_end(bytes).filter(|b: u8| b != 92).map_values(|b: u8| b as char)
    } else {
        "non-ascii string of "@ + decimal_text(bytes.len()) + " length"@
    }
}

/// Whether every byte of `bytes` is a decimal digit.
pub open spec fn all_digits(bytes: Seq<u8>) -> bool {
    forall|i: int| 0 <= i < bytes.len() ==> 48 <= #[trigger] bytes[i] <= 57
}

/// The number that the decimal digits `bytes` write.
pub open spec fn digits_value(bytes: Seq<u8>) -> nat
    decreases bytes.len(),
{
    if bytes.len() == 0 {
        0
    } else {
        digits_value(bytes.drop_last()) * 10 + (bytes.last() - 48) as nat
    }
}

/// What `jomini::Scalar::to_i64` gives for a scalar of bytes `bytes`, where it reads:
/// an optional sign, then decimal digits (a bare sign reads as zero), whose value
/// fits an `i64`; `None` for anything else, an empty scalar or one too large among it.
pub open spec fn scalar_to_i64(bytes: Seq<u8>) -> Option<i64> {
    if bytes.len() == 0 {
        None
    } else {
        let signed = bytes[0] == 45 || bytes[0] == 43;
        let digits = if signed {
            bytes.drop_first()
        } else {
            bytes
        };
        let v = digits_value(digits);
        if !all_digits(digits) || v > i64::MAX {
            None
        } else if bytes[0] == 45 {
            Some((-v) as i64)
        } else {
            Some(v as i64)
        }
    }
}

/// Every array or object ends within the tape.
pub open spec fn ends_inside(ts: Seq<TokenView>) -> bool {
    forall|i: int|
        0 <= i < ts.len() ==> match #[trigger] ts[i] {
            TokenView::Array { end, mixed } => end < ts.len(),
            TokenView::Object { end, mixed } => end < ts.len(),
            _ => true,
        }
}

/// Parses `data` with `jomini::TextTape::from_slice` and takes its tokens, each as a
/// `Token` (an operator without which operator it is). The tokens are what `text_tape` names; the documentation of `TextToken`
/// gives the end of an array or object as the index of its end token, so within the
/// tape.
#[verifier::external_body]
fn tape_tokens(data: &Vec<u8>) -> (r: Option<Vec<Token>>)
    ensures
        r matches Some(v) ==> text_tape(data@) == Some(tokens_view(v@)) && ends_inside(
            tokens_view(v@),
        ),
        r is None ==> text_tape(data@) is None,
{
    let b = |s: jomini::Scalar| s.as_bytes().to_vec();
    Some(jomini::TextTape::from_slice(data).ok()?.tokens().iter().cloned().map(|t| match t {
        Array { end, mixed } => Token::Array { end, mixed },
        Object { end, mixed } => Token::Object { end, mixed },
        MixedContainer => Token::MixedContainer,
        Unquoted(s) => Token::Unquoted(b(s)),
        Quoted(s) => Token::Quoted(b(s)),
        Parameter(s) => Token::Parameter(b(s)),
        UndefinedParameter(s) => Token::UndefinedParameter(b(s)),
        Operator(_) => Token::Operator,
        End(i) => Token::End(i),
        Header(s) => Token::Header(b(s)),
    }).collect())
}

/// Writes the scalar of bytes `bytes` with `Display` of `jomini::Scalar`.
#[verifier::external_body]
fn scalar_text(bytes: &Vec<u8>) -> (r: String)
    ensures
        r@ == scalar_display(bytes@),
{
    jomini::Scalar::new(bytes).to_string()
}

/// Reads the scalar of bytes `bytes` with `jomini::Scalar::to_i64`.
#[verifier::external_body]
fn scalar_i64(bytes: &Vec<u8>) -> (r: Option<i64>)
    ensures
        r == scalar_to_i64(bytes@),
{
    jomini::Scalar::new(bytes).to_i64().ok()
}

/// The scalar a token holds.
pub open spec fn scalar_of(t: TokenView) -> Option<Seq<u8>> {
    match t {
        TokenView::Header(s) => Some(s),
        TokenView::Unquoted(s) => Some(s),
        TokenView::Quoted(s) => Some(s),
        TokenView::Parameter(s) => Some(s),
        TokenView::UndefinedParameter(s) => Some(s),
        _ => None,
    }
}

fn scalar_bytes(t: &Token) -> (r: Option<&Vec<u8>>)
    ensures
        r matches Some(b) ==> scalar_of(t@) == Some(b@),
        r is None ==> scalar_of(t@) is None,
{
    match t {
        Token::Header(s) => Some(s),
        Token::Unquoted(s) => Some(s),
        Token::Quoted(s) => Some(s),
        Token::Parameter(s) => Some(s),
        Token::UndefinedParameter(s) => Some(s),
        _ => None,
    }
}

/// The tokens of a game file.
pub struct JomData {
    tape: Vec<Token>,
}

impl View for JomData {
    type V = Seq<TokenView>;

    closed spec fn view(&self) -> Seq<TokenView> {
        tokens_view(self.tape@)
    }
}

impl JomData {
    /// The tokens of `inp`, which must parse.
    pub fn new(inp: &Vec<u8>) -> (r: JomData)
        requires
            text_tape(inp@) is Some,
        ensures
            Some(r@) == text_tape(inp@),
            ends_inside(r@),
    {
        match tape_tokens(inp) {
            Some(v) => JomData { tape: v },
            None => JomData { tape: Vec::new() },
        }
    }

    /// The tokens of `inp`; `None` where it does not parse.
    pub fn parse(inp: &Vec<u8>) -> (r: Option<JomData>)
        ensures
            r matches Some(d) ==> Some(d@) == text_tape(inp@) && ends_inside(d@),
            r is None ==> text_tape(inp@) is None,
    {
        match tape_tokens(inp) {
            Some(_) => Some(Self::new(inp)),
            None => None,
        }
    }

    fn tokens(&self) -> (r: &Vec<Token>)
        ensures
            tokens_view(r@) == self@,
    {
        &self.tape
    }
}

/// A walk over the tokens: the next token to read, and the bounds of the walk.
pub struct JomIter<'a> {
    iter: &'a Vec<Token>,
    index: usize,
    bounds: Option<[usize; 2]>,
}

pub ghost struct JomIterView {
    pub tokens: Seq<TokenView>,
    pub index: nat,
    pub bounds: Option<(nat, nat)>,
}

impl<'a> View for JomIter<'a> {
    type V = JomIterView;

    closed spec fn view(&self) -> JomIterView {
        JomIterView {
            tokens: tokens_view(self.iter@),
            index: self.index as nat,
            bounds: match self.bounds {
                Some(b) => Some((b[0] as nat, b[1] as nat)),
                None => None,
            },
        }
    }
}

/// The walk is past its upper bound.
pub open spec fn past_bound(v: JomIterView) -> bool {
    v.bounds matches Some(b) && b.1 <= v.index
}

/// The walk after one step, and the token read: an array or object is stepped over
/// whole; nothing is read past the bound or past the tape.
pub open spec fn step(v: JomIterView) -> (JomIterView, Option<TokenView>) {
    if past_bound(v) {
        (v, None)
    } else if v.index < v.tokens.len() {
        let t = v.tokens[v.index as int];
        let next = match t {
            TokenView::Array { end, mixed } => end + 1,
            TokenView::Object { end, mixed } => end + 1,
            _ => v.index + 1,
        };
        (JomIterView { index: next, ..v }, Some(t))
    } else {
        (JomIterView { index: v.index + 1, ..v }, None)
    }
}

/// `new_array` can read from here: a run of headers, then an array, an object or a
/// scalar, all before the bound.
pub open spec fn array_ok(v: JomIterView) -> bool
    decreases v.tokens.len() - v.index,
{
    if past_bound(v) || v.index >= v.tokens.len() {
        false
    } else {
        match v.tokens[v.index as int] {
            TokenView::Header(_) => array_ok(step(v).0),
            TokenView::Array { .. } => true,
            TokenView::Object { .. } => true,
            TokenView::Quoted(_) => true,
            TokenView::Unquoted(_) => true,
            _ => false,
        }
    }
}

/// The walk over the array, object or scalar read by `new_array`, and the walk after it.
pub open spec fn array_of(v: JomIterView) -> (JomIterView, JomIterView)
    decreases v.tokens.len() - v.index,
{
    if past_bound(v) || v.index >= v.tokens.len() {
        (v, v)
    } else {
        let s = step(v).0;
        match v.tokens[v.index as int] {
            TokenView::Header(_) => array_of(s),
            TokenView::Array { end, mixed } => (
                JomIterView { index: v.index + 1, bounds: Some((v.index + 1, end)), ..v },
                JomIterView { index: end + 1, ..v },
            ),
            TokenView::Object { end, mixed } => (
                JomIterView { index: v.index + 1, bounds: Some((v.index + 1, end)), ..v },
                JomIterView { index: end + 1, ..v },
            ),
            _ => (
                JomIterView { index: v.index + 1, bounds: Some((v.index + 1, s.index)), ..v },
                JomIterView { index: s.index + 1, ..v },
            ),
        }
    }
}

impl<'a> JomIter<'a> {
    /// A walk over all tokens of `inp`.
    pub fn new(inp: &'a JomData) -> (r: JomIter<'a>)
        ensures
            r@ == (JomIterView { tokens: inp@, index: 0, bounds: None }),
    {
        JomIter { iter: inp.tokens(), index: 0, bounds: None }
    }

    pub fn index(&self) -> (r: usize)
        ensures
            r as nat == self@.index,
    {
        self.index
    }

    /// Steps back one token.
    pub fn _test_rev(&mut self)
        requires
            old(self)@.index > 0,
        ensures
            final(self)@ == (JomIterView { index: (old(self)@.index - 1) as nat, ..old(self)@ }),
    {
        self.index = self.index - 1;
    }

    /// The same walk, within `bounds`.
    pub fn new_bounded(&self, bounds: [usize; 2]) -> (r: JomIter<'a>)
        ensures
            r@ == (JomIterView { bounds: Some((bounds[0] as nat, bounds[1] as nat)), ..self@ }),
    {
        JomIter { iter: self.iter, index: self.index, bounds: Some(bounds) }
    }

    /// The next token; arrays and objects are stepped over whole.
    pub fn next(&mut self) -> (r: Option<&'a Token>)
        requires
            old(self)@.index < usize::MAX,
            ends_inside(old(self)@.tokens),
        ensures
            final(self)@ == step(old(self)@).0,
            match r {
                Some(t) => step(old(self)@).1 == Some(t@),
                None => step(old(self)@).1 is None,
            },
    {
        match self.bounds {
            Some(b) => {
                if b[1] <= self.index {
                    return None;
                }
            },
            None => {},
        }
        if self.index < self.iter.len() {
            let a: &'a Token = &self.iter[self.index];
            assert(tokens_view(self.iter@)[self.index as int] == a@);
            match a {
                Token::Array { end, mixed: _ } => self.index = *end,
                Token::Object { end, mixed: _ } => self.index = *end,
                _ => {},
            }
            self.index = self.index + 1;
            Some(a)
        } else {
            self.index = self.index + 1;
            None
        }
    }

    /// The walk over the next array, object or scalar (after its headers), which the
    /// walk then steps over.
    pub fn new_array(&mut self) -> (r: JomIter<'a>)
        requires
            array_ok(old(self)@),
            ends_inside(old(self)@.tokens),
            old(self)@.tokens.len() < usize::MAX,
        ensures
            r@ == array_of(old(self)@).0,
            final(self)@ == array_of(old(self)@).1,
        decreases old(self)@.tokens.len() - old(self)@.index,
    {
        let ghost v = self@;
        let index = self.index + 1;
        let end = match self.next() {
            Some(t) => match t {
                Token::Array { end: e, mixed: _ } => *e,
                Token::Object { end: e, mixed: _ } => *e,
                Token::Quoted(_) => self.index,
                Token::Unquoted(_) => self.index,
                Token::Header(_) => {
                    return self.new_array();
                },
                _ => self.index,
            },
            None => self.index,
        };
        let ret = JomIter { iter: self.iter, index, bounds: Some([index, end]) };
        self.index = end + 1;
        ret
    }

    fn grow_left(&mut self, us: usize)
        requires
            old(self)@.index >= 2,
            old(self)@.bounds matches Some(b) ==> b.0 >= us,
        ensures
            final(self)@ == (JomIterView {
                index: (old(self)@.index - 2) as nat,
                bounds: match old(self)@.bounds {
                    Some(b) => Some(((b.0 - us) as nat, b.1)),
                    None => None,
                },
                ..old(self)@
            }),
    {
        self.bounds = match self.bounds {
            Some(x) => Some([x[0] - us, x[1]]),
            None => None,
        };
        self.index = self.index - 2;
    }

    fn grow_right(&mut self, us: usize)
        requires
            old(self)@.bounds matches Some(b) ==> b.1 + us <= usize::MAX,
        ensures
            final(self)@ == (JomIterView {
                bounds: match old(self)@.bounds {
                    Some(b) => Some((b.0, (b.1 + us) as nat)),
                    None => None,
                },
                ..old(self)@
            }),
    {
        self.bounds = match self.bounds {
            Some(x) => Some([x[0], x[1] + us]),
            None => None,
        };
    }

    /// The text of the scalar two tokens back, the label of an array just entered.
    pub fn name(&self) -> (r: Option<String>)
        requires
            self@.index >= 2,
        ensures
            ({
                let i = self@.index - 2;
                match r {
                    Some(s) => i < self@.tokens.len() && (scalar_of(self@.tokens[i]) matches Some(b)
                        && s@ == scalar_display(b)),
                    None => i >= self@.tokens.len() || scalar_of(self@.tokens[i]) is None,
                }
            }),
    {
        let i = self.index - 2;
        if i < self.iter.len() {
            assert(tokens_view(self.iter@)[i as int] == self.iter@[i as int]@);
            match scalar_bytes(&self.iter[i]) {
                Some(b) => Some(scalar_text(b)),
                None => None,
            }
        } else {
            None
        }
    }

    /// The number of the scalar two tokens back, the id of an array just entered.
    pub fn id(&self) -> (r: Option<usize>)
        requires
            self@.index >= 2,
        ensures
            ({
                let i = self@.index - 2;
                match r {
                    Some(n) => i < self@.tokens.len() && (scalar_of(self@.tokens[i]) matches Some(b)
                        && (scalar_to_i64(b) matches Some(x) && n == x as usize)),
                    None => i >= self@.tokens.len() || scalar_of(self@.tokens[i]) is None
                        || scalar_to_i64(scalar_of(self@.tokens[i]).unwrap()) is None,
                }
            }),
    {
        let i = self.index - 2;
        if i < self.iter.len() {
            assert(tokens_view(self.iter@)[i as int] == self.iter@[i as int]@);
            match scalar_bytes(&self.iter[i]) {
                Some(b) => match scalar_i64(b) {
                    Some(x) => Some(x as usize),
                    None => None,
                },
                None => None,
            }
        } else {
            None
        }
    }

    /// The text of the scalar at the walk.
    pub fn to_value(self) -> (r: Option<String>)
        ensures
            ({
                let i = self@.index;
                match r {
                    Some(s) => i < self@.tokens.len() && (scalar_of(self@.tokens[i as int]) matches Some(b)
                        && s@ == scalar_display(b)),
                    None => i >= self@.tokens.len() || scalar_of(self@.tokens[i as int]) is None,
                }
            }),
    {
        let i = self.index;
        if i < self.iter.len() {
            assert(tokens_view(self.iter@)[i as int] == self.iter@[i as int]@);
            match scalar_bytes(&self.iter[i]) {
                Some(b) => Some(scalar_text(b)),
                None => None,
            }
        } else {
            None
        }
    }
}

} // verus!
