//! Colors as the game files write them, and colors as pixels.
use vstd::prelude::*;

use crate::error::VicError;
use crate::text::{is_digit, is_whitespace, is_ws, push_char, string_of, to_chars};

verus! {

broadcast use vstd::string::group_string_axioms;

/// A pixel color, one byte per channel.
#[derive(Copy, Clone, Debug)]
pub enum ColorWrap {
    Rgb([u8; 3]),
}

impl ColorWrap {
    pub open spec fn channels(self) -> Seq<u8> {
        match self {
            ColorWrap::Rgb(a) => a@,
        }
    }

    pub fn from(inp: [u8; 3]) -> (r: Self)
        ensures
            r.channels() == inp@,
    {
        ColorWrap::Rgb(inp)
    }

    pub fn unravel(self) -> (r: [u8; 3])
        ensures
            r@ == self.channels(),
    {
        match self {
            ColorWrap::Rgb(a) => a,
        }
    }

    /// The value of channel `index`.
    pub fn index(&self, index: usize) -> (r: u8)
        requires
            index < 3,
        ensures
            r == self.channels()[index as int],
    {
        match self {
            ColorWrap::Rgb(a) => a[index],
        }
    }

    /// Each channel pushed to the far end: 0xFF where it is nearer 0, 0x00 otherwise.
    pub fn inverse(&self) -> (r: Self)
        ensures
            r.channels().len() == 3,
            forall|i: int|
                0 <= i < 3 ==> #[trigger] r.channels()[i] == inverse_channel(self.channels()[i]),
    {
        let mut ret = self.unravel();
        let mut i: usize = 0;
        while i < 3
            invariant
                ret@.len() == 3,
                self.channels().len() == 3,
                forall|j: int| 0 <= j < i ==> ret@[j] == inverse_channel(self.channels()[j]),
                forall|j: int| i <= j < 3 ==> ret@[j] == self.channels()[j],
            decreases 3 - i,
        {
            if 0xFF - ret[i] > ret[i] {
                ret[i] = 0xFF;
            } else {
                ret[i] = 0x00;
            }
            i = i + 1;
        }
        ColorWrap::Rgb(ret)
    }
}

/// What `inverse` makes of one channel.
pub open spec fn inverse_channel(v: u8) -> u8 {
    if 0xFF - v > v {
        0xFF
    } else {
        0x00
    }
}

/// Black.
pub fn default_color() -> (r: ColorWrap)
    ensures
        r.channels() == seq![0u8, 0u8, 0u8],
{
    let r = ColorWrap::Rgb([0, 0, 0]);
    assert(r.channels() =~= seq![0u8, 0u8, 0u8]);
    r
}

// ---------------------------------------------------------------------------
// Colors as written in the game files
// ---------------------------------------------------------------------------
/// A color as the game files write it. The three number forms keep their
/// numbers as text; each of them is a valid `f64`.
#[derive(Debug)]
pub enum ColorSpec {
    /// `hsv { h s v }`, each number between 0 and 1
    Hsv(String, String, String),
    /// `hsv360 { h s v }`, hue in degrees, saturation and value in percent
    Hsv360(String, String, String),
    /// `rgb { r g b }` or `{ r g b }`, in 0..255 or, where they sum to at most 4, in 0..1
    Rgb(String, String, String),
    /// six hex digits, as in `x2050A0`
    Hex(ColorWrap),
}

pub ghost enum ColorSpecView {
    Hsv(Seq<char>, Seq<char>, Seq<char>),
    Hsv360(Seq<char>, Seq<char>, Seq<char>),
    Rgb(Seq<char>, Seq<char>, Seq<char>),
    Hex(Seq<u8>),
}

impl View for ColorSpec {
    type V = ColorSpecView;

    open spec fn view(&self) -> ColorSpecView {
        match self {
            ColorSpec::Hsv(a, b, c) => ColorSpecView::Hsv(a@, b@, c@),
            ColorSpec::Hsv360(a, b, c) => ColorSpecView::Hsv360(a@, b@, c@),
            ColorSpec::Rgb(a, b, c) => ColorSpecView::Rgb(a@, b@, c@),
            ColorSpec::Hex(w) => ColorSpecView::Hex(w.channels()),
        }
    }
}

/// Characters that separate the words of a color.
pub open spec fn is_color_sep(c: char) -> bool {
    c == '{' || c == '}' || is_ws(c)
}

/// After the first `n` characters of `s`: the non-empty words completed so far and
/// where the current word starts.
pub open spec fn words_run(s: Seq<char>, n: nat) -> (Seq<Seq<char>>, int)
    decreases n,
{
    if n == 0 {
        (Seq::empty(), 0)
    } else {
        let prev = words_run(s, (n - 1) as nat);
        if is_color_sep(s[n - 1]) {
            (
                if prev.1 < n - 1 {
                    prev.0.push(s.subrange(prev.1, n - 1))
                } else {
                    prev.0
                },
                n as int,
            )
        } else {
            prev
        }
    }
}

/// The non-empty words of `s` between braces and whitespace.
pub open spec fn color_words(s: Seq<char>) -> Seq<Seq<char>> {
    let r = words_run(s, s.len());
    if r.1 < s.len() {
        r.0.push(s.subrange(r.1, s.len() as int))
    } else {
        r.0
    }
}

pub open spec fn ascii_lower(c: char) -> char {
    if 'A' <= c && c <= 'Z' {
        (((c as u32) + 32) as u8) as char
    } else {
        c
    }
}

pub open spec fn eq_ignore_case(b: Seq<char>, word: Seq<char>) -> bool {
    b.len() == word.len() && forall|i: int| 0 <= i < b.len() ==> ascii_lower(b[i]) == word[i]
}

pub open spec fn is_sign(c: char) -> bool {
    c == '+' || c == '-'
}

/// Digits with at most one `.` among them, and at least one digit.
pub open spec fn mantissa_ok(m: Seq<char>) -> bool {
    &&& forall|i: int| 0 <= i < m.len() ==> (is_digit(#[trigger] m[i]) || m[i] == '.')
    &&& forall|i: int, j: int| 0 <= i < j < m.len() ==> !(#[trigger] m[i] == '.' && #[trigger] m[j] == '.')
    &&& exists|i: int| 0 <= i < m.len() && #[trigger] is_digit(m[i])
}

/// `x` without a leading sign.
pub open spec fn drop_sign(x: Seq<char>) -> Seq<char> {
    if x.len() > 0 && is_sign(x[0]) {
        x.drop_first()
    } else {
        x
    }
}

/// An optional sign and at least one digit.
pub open spec fn exponent_ok(x: Seq<char>) -> bool {
    let d = drop_sign(x);
    d.len() > 0 && forall|i: int| 0 <= i < d.len() ==> #[trigger] is_digit(d[i])
}

/// Whether `str::parse::<f64>` accepts `s`: an optional sign, then `inf`, `infinity`
/// or `nan` in any case, or decimal digits with an optional point and an optional
/// exponent.
pub open spec fn is_float_text(s: Seq<char>) -> bool {
    let b = drop_sign(s);
    ||| eq_ignore_case(b, seq!['i', 'n', 'f'])
    ||| eq_ignore_case(b, seq!['i', 'n', 'f', 'i', 'n', 'i', 't', 'y'])
    ||| eq_ignore_case(b, seq!['n', 'a', 'n'])
    ||| mantissa_ok(b)
    ||| exists|k: int|
        0 <= k < b.len() && (b[k] == 'e' || b[k] == 'E') && mantissa_ok(b.take(k))
            && exponent_ok(b.skip(k + 1))
}

/// The value of a hex digit, as `char::to_digit(16)` gives it.
pub open spec fn hex_value(c: char) -> Option<u8> {
    if '0' <= c <= '9' {
        Some(((c as u32) - ('0' as u32)) as u8)
    } else if 'a' <= c <= 'f' {
        Some(((c as u32) - ('a' as u32) + 10) as u8)
    } else if 'A' <= c <= 'F' {
        Some(((c as u32) - ('A' as u32) + 10) as u8)
    } else {
        None
    }
}

/// The values of the hex digits of `s`, in order; other characters are skipped.
pub open spec fn hex_digits(s: Seq<char>) -> Seq<u8>
    decreases s.len(),
{
    if s.len() == 0 {
        Seq::empty()
    } else {
        let rest = hex_digits(s.drop_last());
        match hex_value(s.last()) {
            Some(d) => rest.push(d),
            None => rest,
        }
    }
}

/// The three bytes that the first six hex digits of `s` spell, or `None` where it has fewer.
pub open spec fn hex_color(s: Seq<char>) -> Option<Seq<u8>> {
    let d = hex_digits(s);
    if d.len() >= 6 {
        Some(
            seq![
                (16 * d[0] + d[1]) as u8,
                (16 * d[2] + d[3]) as u8,
                (16 * d[4] + d[5]) as u8,
            ],
        )
    } else {
        None
    }
}

pub open spec fn all_floats(a: Seq<char>, b: Seq<char>, c: Seq<char>) -> bool {
    is_float_text(a) && is_float_text(b) && is_float_text(c)
}

/// How a color text is read: `Ok` with the color, or `Err(true)` where a number is
/// malformed and `Err(false)` where the words fit no form.
pub open spec fn spec_color(s: Seq<char>) -> Result<ColorSpecView, bool> {
    let w = color_words(s);
    if w.len() == 4 && w[0] == seq!['h', 's', 'v'] {
        if all_floats(w[1], w[2], w[3]) {
            Ok(ColorSpecView::Hsv(w[1], w[2], w[3]))
        } else {
            Err(true)
        }
    } else if w.len() == 4 && w[0] == seq!['h', 's', 'v', '3', '6', '0'] {
        if all_floats(w[1], w[2], w[3]) {
            Ok(ColorSpecView::Hsv360(w[1], w[2], w[3]))
        } else {
            Err(true)
        }
    } else if w.len() == 4 && w[0] == seq!['r', 'g', 'b'] {
        if all_floats(w[1], w[2], w[3]) {
            Ok(ColorSpecView::Rgb(w[1], w[2], w[3]))
        } else {
            Err(true)
        }
    } else if w.len() == 3 {
        if all_floats(w[0], w[1], w[2]) {
            Ok(ColorSpecView::Rgb(w[0], w[1], w[2]))
        } else {
            Err(true)
        }
    } else if w.len() == 1 {
        match hex_color(w[0]) {
            Some(c) => Ok(ColorSpecView::Hex(c)),
            None => Err(false),
        }
    } else {
        Err(false)
    }
}

/// The words of `v`, as index ranges.
fn color_word_bounds(v: &Vec<char>) -> (r: Vec<(usize, usize)>)
    ensures
        r@.len() == color_words(v@).len(),
        forall|i: int|
            #![trigger r@[i]]
            0 <= i < r@.len() ==> r@[i].0 <= r@[i].1 <= v@.len() && v@.subrange(
                r@[i].0 as int,
                r@[i].1 as int,
            ) == color_words(v@)[i],
{
    let n = v.len();
    let mut out: Vec<(usize, usize)> = Vec::new();
    let mut start: usize = 0;
    let mut i: usize = 0;
    while i < n
        invariant
            n == v@.len(),
            start <= i <= n,
            start as int == words_run(v@, i as nat).1,
            out@.len() == words_run(v@, i as nat).0.len(),
            forall|j: int|
                #![trigger out@[j]]
                0 <= j < out@.len() ==> out@[j].0 <= out@[j].1 <= n && v@.subrange(
                    out@[j].0 as int,
                    out@[j].1 as int,
                ) == words_run(v@, i as nat).0[j],
        decreases n - i,
    {
        let c = v[i];
        let ghost prev = words_run(v@, i as nat);
        let ghost prev_out = out@;
        assert(words_run(v@, (i + 1) as nat) == (if is_color_sep(v@[i as int]) {
            (
                if prev.1 < i {
                    prev.0.push(v@.subrange(prev.1, i as int))
                } else {
                    prev.0
                },
                (i + 1) as int,
            )
        } else {
            prev
        }));
        if c == '{' || c == '}' || is_whitespace(c) {
            if start < i {
                out.push((start, i));
                assert forall|j: int| #![trigger out@[j]] 0 <= j < out@.len() implies out@[j].0
                    <= out@[j].1 <= n && v@.subrange(out@[j].0 as int, out@[j].1 as int)
                    == words_run(v@, (i + 1) as nat).0[j] by {
                    if j < prev_out.len() {
                        assert(out@[j] == prev_out[j]);
                    }
                }
            }
            start = i + 1;
        }
        i = i + 1;
    }
    let ghost fin = words_run(v@, n as nat);
    let ghost prev_out = out@;
    if start < n {
        out.push((start, n));
        assert forall|j: int| #![trigger out@[j]] 0 <= j < out@.len() implies out@[j].0
            <= out@[j].1 <= n && v@.subrange(out@[j].0 as int, out@[j].1 as int)
            == color_words(v@)[j] by {
            if j < prev_out.len() {
                assert(out@[j] == prev_out[j]);
            }
        }
    }
    out
}

fn word_is(v: &Vec<char>, lo: usize, hi: usize, word: &str) -> (r: bool)
    requires
        lo <= hi <= v@.len(),
    ensures
        r == (v@.subrange(lo as int, hi as int) == word@),
{
    let w = to_chars(word);
    if hi - lo != w.len() {
        return false;
    }
    let mut i: usize = 0;
    while i < w.len()
        invariant
            lo <= hi <= v@.len(),
            hi - lo == w@.len(),
            w@ == word@,
            i <= w@.len(),
            forall|j: int| 0 <= j < i ==> v@[lo + j] == w@[j],
        decreases w@.len() - i,
    {
        if v[lo + i] != w[i] {
            assert(v@.subrange(lo as int, hi as int)[i as int] != word@[i as int]);
            return false;
        }
        i = i + 1;
    }
    assert(v@.subrange(lo as int, hi as int) =~= word@);
    true
}

fn lower(c: char) -> (r: char)
    ensures
        r == ascii_lower(c),
{
    if 'A' <= c && c <= 'Z' {
        (((c as u32) + 32) as u8) as char
    } else {
        c
    }
}

fn word_is_ignore_case(v: &Vec<char>, lo: usize, hi: usize, word: &str) -> (r: bool)
    requires
        lo <= hi <= v@.len(),
    ensures
        r == eq_ignore_case(v@.subrange(lo as int, hi as int), word@),
{
    let w = to_chars(word);
    if hi - lo != w.len() {
        return false;
    }
    let mut i: usize = 0;
    while i < w.len()
        invariant
            lo <= hi <= v@.len(),
            hi - lo == w@.len(),
            w@ == word@,
            i <= w@.len(),
            forall|j: int| 0 <= j < i ==> ascii_lower(v@[lo + j]) == w@[j],
        decreases w@.len() - i,
    {
        if lower(v[lo + i]) != w[i] {
            assert(ascii_lower(v@.subrange(lo as int, hi as int)[i as int]) != word@[i as int]);
            return false;
        }
        i = i + 1;
    }
    true
}

/// Whether `v[lo..hi]` is a mantissa.
fn mantissa_check(v: &Vec<char>, lo: usize, hi: usize) -> (r: bool)
    requires
        lo <= hi <= v@.len(),
    ensures
        r == mantissa_ok(v@.subrange(lo as int, hi as int)),
{
    let ghost m = v@.subrange(lo as int, hi as int);
    let mut dot = false;
    let mut digit = false;
    let mut i = lo;
    while i < hi
        invariant
            lo <= i <= hi <= v@.len(),
            m == v@.subrange(lo as int, hi as int),
            forall|j: int| 0 <= j < i - lo ==> (is_digit(#[trigger] m[j]) || m[j] == '.'),
            forall|a: int, b: int| 0 <= a < b < i - lo ==> !(#[trigger] m[a] == '.' && #[trigger] m[b] == '.'),
            dot <==> exists|j: int| 0 <= j < i - lo && #[trigger] m[j] == '.',
            digit <==> exists|j: int| 0 <= j < i - lo && #[trigger] is_digit(m[j]),
        decreases hi - i,
    {
        let c = v[i];
        assert(m[i - lo] == c);
        if c == '.' {
            assert(!is_digit(m[i - lo]));
            if dot {
                let ghost j = choose|j: int| 0 <= j < i - lo && m[j] == '.';
                assert(m[j] == '.' && m[i - lo] == '.');
                return false;
            }
            dot = true;
        } else if '0' <= c && c <= '9' {
            assert(is_digit(m[i - lo]));
            digit = true;
        } else {
            assert(!is_digit(m[i - lo]) && m[i - lo] != '.');
            return false;
        }
        i = i + 1;
    }
    digit
}

/// Whether `v[lo..hi]` is an exponent.
fn exponent_check(v: &Vec<char>, lo: usize, hi: usize) -> (r: bool)
    requires
        lo <= hi <= v@.len(),
    ensures
        r == exponent_ok(v@.subrange(lo as int, hi as int)),
{
    let ghost x = v@.subrange(lo as int, hi as int);
    let start: usize = if lo < hi && (v[lo] == '+' || v[lo] == '-') {
        lo + 1
    } else {
        lo
    };
    let ghost d = v@.subrange(start as int, hi as int);
    assert(d =~= drop_sign(x));
    if start == hi {
        return false;
    }
    let mut i = start;
    while i < hi
        invariant
            lo <= start <= i <= hi <= v@.len(),
            d == v@.subrange(start as int, hi as int),
            x == v@.subrange(lo as int, hi as int),
            d == drop_sign(x),
            forall|j: int| 0 <= j < i - start ==> #[trigger] is_digit(d[j]),
        decreases hi - i,
    {
        let c = v[i];
        if !('0' <= c && c <= '9') {
            assert(d[i - start] == c);
            assert(!is_digit(d[i - start]));
            assert(!exponent_ok(x));
            return false;
        }
        i = i + 1;
    }
    true
}

/// Whether `v[lo..hi]` is accepted by `str::parse::<f64>`.
pub fn float_check(v: &Vec<char>, lo: usize, hi: usize) -> (r: bool)
    requires
        lo <= hi <= v@.len(),
    ensures
        r == is_float_text(v@.subrange(lo as int, hi as int)),
{
    let ghost s = v@.subrange(lo as int, hi as int);
    let start = if lo < hi && (v[lo] == '+' || v[lo] == '-') {
        lo + 1
    } else {
        lo
    };
    let ghost b = v@.subrange(start as int, hi as int);
    assert(b =~= drop_sign(s));
    proof {
        reveal_strlit("inf");
        reveal_strlit("infinity");
        reveal_strlit("nan");
        assert("inf"@ =~= seq!['i', 'n', 'f']);
        assert("infinity"@ =~= seq!['i', 'n', 'f', 'i', 'n', 'i', 't', 'y']);
        assert("nan"@ =~= seq!['n', 'a', 'n']);
    }
    if word_is_ignore_case(v, start, hi, "inf") || word_is_ignore_case(v, start, hi, "infinity")
        || word_is_ignore_case(v, start, hi, "nan") {
        return true;
    }
    // the first exponent marker, if any
    let mut k = start;
    while k < hi && v[k] != 'e' && v[k] != 'E'
        invariant
            start <= k <= hi <= v@.len(),
            b == v@.subrange(start as int, hi as int),
            forall|j: int| 0 <= j < k - start ==> b[j] != 'e' && b[j] != 'E',
        decreases hi - k,
    {
        k = k + 1;
    }
    assert(s == v@.subrange(lo as int, hi as int));
    assert(!eq_ignore_case(b, seq!['i', 'n', 'f']));
    assert(!eq_ignore_case(b, seq!['i', 'n', 'f', 'i', 'n', 'i', 't', 'y']));
    assert(!eq_ignore_case(b, seq!['n', 'a', 'n']));
    if k == hi {
        let r = mantissa_check(v, start, hi);
        proof {
            assert forall|kk: int|
                0 <= kk < b.len() && (b[kk] == 'e' || b[kk] == 'E') implies !(mantissa_ok(
                b.take(kk),
            ) && exponent_ok(b.skip(kk + 1))) by {
                assert(b[kk] != 'e' && b[kk] != 'E');
            }
            assert(r == mantissa_ok(b));
            assert(r == is_float_text(s));
        }
        r
    } else {
        let m = mantissa_check(v, start, k);
        let e = exponent_check(v, k + 1, hi);
        proof {
            assert(b.take(k - start) =~= v@.subrange(start as int, k as int));
            assert(b.skip(k - start + 1) =~= v@.subrange(k + 1, hi as int));
            assert(b[k - start] == 'e' || b[k - start] == 'E');
            // the whole text holds an exponent marker, so it is no mantissa
            assert(!(is_digit(b[k - start]) || b[k - start] == '.'));
            // a marker at any other place puts a marker into the mantissa or the exponent
            assert forall|kk: int|
                0 <= kk < b.len() && (b[kk] == 'e' || b[kk] == 'E') && kk != k - start
                    implies !(mantissa_ok(b.take(kk)) && exponent_ok(b.skip(kk + 1))) by {
                if kk < k - start {
                    assert(b[kk] != 'e' && b[kk] != 'E');
                } else {
                    assert(b.take(kk)[k - start] == b[k - start]);
                }
            }
            if m && e {
                assert(0 <= k - start < b.len() && (b[k - start] == 'e' || b[k - start] == 'E')
                    && mantissa_ok(b.take(k - start)) && exponent_ok(b.skip(k - start + 1)));
            }
            assert(!mantissa_ok(b));
            if !(m && e) {
                assert forall|kk: int|
                    0 <= kk < b.len() && (b[kk] == 'e' || b[kk] == 'E') implies !(mantissa_ok(
                    b.take(kk),
                ) && exponent_ok(b.skip(kk + 1))) by {
                    if kk == k - start {
                        assert(mantissa_ok(b.take(kk)) == m);
                        assert(exponent_ok(b.skip(kk + 1)) == e);
                    }
                }
            }
            assert((m && e) == is_float_text(s));
        }
        m && e
    }
}

pub(crate) fn hex_of(c: char) -> (r: Option<u8>)
    ensures
        r == hex_value(c),
{
    if '0' <= c && c <= '9' {
        Some(((c as u32) - ('0' as u32)) as u8)
    } else if 'a' <= c && c <= 'f' {
        Some(((c as u32) - ('a' as u32) + 10) as u8)
    } else if 'A' <= c && c <= 'F' {
        Some(((c as u32) - ('A' as u32) + 10) as u8)
    } else {
        None
    }
}

proof fn lemma_hex_value_small(c: char)
    ensures
        hex_value(c) matches Some(d) ==> d < 16,
{
}

/// The hex digit values of `v[lo..hi]`.
fn hex_digits_of(v: &Vec<char>, lo: usize, hi: usize) -> (r: Vec<u8>)
    requires
        lo <= hi <= v@.len(),
    ensures
        r@ == hex_digits(v@.subrange(lo as int, hi as int)),
        forall|i: int| 0 <= i < r@.len() ==> #[trigger] r@[i] < 16,
{
    let mut out: Vec<u8> = Vec::new();
    let mut i = lo;
    while i < hi
        invariant
            lo <= i <= hi <= v@.len(),
            out@ == hex_digits(v@.subrange(lo as int, i as int)),
            forall|j: int| 0 <= j < out@.len() ==> #[trigger] out@[j] < 16,
        decreases hi - i,
    {
        assert(v@.subrange(lo as int, i + 1).drop_last() =~= v@.subrange(lo as int, i as int));
        match hex_of(v[i]) {
            Some(d) => {
                proof {
                    lemma_hex_value_small(v@[i as int]);
                }
                out.push(d);
            },
            None => {},
        }
        i = i + 1;
    }
    out
}

impl ColorSpec {
    /// A copy of the color.
    pub fn duplicate(&self) -> (r: ColorSpec)
        ensures
            r@ == self@,
    {
        match self {
            ColorSpec::Hsv(a, b, c) => ColorSpec::Hsv(a.clone(), b.clone(), c.clone()),
            ColorSpec::Hsv360(a, b, c) => ColorSpec::Hsv360(a.clone(), b.clone(), c.clone()),
            ColorSpec::Rgb(a, b, c) => ColorSpec::Rgb(a.clone(), b.clone(), c.clone()),
            ColorSpec::Hex(w) => ColorSpec::Hex(*w),
        }
    }

    /// Reads a color as the game files write it: `hsv{ h s v }`, `hsv360{ h s v }`,
    /// `rgb{ r g b }`, `{ r g b }`, or a word whose first six hex digits are the color.
    ///
    /// Braces and whitespace may stand anywhere between the numbers.
    pub fn parse(inp: &str) -> (r: Result<ColorSpec, VicError>)
        ensures
            r matches Ok(c) ==> spec_color(inp@) == Ok::<ColorSpecView, bool>(c@),
            r matches Err(e) ==> spec_color(inp@) is Err && (spec_color(inp@) == Err::<
                ColorSpecView,
                bool,
            >(true) <==> e is Other),
            r matches Err(e) ==> (e is Other || e is SaveError),
    {
        let v = to_chars(inp);
        let w = color_word_bounds(&v);
        let ghost ws = color_words(v@);
        proof {
            reveal_strlit("hsv");
            reveal_strlit("hsv360");
            reveal_strlit("rgb");
            assert("hsv"@ =~= seq!['h', 's', 'v']);
            assert("hsv360"@ =~= seq!['h', 's', 'v', '3', '6', '0']);
            assert("rgb"@ =~= seq!['r', 'g', 'b']);
        }
        if w.len() == 4 && word_is(&v, w[0].0, w[0].1, "hsv") {
            ColorSpec::three(&v, w[1], w[2], w[3], 0)
        } else if w.len() == 4 && word_is(&v, w[0].0, w[0].1, "hsv360") {
            ColorSpec::three(&v, w[1], w[2], w[3], 1)
        } else if w.len() == 4 && word_is(&v, w[0].0, w[0].1, "rgb") {
            ColorSpec::three(&v, w[1], w[2], w[3], 2)
        } else if w.len() == 3 {
            ColorSpec::three(&v, w[0], w[1], w[2], 2)
        } else if w.len() == 1 {
            let d = hex_digits_of(&v, w[0].0, w[0].1);
            if d.len() >= 6 {
                let c = ColorWrap::Rgb(
                    [0x10 * d[0] + d[1], 0x10 * d[2] + d[3], 0x10 * d[4] + d[5]],
                );
                assert(c.channels() =~= hex_color(ws[0]).unwrap());
                Ok(ColorSpec::Hex(c))
            } else {
                Err(VicError::SaveError)
            }
        } else {
            Err(VicError::SaveError)
        }
    }

    /// The three-number form `form` (0 hsv, 1 hsv360, 2 rgb) over three words of `v`.
    fn three(v: &Vec<char>, a: (usize, usize), b: (usize, usize), c: (usize, usize), form: u8) -> (r:
        Result<ColorSpec, VicError>)
        requires
            a.0 <= a.1 <= v@.len(),
            b.0 <= b.1 <= v@.len(),
            c.0 <= c.1 <= v@.len(),
        ensures
            ({
                let sa = v@.subrange(a.0 as int, a.1 as int);
                let sb = v@.subrange(b.0 as int, b.1 as int);
                let sc = v@.subrange(c.0 as int, c.1 as int);
                &&& r is Ok <==> all_floats(sa, sb, sc)
                &&& r matches Ok(x) ==> x@ == (if form == 0 {
                    ColorSpecView::Hsv(sa, sb, sc)
                } else if form == 1 {
                    ColorSpecView::Hsv360(sa, sb, sc)
                } else {
                    ColorSpecView::Rgb(sa, sb, sc)
                })
                &&& r matches Err(e) ==> e is Other
            }),
    {
        if float_check(v, a.0, a.1) && float_check(v, b.0, b.1) && float_check(v, c.0, c.1) {
            let sa = string_of(v, a.0, a.1);
            let sb = string_of(v, b.0, b.1);
            let sc = string_of(v, c.0, c.1);
            if form == 0 {
                Ok(ColorSpec::Hsv(sa, sb, sc))
            } else if form == 1 {
                Ok(ColorSpec::Hsv360(sa, sb, sc))
            } else {
                Ok(ColorSpec::Rgb(sa, sb, sc))
            }
        } else {
            Err(VicError::Other(String::from_str("invalid float literal")))
        }
    }
}

} // verus!
