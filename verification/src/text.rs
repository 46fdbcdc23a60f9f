//! Character-level helpers shared by the scanners: Unicode whitespace,
//! trimming, decimal parsing and building owned strings from characters.
use vstd::prelude::*;

verus! {

broadcast use vstd::string::group_string_axioms;

/// The Unicode `White_Space` property, which is what `char::is_whitespace` tests.
pub open spec fn is_ws(c: char) -> bool {
    ||| c == '\t'
    ||| c == '\n'
    ||| c == '\u{0B}'
    ||| c == '\u{0C}'
    ||| c == '\r'
    ||| c == ' '
    ||| c == '\u{85}'
    ||| c == '\u{A0}'
    ||| c == '\u{1680}'
    ||| ('\u{2000}' <= c && c <= '\u{200A}')
    ||| c == '\u{2028}'
    ||| c == '\u{2029}'
    ||| c == '\u{202F}'
    ||| c == '\u{205F}'
    ||| c == '\u{3000}'
}

pub fn is_whitespace(c: char) -> (r: bool)
    ensures
        r == is_ws(c),
{
    c == '\t' || c == '\n' || c == '\u{0B}' || c == '\u{0C}' || c == '\r' || c == ' '
        || c == '\u{85}' || c == '\u{A0}' || c == '\u{1680}' || ('\u{2000}' <= c && c
        <= '\u{200A}') || c == '\u{2028}' || c == '\u{2029}' || c == '\u{202F}' || c
        == '\u{205F}' || c == '\u{3000}'
}

/// `s` with leading whitespace removed.
pub open spec fn trim_start(s: Seq<char>) -> Seq<char>
    decreases s.len(),
{
    if s.len() > 0 && is_ws(s[0]) {
        trim_start(s.drop_first())
    } else {
        s
    }
}

/// `s` with trailing whitespace removed.
pub open spec fn trim_end(s: Seq<char>) -> Seq<char>
    decreases s.len(),
{
    if s.len() > 0 && is_ws(s.last()) {
        trim_end(s.drop_last())
    } else {
        s
    }
}

/// `s` with whitespace removed at both ends, as `str::trim` does.
pub open spec fn trim(s: Seq<char>) -> Seq<char> {
    trim_end(trim_start(s))
}

/// `s` with every leading byte order mark removed.
pub open spec fn trim_bom(s: Seq<char>) -> Seq<char>
    decreases s.len(),
{
    if s.len() > 0 && s[0] == '\u{feff}' {
        trim_bom(s.drop_first())
    } else {
        s
    }
}

/// `s` without its first and last character, as a `pop` followed by a `remove(0)` leaves it.
pub open spec fn unquote(s: Seq<char>) -> Seq<char> {
    s.subrange(1, s.len() - 1)
}

/// Appends one character to a string.
#[verifier::external_body]
pub(crate) fn push_char(s: &mut String, c: char)
    ensures
        final(s)@ == old(s)@.push(c),
{
    s.push(c);
}

/// The characters of `s`, in order.
pub fn to_chars(s: &str) -> (r: Vec<char>)
    ensures
        r@ == s@,
{
    let n = s.unicode_len();
    let mut r: Vec<char> = Vec::new();
    let mut i: usize = 0;
    while i < n
        invariant
            n == s@.len(),
            i <= n,
            r@ == s@.take(i as int),
        decreases n - i,
    {
        r.push(s.get_char(i));
        i = i + 1;
        assert(r@ =~= s@.take(i as int));
    }
    assert(r@ =~= s@);
    r
}

/// A string that holds `v[lo..hi]`.
pub fn string_of(v: &Vec<char>, lo: usize, hi: usize) -> (r: String)
    requires
        lo <= hi <= v@.len(),
    ensures
        r@ == v@.subrange(lo as int, hi as int),
{
    let mut r = String::new();
    let mut i = lo;
    while i < hi
        invariant
            lo <= i <= hi <= v@.len(),
            r@ == v@.subrange(lo as int, i as int),
        decreases hi - i,
    {
        push_char(&mut r, v[i]);
        i = i + 1;
        assert(r@ =~= v@.subrange(lo as int, i as int));
    }
    r
}

/// A vector that holds `v[lo..hi]`.
pub fn chars_of(v: &Vec<char>, lo: usize, hi: usize) -> (r: Vec<char>)
    requires
        lo <= hi <= v@.len(),
    ensures
        r@ == v@.subrange(lo as int, hi as int),
{
    let mut r: Vec<char> = Vec::new();
    let mut i = lo;
    while i < hi
        invariant
            lo <= i <= hi <= v@.len(),
            r@ == v@.subrange(lo as int, i as int),
        decreases hi - i,
    {
        r.push(v[i]);
        i = i + 1;
        assert(r@ =~= v@.subrange(lo as int, i as int));
    }
    r
}

/// Bounds `(a, b)` of `trim(v[lo..hi])` inside `v`.
pub fn trim_bounds(v: &Vec<char>, lo: usize, hi: usize) -> (r: (usize, usize))
    requires
        lo <= hi <= v@.len(),
    ensures
        lo <= r.0 <= r.1 <= hi,
        v@.subrange(r.0 as int, r.1 as int) == trim(v@.subrange(lo as int, hi as int)),
{
    let mut a = lo;
    while a < hi && is_whitespace(v[a])
        invariant
            lo <= a <= hi <= v@.len(),
            trim_start(v@.subrange(lo as int, hi as int)) == trim_start(
                v@.subrange(a as int, hi as int),
            ),
        decreases hi - a,
    {
        assert(v@.subrange(a as int, hi as int).drop_first() =~= v@.subrange(
            a + 1,
            hi as int,
        ));
        a = a + 1;
    }
    assert(trim_start(v@.subrange(a as int, hi as int)) == v@.subrange(a as int, hi as int));
    let mut b = hi;
    while b > a && is_whitespace(v[b - 1])
        invariant
            lo <= a <= b <= hi <= v@.len(),
            trim(v@.subrange(lo as int, hi as int)) == trim_end(v@.subrange(a as int, b as int)),
        decreases b - a,
    {
        assert(v@.subrange(a as int, b as int).drop_last() =~= v@.subrange(
            a as int,
            b - 1,
        ));
        b = b - 1;
    }
    (a, b)
}

/// Lengths of byte order marks at the start of `v[lo..hi]`, skipped.
pub fn skip_bom(v: &Vec<char>, lo: usize, hi: usize) -> (r: usize)
    requires
        lo <= hi <= v@.len(),
    ensures
        lo <= r <= hi,
        v@.subrange(r as int, hi as int) == trim_bom(v@.subrange(lo as int, hi as int)),
{
    let mut a = lo;
    while a < hi && v[a] == '\u{feff}'
        invariant
            lo <= a <= hi <= v@.len(),
            trim_bom(v@.subrange(lo as int, hi as int)) == trim_bom(
                v@.subrange(a as int, hi as int),
            ),
        decreases hi - a,
    {
        assert(v@.subrange(a as int, hi as int).drop_first() =~= v@.subrange(
            a + 1,
            hi as int,
        ));
        a = a + 1;
    }
    a
}

/// Whether `c` is an ASCII decimal digit.
pub open spec fn is_digit(c: char) -> bool {
    '0' <= c && c <= '9'
}

pub open spec fn all_digits(s: Seq<char>) -> bool {
    forall|i: int| 0 <= i < s.len() ==> #[trigger] is_digit(s[i])
}

/// The value of a string of decimal digits.
pub open spec fn digits_value(s: Seq<char>) -> nat
    decreases s.len(),
{
    if s.len() == 0 {
        0
    } else {
        digits_value(s.drop_last()) * 10 + ((s.last() as nat) - ('0' as nat)) as nat
    }
}

/// The digits that `str::parse` reads for an unsigned integer: one leading `+`
/// is dropped when something follows it.
pub open spec fn unsigned_digits(s: Seq<char>) -> Seq<char> {
    if s.len() > 1 && s[0] == '+' {
        s.drop_first()
    } else {
        s
    }
}

/// The number that `str::parse` gives for an unsigned integer type with no upper bound:
/// `None` where the text is not a number.
pub open spec fn spec_parse_uint(s: Seq<char>) -> Option<nat> {
    let d = unsigned_digits(s);
    if d.len() > 0 && all_digits(d) {
        Some(digits_value(d))
    } else {
        None
    }
}

/// What `str::parse` gives for an unsigned integer type whose largest value is `max`.
pub open spec fn spec_parse_bounded(s: Seq<char>, max: nat) -> Option<nat> {
    match spec_parse_uint(s) {
        Some(v) => if v <= max {
            Some(v)
        } else {
            None
        },
        None => None,
    }
}

proof fn lemma_digits_value_prefix(s: Seq<char>, i: int)
    requires
        0 <= i <= s.len(),
        all_digits(s),
    ensures
        digits_value(s.take(i)) <= digits_value(s),
    decreases s.len() - i,
{
    if i < s.len() {
        lemma_digits_value_prefix(s, i + 1);
        assert(s.take(i + 1).drop_last() =~= s.take(i));
        assert(is_digit(s[i]));
    } else {
        assert(s.take(i) =~= s);
    }
}

/// Reads an unsigned decimal number no larger than `max` from `v`, as `str::parse` does.
pub fn parse_bounded(v: &Vec<char>, max: u64) -> (r: Option<u64>)
    ensures
        r matches Some(x) ==> spec_parse_bounded(v@, max as nat) == Some(x as nat),
        r is None ==> spec_parse_bounded(v@, max as nat) is None,
{
    let n = v.len();
    let start: usize = if n > 1 && v[0] == '+' {
        1
    } else {
        0
    };
    proof {
        assert(unsigned_digits(v@) =~= v@.subrange(start as int, n as int));
    }
    let ghost d = v@.subrange(start as int, n as int);
    if start == n {
        return None;
    }
    let mut acc: u64 = 0;
    let mut i = start;
    while i < n
        invariant
            start <= i <= n == v@.len(),
            d == v@.subrange(start as int, n as int),
            d == unsigned_digits(v@),
            forall|j: int| start <= j < i ==> is_digit(v@[j]),
            acc as nat == digits_value(d.take(i - start)),
            acc <= max,
        decreases n - i,
    {
        let c = v[i];
        if !('0' <= c && c <= '9') {
            assert(d[i - start] == c);
            assert(!is_digit(d[i - start]));
            assert(!all_digits(d));
            return None;
        }
        let digit: u64 = (c as u32 - '0' as u32) as u64;
        assert(d.take(i + 1 - start).drop_last() =~= d.take(i - start));
        assert(d.take(i + 1 - start).last() == c);
        assert(digits_value(d.take(i + 1 - start)) == acc * 10 + digit);
        if digit > max || acc > (max - digit) / 10 {
            proof {
                if digit <= max {
                    assert(acc * 10 + digit > max) by (nonlinear_arith)
                        requires
                            acc > (max - digit) / 10,
                            digit <= max,
                    ;
                }
                if all_digits(d) {
                    lemma_digits_value_prefix(d, i + 1 - start);
                }
            }
            return None;
        }
        proof {
            assert(acc * 10 + digit <= max) by (nonlinear_arith)
                requires
                    acc <= (max - digit) / 10,
                    digit <= max,
            ;
        }
        acc = acc * 10 + digit;
        i = i + 1;
    }
    assert(d.take(n - start) =~= d);
    Some(acc)
}

/// The pieces of the first `n` characters of `s` that end at a `sep`, the empty ones
/// left out, and where the last piece starts.
pub open spec fn sep_run(s: Seq<char>, sep: char, n: nat) -> (Seq<Seq<char>>, int)
    decreases n,
{
    if n == 0 {
        (Seq::empty(), 0)
    } else {
        let prev = sep_run(s, sep, (n - 1) as nat);
        if s[n - 1] == sep {
            (
                if prev.1 < n - 1 {
                    prev.0.push(s.subrange(prev.1, n - 1))
                } else {
                    prev.0
                },
                n as int,
            )
        } else {
            prev
        }
    }
}

/// The non-empty pieces of `s` between the characters `sep`.
pub open spec fn split_nonempty(s: Seq<char>, sep: char) -> Seq<Seq<char>> {
    let r = sep_run(s, sep, s.len());
    if r.1 < s.len() {
        r.0.push(s.subrange(r.1, s.len() as int))
    } else {
        r.0
    }
}

proof fn lemma_sep_run_start(s: Seq<char>, sep: char, n: nat)
    requires
        n <= s.len(),
    ensures
        0 <= sep_run(s, sep, n).1 <= n,
    decreases n,
{
    if n > 0 {
        lemma_sep_run_start(s, sep, (n - 1) as nat);
    }
}

/// The non-empty pieces of `s` between the characters `sep`.
pub fn split_words(s: &str, sep: char) -> (r: Vec<String>)
    ensures
        r@.map_values(|w: String| w@) == split_nonempty(s@, sep),
{
    let v = to_chars(s);
    let mut out: Vec<String> = Vec::new();
    let mut start: usize = 0;
    let mut i: usize = 0;
    while i < v.len()
        invariant
            v@ == s@,
            i <= v@.len(),
            start as int == sep_run(v@, sep, i as nat).1,
            out@.map_values(|w: String| w@) == sep_run(v@, sep, i as nat).0,
        decreases v@.len() - i,
    {
        proof {
            lemma_sep_run_start(v@, sep, i as nat);
        }
        if v[i] == sep {
            if start < i {
                let ghost before = out@;
                out.push(string_of(&v, start, i));
                assert(out@.map_values(|w: String| w@) =~= before.map_values(|w: String| w@).push(
                    v@.subrange(start as int, i as int),
                ));
            }
            start = i + 1;
        }
        i = i + 1;
    }
    proof {
        lemma_sep_run_start(v@, sep, i as nat);
    }
    if start < v.len() {
        let ghost before = out@;
        out.push(string_of(&v, start, v.len()));
        assert(out@.map_values(|w: String| w@) =~= before.map_values(|w: String| w@).push(
            v@.subrange(start as int, v@.len() as int),
        ));
    }
    out
}

/// The pieces of the first `n` characters of `s` that end at a `sep`, empty ones
/// included, and where the last piece starts.
pub open spec fn piece_run(s: Seq<char>, sep: char, n: nat) -> (Seq<Seq<char>>, int)
    decreases n,
{
    if n == 0 {
        (Seq::empty(), 0)
    } else {
        let prev = piece_run(s, sep, (n - 1) as nat);
        if s[n - 1] == sep {
            (prev.0.push(s.subrange(prev.1, n - 1)), n as int)
        } else {
            prev
        }
    }
}

/// The pieces of `s` between the characters `sep`, as `str::split` gives them.
pub open spec fn split_all(s: Seq<char>, sep: char) -> Seq<Seq<char>> {
    let r = piece_run(s, sep, s.len());
    r.0.push(s.subrange(r.1, s.len() as int))
}

proof fn lemma_piece_run_start(s: Seq<char>, sep: char, n: nat)
    requires
        n <= s.len(),
    ensures
        0 <= piece_run(s, sep, n).1 <= n,
    decreases n,
{
    if n > 0 {
        lemma_piece_run_start(s, sep, (n - 1) as nat);
    }
}

/// The pieces of `s` between the characters `sep`, as `str::split` gives them.
pub fn split_pieces(s: &str, sep: char) -> (r: Vec<String>)
    ensures
        r@.map_values(|w: String| w@) == split_all(s@, sep),
{
    let v = to_chars(s);
    let mut out: Vec<String> = Vec::new();
    let mut start: usize = 0;
    let mut i: usize = 0;
    while i < v.len()
        invariant
            v@ == s@,
            i <= v@.len(),
            start as int == piece_run(v@, sep, i as nat).1,
            out@.map_values(|w: String| w@) == piece_run(v@, sep, i as nat).0,
        decreases v@.len() - i,
    {
        proof {
            lemma_piece_run_start(v@, sep, i as nat);
        }
        if v[i] == sep {
            let ghost before = out@;
            out.push(string_of(&v, start, i));
            assert(out@.map_values(|w: String| w@) =~= before.map_values(|w: String| w@).push(
                v@.subrange(start as int, i as int),
            ));
            start = i + 1;
        }
        i = i + 1;
    }
    proof {
        lemma_piece_run_start(v@, sep, i as nat);
    }
    let ghost before = out@;
    out.push(string_of(&v, start, v.len()));
    assert(out@.map_values(|w: String| w@) =~= before.map_values(|w: String| w@).push(
        v@.subrange(start as int, v@.len() as int),
    ));
    out
}

} // verus!
