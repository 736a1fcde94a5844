//! Character-level text helpers shared by the rest of the library.

use vstd::prelude::*;

verus! {

broadcast use vstd::string::group_string_axioms;

/// Unicode `White_Space` property, as `char::is_whitespace` documents it.
pub open spec fn spec_is_whitespace(c: char) -> bool {
    let u = c as u32;
    ||| 0x09 <= u <= 0x0d
    ||| u == 0x20
    ||| u == 0x85
    ||| u == 0xa0
    ||| u == 0x1680
    ||| 0x2000 <= u <= 0x200a
    ||| u == 0x2028
    ||| u == 0x2029
    ||| u == 0x202f
    ||| u == 0x205f
    ||| u == 0x3000
}

/// Whether `c` is white space in the Unicode sense.
pub fn is_whitespace(c: char) -> (r: bool)
    ensures
        r == spec_is_whitespace(c),
{
    let u = c as u32;
    (0x09 <= u && u <= 0x0d) || u == 0x20 || u == 0x85 || u == 0xa0 || u == 0x1680 || (0x2000
        <= u && u <= 0x200a) || u == 0x2028 || u == 0x2029 || u == 0x202f || u == 0x205f || u
        == 0x3000
}

/// The characters of `s`, in order.
pub fn chars_of(s: &str) -> (v: Vec<char>)
    ensures
        v@ == s@,
{
    let mut v: Vec<char> = Vec::new();
    for c in it: s.chars()
        invariant
            v@ == it.seq().take(it.index() as int),
            it.seq() == s@,
    {
        v.push(c);
    }
    v
}


/// Appends `c` to `s`.
///
/// Trusted: `String::push` from std, which std documents as appending the
/// character to the end of the string.
#[verifier::external_body]
pub(crate) fn push_char(s: &mut String, c: char)
    ensures
        final(s)@ == old(s)@.push(c),
{
    s.push(c);
}

/// The string whose characters are `chars[from..to]`.
pub fn string_from_char_range(chars: &[char], from: usize, to: usize) -> (s: String)
    requires
        from <= to <= chars@.len(),
    ensures
        s@ == chars@.subrange(from as int, to as int),
{
    let mut s = String::new();
    for i in from..to
        invariant
            to <= chars@.len(),
            s@ == chars@.subrange(from as int, i as int),
    {
        push_char(&mut s, chars[i]);
        assert(chars@.subrange(from as int, i + 1) == chars@.subrange(from as int, i as int).push(chars@[i as int]));
    }
    s
}

/// The string whose characters are `chars`.
pub fn string_from_chars(chars: &[char]) -> (s: String)
    ensures
        s@ == chars@,
{
    let mut s = String::new();
    for i in 0..chars.len()
        invariant
            s@ == chars@.take(i as int),
    {
        push_char(&mut s, chars[i]);
        assert(chars@.take(i + 1) == chars@.take(i as int).push(chars@[i as int]));
    }
    assert(chars@.take(chars@.len() as int) == chars@);
    s
}

/// Appends the characters of `t` to `s`.
pub fn push_str(s: &mut String, t: &str)
    ensures
        final(s)@ == old(s)@ + t@,
{
    s.append(t);
}


/// Index of the first `'\n'` in `s`, or its length when there is none.
pub open spec fn first_newline(s: Seq<char>) -> int
    decreases s.len(),
{
    if s.len() == 0 {
        0
    } else if s[0] == '\n' {
        0
    } else {
        1 + first_newline(s.drop_first())
    }
}

/// A line without one trailing `'\r'`.
pub open spec fn strip_cr(line: Seq<char>) -> Seq<char> {
    if line.len() > 0 && line.last() == '\r' {
        line.drop_last()
    } else {
        line
    }
}

/// The lines of `s` as `str::lines` documents them: split at `"\n"` or
/// `"\r\n"`, without the terminators; a final terminator adds no empty line,
/// and a `'\r'` that ends the text without a `'\n'` stays.
pub open spec fn spec_lines(s: Seq<char>) -> Seq<Seq<char>>
    decreases s.len(),
{
    if s.len() == 0 {
        seq![]
    } else {
        let i = first_newline(s);
        proof {
            lemma_first_newline_bounds(s);
        }
        if i < s.len() {
            seq![strip_cr(s.take(i))] + spec_lines(s.skip(i + 1))
        } else {
            seq![s]
        }
    }
}

pub proof fn lemma_first_newline_bounds(s: Seq<char>)
    ensures
        0 <= first_newline(s) <= s.len(),
        forall|j: int| 0 <= j < first_newline(s) ==> s[j] != '\n',
        first_newline(s) < s.len() ==> s[first_newline(s)] == '\n',
    decreases s.len(),
{
    if s.len() > 0 && s[0] != '\n' {
        lemma_first_newline_bounds(s.drop_first());
        assert forall|j: int| 0 <= j < first_newline(s) implies s[j] != '\n' by {
            if j > 0 {
                assert(s[j] == s.drop_first()[j - 1]);
            }
        }
    }
}

proof fn lemma_first_newline_at(s: Seq<char>, k: int)
    requires
        0 <= k <= s.len(),
        forall|j: int| 0 <= j < k ==> s[j] != '\n',
        k == s.len() || s[k] == '\n',
    ensures
        first_newline(s) == k,
    decreases s.len(),
{
    if s.len() > 0 && k > 0 {
        lemma_first_newline_at(s.drop_first(), k - 1);
    }
}

/// No line of a text holds a line feed.
pub proof fn lemma_lines_hold_no_newline(s: Seq<char>)
    ensures
        forall|i: int, j: int|
            0 <= i < spec_lines(s).len() && 0 <= j < spec_lines(s)[i].len() ==> spec_lines(s)[i][j]
                != '\n',
    decreases s.len(),
{
    if s.len() > 0 {
        lemma_first_newline_bounds(s);
        let k = first_newline(s);
        if k < s.len() {
            lemma_lines_hold_no_newline(s.skip(k + 1));
            let first = strip_cr(s.take(k));
            let rest = spec_lines(s.skip(k + 1));
            assert forall|i: int, j: int|
                0 <= i < spec_lines(s).len() && 0 <= j < spec_lines(s)[i].len() implies spec_lines(
                s,
            )[i][j] != '\n' by {
                if i == 0 {
                    assert(spec_lines(s)[0] == first);
                    assert(first[j] == s[j]);
                } else {
                    assert(spec_lines(s)[i] == rest[i - 1]);
                }
            }
        }
    }
}

/// Splits `s` into its lines; see [`spec_lines`].
pub fn lines_of(s: &str) -> (lines: Vec<String>)
    ensures
        lines.deep_view() == spec_lines(s@),
{
    let chars = chars_of(s);
    let ghost sv = s@;
    let mut lines: Vec<String> = Vec::new();
    let mut current: Vec<char> = Vec::new();
    assert(current@ + sv.skip(0) =~= sv);
    for i in 0..chars.len()
        invariant
            chars@ == sv,
            forall|j: int| 0 <= j < current@.len() ==> current@[j] != '\n',
            spec_lines(sv) == lines.deep_view() + spec_lines(current@ + sv.skip(i as int)),
    {
        let ghost rest = sv.skip(i as int);
        let ghost joined = current@ + rest;
        if chars[i] == '\n' {
            proof {
                lemma_first_newline_at(joined, current@.len() as int);
            }
            assert(joined.take(current@.len() as int) =~= current@);
            assert(joined.skip(current@.len() as int + 1) =~= sv.skip(i + 1));
            let mut end = current.len();
            if end > 0 && current[end - 1] == '\r' {
                end = end - 1;
            }
            let line = string_from_char_range(current.as_slice(), 0, end);
            assert(current@.subrange(0, end as int) =~= strip_cr(current@));
            let ghost before = lines.deep_view();
            lines.push(line);
            assert(lines.deep_view() =~= before.push(strip_cr(current@)));
            assert(spec_lines(joined) =~= seq![strip_cr(current@)] + spec_lines(sv.skip(i + 1)));
            current = Vec::new();
            assert(current@ + sv.skip(i + 1) =~= sv.skip(i + 1));
        } else {
            current.push(chars[i]);
            assert(current@ + sv.skip(i + 1) =~= joined);
        }
    }
    assert(sv.skip(chars.len() as int) =~= Seq::<char>::empty());
    assert(current@ + sv.skip(chars.len() as int) =~= current@);
    if current.len() > 0 {
        proof {
            lemma_first_newline_at(current@, current@.len() as int);
        }
        let ghost before = lines.deep_view();
        lines.push(string_from_chars(current.as_slice()));
        assert(lines.deep_view() =~= before.push(current@));
    }
    lines
}


/// Number of leading white-space characters of `s`.
pub open spec fn leading_ws(s: Seq<char>) -> int
    decreases s.len(),
{
    if s.len() == 0 {
        0
    } else if spec_is_whitespace(s[0]) {
        1 + leading_ws(s.drop_first())
    } else {
        0
    }
}

/// Number of trailing white-space characters of `s`.
pub open spec fn trailing_ws(s: Seq<char>) -> int
    decreases s.len(),
{
    if s.len() == 0 {
        0
    } else if spec_is_whitespace(s.last()) {
        1 + trailing_ws(s.drop_last())
    } else {
        0
    }
}

/// `s` without leading and trailing white space, as `str::trim` documents it.
pub open spec fn spec_trim(s: Seq<char>) -> Seq<char> {
    let a = leading_ws(s);
    if a >= s.len() {
        seq![]
    } else {
        s.subrange(a, s.len() - trailing_ws(s))
    }
}

proof fn lemma_leading_ws_at(s: Seq<char>, k: int)
    requires
        0 <= k <= s.len(),
        forall|j: int| 0 <= j < k ==> spec_is_whitespace(s[j]),
        k == s.len() || !spec_is_whitespace(s[k]),
    ensures
        leading_ws(s) == k,
    decreases s.len(),
{
    if s.len() > 0 && k > 0 {
        lemma_leading_ws_at(s.drop_first(), k - 1);
    }
}

proof fn lemma_trailing_ws_at(s: Seq<char>, k: int)
    requires
        0 <= k <= s.len(),
        forall|j: int| s.len() - k <= j < s.len() ==> spec_is_whitespace(s[j]),
        k == s.len() || !spec_is_whitespace(s[s.len() - k - 1]),
    ensures
        trailing_ws(s) == k,
    decreases s.len(),
{
    if s.len() > 0 && k > 0 {
        lemma_trailing_ws_at(s.drop_last(), k - 1);
    }
}

/// The characters of `s` without leading and trailing white space.
pub fn trim_chars(s: &str) -> (t: Vec<char>)
    ensures
        t@ == spec_trim(s@),
{
    let chars = chars_of(s);
    let n = chars.len();
    let mut a: usize = 0;
    while a < n && is_whitespace(chars[a])
        invariant
            a <= n,
            n == chars@.len(),
            forall|j: int| 0 <= j < a ==> spec_is_whitespace(chars@[j]),
        decreases n - a,
    {
        a = a + 1;
    }
    proof {
        lemma_leading_ws_at(chars@, a as int);
    }
    if a == n {
        return Vec::new();
    }
    let mut b: usize = n;
    while b > a && is_whitespace(chars[b - 1])
        invariant
            a < n,
            a <= b <= n,
            n == chars@.len(),
            !spec_is_whitespace(chars@[a as int]),
            forall|j: int| b <= j < n ==> spec_is_whitespace(chars@[j]),
        decreases b,
    {
        b = b - 1;
    }
    proof {
        lemma_trailing_ws_at(chars@, n - b);
    }
    let mut t: Vec<char> = Vec::new();
    for i in a..b
        invariant
            b <= n,
            n == chars@.len(),
            t@ == chars@.subrange(a as int, i as int),
    {
        t.push(chars[i]);
        assert(t@ =~= chars@.subrange(a as int, i + 1));
    }
    t
}

/// `s` without leading and trailing white space.
pub fn trim(s: &str) -> (t: String)
    ensures
        t@ == spec_trim(s@),
{
    let chars = trim_chars(s);
    string_from_chars(chars.as_slice())
}


/// The decimal digit `d` as a character.
pub open spec fn digit_char(d: nat) -> char {
    if d == 0 {
        '0'
    } else if d == 1 {
        '1'
    } else if d == 2 {
        '2'
    } else if d == 3 {
        '3'
    } else if d == 4 {
        '4'
    } else if d == 5 {
        '5'
    } else if d == 6 {
        '6'
    } else if d == 7 {
        '7'
    } else if d == 8 {
        '8'
    } else {
        '9'
    }
}

/// The decimal numeral of `n`, without leading zeros.
pub open spec fn decimal(n: nat) -> Seq<char>
    decreases n,
{
    if n < 10 {
        seq![digit_char(n)]
    } else {
        decimal(n / 10) + seq![digit_char(n % 10)]
    }
}

fn digit(d: u64) -> (c: char)
    requires
        d < 10,
    ensures
        c == digit_char(d as nat),
{
    if d == 0 {
        '0'
    } else if d == 1 {
        '1'
    } else if d == 2 {
        '2'
    } else if d == 3 {
        '3'
    } else if d == 4 {
        '4'
    } else if d == 5 {
        '5'
    } else if d == 6 {
        '6'
    } else if d == 7 {
        '7'
    } else if d == 8 {
        '8'
    } else {
        '9'
    }
}

/// Appends the decimal numeral of `n`.
pub fn push_decimal(s: &mut String, n: u64)
    ensures
        final(s)@ == old(s)@ + decimal(n as nat),
    decreases n,
{
    if n < 10 {
        push_char(s, digit(n));
        assert(decimal(n as nat) == seq![digit_char(n as nat)]);
    } else {
        push_decimal(s, n / 10);
        push_char(s, digit(n % 10));
        assert(decimal(n as nat) == decimal((n / 10) as nat) + seq![digit_char((n % 10) as nat)]);
    }
}

/// The decimal numeral of `n`.
pub fn decimal_string(n: u64) -> (s: String)
    ensures
        s@ == decimal(n as nat),
{
    let mut s = String::new();
    push_decimal(&mut s, n);
    assert(s@ =~= decimal(n as nat));
    s
}

/// `s` right-aligned in `width` characters, padded on the left with `fill`.
pub open spec fn pad_left(s: Seq<char>, width: nat, fill: char) -> Seq<char> {
    if s.len() >= width {
        s
    } else {
        Seq::new((width - s.len()) as nat, |i: int| fill) + s
    }
}

/// `s` left-aligned in `width` characters, padded on the right with `fill`.
pub open spec fn pad_right(s: Seq<char>, width: nat, fill: char) -> Seq<char> {
    if s.len() >= width {
        s
    } else {
        s + Seq::new((width - s.len()) as nat, |i: int| fill)
    }
}

/// Appends `count` copies of `fill`.
fn push_fill(s: &mut String, count: usize, fill: char)
    ensures
        final(s)@ == old(s)@ + Seq::new(count as nat, |i: int| fill),
{
    let ghost s0 = s@;
    for i in 0..count
        invariant
            s@ == s0 + Seq::new(i as nat, |k: int| fill),
    {
        push_char(s, fill);
        assert(s@ =~= s0 + Seq::new((i + 1) as nat, |k: int| fill));
    }
}

/// Appends `t` right-aligned in `width` characters.
pub fn push_padded_left(s: &mut String, t: &str, width: usize, fill: char)
    ensures
        final(s)@ == old(s)@ + pad_left(t@, width as nat, fill),
{
    let n = t.unicode_len();
    if n < width {
        push_fill(s, width - n, fill);
    }
    push_str(s, t);
    assert(s@ =~= old(s)@ + pad_left(t@, width as nat, fill));
}

/// Appends `t` left-aligned in `width` characters.
pub fn push_padded_right(s: &mut String, t: &str, width: usize, fill: char)
    ensures
        final(s)@ == old(s)@ + pad_right(t@, width as nat, fill),
{
    let n = t.unicode_len();
    push_str(s, t);
    if n < width {
        push_fill(s, width - n, fill);
    }
    assert(s@ =~= old(s)@ + pad_right(t@, width as nat, fill));
}

/// Whether two strings hold the same characters.
pub fn str_equal(a: &str, b: &str) -> (r: bool)
    ensures
        r == (a@ == b@),
{
    let x = chars_of(a);
    let y = chars_of(b);
    if x.len() != y.len() {
        return false;
    }
    for i in 0..x.len()
        invariant
            x@ == a@,
            y@ == b@,
            x@.len() == y@.len(),
            forall|j: int| 0 <= j < i ==> x@[j] == y@[j],
    {
        if x[i] != y[i] {
            return false;
        }
    }
    assert(x@ =~= y@);
    true
}

} // verus!
