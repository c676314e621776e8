//! Character-level text model shared by the rest of the library.
//!
//! Strings are modelled by their `Seq<char>` view. The functions here give
//! exact specifications for the handful of `str` operations that the library
//! relies on (trimming, splitting, line breaking, substring search, ASCII case
//! folding, number formatting) together with verified implementations over
//! `Vec<char>`.
use vstd::prelude::*;

verus! {

// ───────────────────────── character classes ─────────────────────────

/// Unicode `White_Space`, as used by `char::is_whitespace`.
pub open spec fn is_ws(c: char) -> bool {
    ||| c == '\t' || c == '\n' || c == '\u{0B}' || c == '\u{0C}' || c == '\r'
    ||| c == ' ' || c == '\u{85}' || c == '\u{A0}' || c == '\u{1680}'
    ||| ('\u{2000}' <= c && c <= '\u{200A}')
    ||| c == '\u{2028}' || c == '\u{2029}' || c == '\u{202F}' || c == '\u{205F}'
    ||| c == '\u{3000}'
}

pub fn char_is_ws(c: char) -> (r: bool)
    ensures
        r == is_ws(c),
{
    c == '\t' || c == '\n' || c == '\u{0B}' || c == '\u{0C}' || c == '\r' || c == ' ' || c
        == '\u{85}' || c == '\u{A0}' || c == '\u{1680}' || ('\u{2000}' <= c && c <= '\u{200A}')
        || c == '\u{2028}' || c == '\u{2029}' || c == '\u{202F}' || c == '\u{205F}' || c
        == '\u{3000}'
}

pub open spec fn is_ascii_upper(c: char) -> bool {
    'A' <= c && c <= 'Z'
}

pub open spec fn is_ascii_lower(c: char) -> bool {
    'a' <= c && c <= 'z'
}

pub open spec fn is_ascii_digit(c: char) -> bool {
    '0' <= c && c <= '9'
}

pub open spec fn is_ascii_alnum(c: char) -> bool {
    is_ascii_upper(c) || is_ascii_lower(c) || is_ascii_digit(c)
}

/// `char::to_ascii_lowercase`.
pub open spec fn ascii_lower(c: char) -> char {
    if is_ascii_upper(c) {
        ((c as u32) + 32) as char
    } else {
        c
    }
}

pub fn char_ascii_lower(c: char) -> (r: char)
    ensures
        r == ascii_lower(c),
{
    if 'A' <= c && c <= 'Z' {
        let b: u8 = c as u8;
        assert(b as u32 == c as u32) by {
            assert((c as u32) < 256);
        }
        let r = (b + 32) as char;
        assert(r as u32 == (c as u32) + 32);
        r
    } else {
        c
    }
}

/// Lowercase every ASCII letter (`str::to_ascii_lowercase`).
pub open spec fn ascii_lower_seq(s: Seq<char>) -> Seq<char> {
    s.map_values(|c: char| ascii_lower(c))
}

/// `str::eq_ignore_ascii_case`.
pub open spec fn eq_ignore_ascii_case(a: Seq<char>, b: Seq<char>) -> bool {
    ascii_lower_seq(a) == ascii_lower_seq(b)
}

/// Number of bytes that `c` takes in UTF-8.
pub open spec fn char_utf8_len(c: char) -> nat {
    if (c as u32) < 0x80 {
        1
    } else if (c as u32) < 0x800 {
        2
    } else if (c as u32) < 0x10000 {
        3
    } else {
        4
    }
}

/// Byte length of the UTF-8 encoding of `s` (`str::len`).
pub open spec fn utf8_len(s: Seq<char>) -> nat
    decreases s.len(),
{
    if s.len() == 0 {
        0
    } else {
        utf8_len(s.drop_last()) + char_utf8_len(s.last())
    }
}

// ───────────────────────── trimming ─────────────────────────

pub open spec fn trim_start(s: Seq<char>) -> Seq<char>
    decreases s.len(),
{
    if s.len() > 0 && is_ws(s[0]) {
        trim_start(s.drop_first())
    } else {
        s
    }
}

pub open spec fn trim_end(s: Seq<char>) -> Seq<char>
    decreases s.len(),
{
    if s.len() > 0 && is_ws(s.last()) {
        trim_end(s.drop_last())
    } else {
        s
    }
}

/// `str::trim`: drop leading and trailing whitespace.
pub open spec fn trim(s: Seq<char>) -> Seq<char> {
    trim_end(trim_start(s))
}

// ───────────────────────── splitting and joining ─────────────────────────

/// Pieces of `s` between the positions flagged in `m` (`str::split` with a
/// predicate). Always at least one piece; separators are dropped.
pub open spec fn split_marked(s: Seq<char>, m: Seq<bool>) -> Seq<Seq<char>>
    decreases s.len(),
{
    if s.len() == 0 || m.len() == 0 {
        seq![Seq::<char>::empty()]
    } else {
        let prev = split_marked(s.drop_last(), m.drop_last());
        if m.last() {
            prev.push(Seq::<char>::empty())
        } else {
            prev.update(prev.len() - 1, prev.last().push(s.last()))
        }
    }
}

/// Flags the positions of `c` in `s`.
pub open spec fn marks_char(s: Seq<char>, c: char) -> Seq<bool> {
    Seq::new(s.len(), |i: int| s[i] == c)
}

/// Flags the whitespace positions of `s`.
pub open spec fn marks_ws(s: Seq<char>) -> Seq<bool> {
    Seq::new(s.len(), |i: int| is_ws(s[i]))
}

/// `str::split(c)` for a single separator character.
pub open spec fn split_char(s: Seq<char>, c: char) -> Seq<Seq<char>> {
    split_marked(s, marks_char(s, c))
}

/// The non-empty pieces, in order.
pub open spec fn keep_nonempty(ps: Seq<Seq<char>>) -> Seq<Seq<char>>
    decreases ps.len(),
{
    if ps.len() == 0 {
        ps
    } else if ps.last().len() == 0 {
        keep_nonempty(ps.drop_last())
    } else {
        keep_nonempty(ps.drop_last()).push(ps.last())
    }
}

/// `str::split_whitespace`.
pub open spec fn split_ws(s: Seq<char>) -> Seq<Seq<char>> {
    keep_nonempty(split_marked(s, marks_ws(s)))
}

pub open spec fn strip_cr(l: Seq<char>) -> Seq<char> {
    if l.len() > 0 && l.last() == '\r' {
        l.drop_last()
    } else {
        l
    }
}

pub open spec fn strip_cr_each(ps: Seq<Seq<char>>) -> Seq<Seq<char>> {
    Seq::new(ps.len(), |i: int| strip_cr(ps[i]))
}

/// `str::lines`: split at `\n`, drop a `\r` before each `\n`, and drop the
/// empty remainder after a final line break.
pub open spec fn lines(s: Seq<char>) -> Seq<Seq<char>> {
    let parts = split_char(s, '\n');
    let init = strip_cr_each(parts.take(parts.len() - 1));
    if parts.last().len() == 0 {
        init
    } else {
        init.push(parts.last())
    }
}

/// `[..].join(sep)`.
pub open spec fn join(ps: Seq<Seq<char>>, sep: Seq<char>) -> Seq<char>
    decreases ps.len(),
{
    if ps.len() == 0 {
        Seq::empty()
    } else if ps.len() == 1 {
        ps[0]
    } else {
        join(ps.drop_last(), sep) + sep + ps.last()
    }
}

// ───────────────────────── searching ─────────────────────────

pub open spec fn matches_at(h: Seq<char>, n: Seq<char>, i: int) -> bool {
    0 <= i && i + n.len() <= h.len() && h.subrange(i, i + n.len()) == n
}

/// `str::contains` for a string needle.
pub open spec fn contains(h: Seq<char>, n: Seq<char>) -> bool {
    exists|i: int| matches_at(h, n, i)
}

pub open spec fn starts_with(s: Seq<char>, p: Seq<char>) -> bool {
    p.len() <= s.len() && s.take(p.len() as int) == p
}

pub open spec fn ends_with(s: Seq<char>, p: Seq<char>) -> bool {
    p.len() <= s.len() && s.skip(s.len() - p.len()) == p
}

// ───────────────────────── numbers ─────────────────────────

pub open spec fn digit_char(d: nat) -> char {
    if d < 10 {
        ((d + 48) as u32) as char
    } else {
        ((d + 87) as u32) as char
    }
}

/// Decimal digits of `n` (`format!("{}", n)` for unsigned integers).
pub open spec fn dec(n: nat) -> Seq<char>
    decreases n,
{
    if n < 10 {
        seq![digit_char(n)]
    } else {
        dec(n / 10).push(digit_char(n % 10))
    }
}

/// Lower-case hexadecimal digits of `n` without padding (`{:x}`).
pub open spec fn hex(n: nat) -> Seq<char>
    decreases n,
{
    if n < 16 {
        seq![digit_char(n)]
    } else {
        hex(n / 16).push(digit_char(n % 16))
    }
}

/// The last `w` lower-case hexadecimal digits of `n`, zero padded (`{:0w$x}`
/// for values below `16^w`).
pub open spec fn hex_pad(n: nat, w: nat) -> Seq<char>
    decreases w,
{
    if w == 0 {
        Seq::empty()
    } else {
        hex_pad(n / 16, (w - 1) as nat).push(digit_char(n % 16))
    }
}


// ───────────────────────── outside calls ─────────────────────────

/// What `str::to_lowercase` returns for a string (Unicode lowercase mapping).
pub uninterp spec fn lowercase(s: Seq<char>) -> Seq<char>;

/// Is every character of `s` ASCII?
pub open spec fn all_ascii(s: Seq<char>) -> bool {
    forall|i: int| 0 <= i < s.len() ==> (s[i] as u32) < 128
}

/// The lowercase form of a text as `str::to_lowercase` gives it: the ASCII
/// mapping for ASCII text, and the named result otherwise.
pub open spec fn lower_text(s: Seq<char>) -> Seq<char> {
    if all_ascii(s) {
        ascii_lower_seq(s)
    } else {
        lowercase(s)
    }
}

/// `str::to_lowercase`. The result is named; of ASCII text the
/// documentation's Unicode lowercase mapping is the ASCII one (`A`–`Z` to
/// `a`–`z`, everything else kept), so empty text stays empty.
#[verifier::external_body]
pub(crate) fn to_lowercase(s: &str) -> (r: String)
    ensures
        r@ == lowercase(s@),
        all_ascii(s@) ==> r@ == ascii_lower_seq(s@),
{
    s.to_lowercase()
}

/// What `char::is_alphanumeric` says of a character (Unicode Alphabetic or
/// Numeric property).
pub uninterp spec fn alphanumeric(c: char) -> bool;

/// `char::is_alphanumeric`; the contract names the result.
#[verifier::external_body]
pub(crate) fn char_is_alphanumeric(c: char) -> (r: bool)
    ensures
        r == alphanumeric(c),
{
    c.is_alphanumeric()
}

/// What `String::from_utf8_lossy` decodes a byte string to.
pub uninterp spec fn utf8_lossy(b: Seq<u8>) -> Seq<char>;

/// `String::from_utf8_lossy`: the result is named; on valid UTF-8 input the
/// documentation promises that no replacement happens, so the result is the
/// plain decoding.
#[verifier::external_body]
pub(crate) fn from_utf8_lossy(b: &[u8]) -> (r: String)
    ensures
        r@ == utf8_lossy(b@),
        vstd::utf8::valid_utf8(b@) ==> r@ == vstd::utf8::decode_utf8(b@),
{
    String::from_utf8_lossy(b).into_owned()
}

/// `String::push`.
#[verifier::external_body]
pub(crate) fn push_char(s: &mut String, c: char)
    ensures
        final(s)@ == old(s)@.push(c),
{
    s.push(c);
}

// ───────────────────────── conversions ─────────────────────────

/// The views of a sequence of character vectors.
pub open spec fn views(v: Seq<Vec<char>>) -> Seq<Seq<char>> {
    v.map_values(|x: Vec<char>| x@)
}

/// The views of a sequence of strings.
pub open spec fn str_views(v: Seq<String>) -> Seq<Seq<char>> {
    v.map_values(|x: String| x@)
}

/// The characters of `s`, in order.
pub fn chars_of(s: &str) -> (v: Vec<char>)
    ensures
        v@ == s@,
{
    let mut v: Vec<char> = Vec::new();
    for c in it: s.chars()
        invariant
            v@ == it.seq().take(it.index() as int),
    {
        v.push(c);
    }
    v
}

/// A `String` holding exactly the characters of `v`.
pub fn string_of(v: &[char]) -> (r: String)
    ensures
        r@ == v@,
{
    let mut r = String::new();
    for i in 0..v.len()
        invariant
            r@ == v@.take(i as int),
    {
        push_char(&mut r, v[i]);
        assert(v@.take(i + 1) == v@.take(i as int).push(v@[i as int]));
    }
    assert(v@.take(v@.len() as int) == v@);
    r
}

/// Strings of each character vector.
pub fn strings_of(v: &Vec<Vec<char>>) -> (r: Vec<String>)
    ensures
        str_views(r@) == views(v@),
{
    let mut r: Vec<String> = Vec::new();
    for i in 0..v.len()
        invariant
            str_views(r@) == views(v@.take(i as int)),
    {
        let s = string_of(v[i].as_slice());
        r.push(s);
        assert(views(v@.take(i + 1)) == views(v@.take(i as int)).push(v@[i as int]@));
        assert(str_views(r@) == views(v@.take(i + 1)));
    }
    assert(v@.take(v@.len() as int) == v@);
    r
}

/// The lowercase form of `v` (see [`lower_text`]).
pub fn lower_chars(v: &[char]) -> (r: Vec<char>)
    ensures
        r@ == lower_text(v@),
{
    let s = string_of(v);
    let l = to_lowercase(s.as_str());
    chars_of(l.as_str())
}

/// `to_ascii_lowercase` over characters.
pub fn ascii_lower_chars(v: &[char]) -> (r: Vec<char>)
    ensures
        r@ == ascii_lower_seq(v@),
{
    let mut r: Vec<char> = Vec::new();
    for i in 0..v.len()
        invariant
            r@ == ascii_lower_seq(v@.take(i as int)),
    {
        r.push(char_ascii_lower(v[i]));
        assert(ascii_lower_seq(v@.take(i + 1)) == ascii_lower_seq(v@.take(i as int)).push(
            ascii_lower(v@[i as int]),
        ));
    }
    assert(v@.take(v@.len() as int) == v@);
    r
}

/// A copy of `v[lo..hi]`.
pub fn copy_range(v: &[char], lo: usize, hi: usize) -> (r: Vec<char>)
    requires
        lo <= hi <= v@.len(),
    ensures
        r@ == v@.subrange(lo as int, hi as int),
{
    let mut r: Vec<char> = Vec::new();
    let mut i = lo;
    while i < hi
        invariant
            lo <= i <= hi <= v@.len(),
            r@ == v@.subrange(lo as int, i as int),
        decreases hi - i,
    {
        r.push(v[i]);
        i = i + 1;
        assert(r@ == v@.subrange(lo as int, i as int));
    }
    r
}

/// A copy of all of `v`.
pub fn copy_all(v: &[char]) -> (r: Vec<char>)
    ensures
        r@ == v@,
{
    let r = copy_range(v, 0, v.len());
    assert(r@ =~= v@);
    r
}

/// `a + b`.
pub fn concat(a: &[char], b: &[char]) -> (r: Vec<char>)
    ensures
        r@ == a@ + b@,
{
    let mut r: Vec<char> = Vec::new();
    for i in 0..a.len()
        invariant
            r@ == a@.take(i as int),
    {
        r.push(a[i]);
        assert(a@.take(i + 1) == a@.take(i as int).push(a@[i as int]));
    }
    assert(a@.take(a@.len() as int) == a@);
    for j in 0..b.len()
        invariant
            r@ == a@ + b@.take(j as int),
    {
        r.push(b[j]);
        assert(b@.take(j + 1) == b@.take(j as int).push(b@[j as int]));
        assert(a@ + b@.take(j + 1) == (a@ + b@.take(j as int)).push(b@[j as int]));
    }
    assert(b@.take(b@.len() as int) == b@);
    r
}

/// Append `b` to `r`.
pub fn append(r: &mut Vec<char>, b: &[char])
    ensures
        final(r)@ == old(r)@ + b@,
{
    let ghost start = r@;
    for j in 0..b.len()
        invariant
            r@ == start + b@.take(j as int),
    {
        r.push(b[j]);
        assert(b@.take(j + 1) == b@.take(j as int).push(b@[j as int]));
        assert(start + b@.take(j + 1) == (start + b@.take(j as int)).push(b@[j as int]));
    }
    assert(b@.take(b@.len() as int) == b@);
}

// ───────────────────────── comparisons ─────────────────────────

pub fn eq(a: &[char], b: &[char]) -> (r: bool)
    ensures
        r == (a@ == b@),
{
    if a.len() != b.len() {
        return false;
    }
    for i in 0..a.len()
        invariant
            a@.len() == b@.len(),
            forall|j: int| 0 <= j < i ==> a@[j] == b@[j],
    {
        if a[i] != b[i] {
            return false;
        }
    }
    assert(a@ == b@);
    true
}

/// Does `v` equal the literal `lit`?
pub fn eq_str(v: &[char], lit: &str) -> (r: bool)
    ensures
        r == (v@ == lit@),
{
    let l = chars_of(lit);
    eq(v, l.as_slice())
}

pub fn eq_ignore_case(a: &[char], b: &[char]) -> (r: bool)
    ensures
        r == eq_ignore_ascii_case(a@, b@),
{
    let la = ascii_lower_chars(a);
    let lb = ascii_lower_chars(b);
    eq(la.as_slice(), lb.as_slice())
}

pub fn matches_at_exec(h: &[char], n: &[char], i: usize) -> (r: bool)
    ensures
        r == matches_at(h@, n@, i as int),
{
    if i > h.len() || n.len() > h.len() - i {
        return false;
    }
    let mut k: usize = 0;
    while k < n.len()
        invariant
            i + n@.len() <= h.len(),
            k <= n@.len(),
            forall|j: int| 0 <= j < k ==> h@[i + j] == n@[j],
        decreases n@.len() - k,
    {
        if h[i + k] != n[k] {
            return false;
        }
        k = k + 1;
    }
    assert(h@.subrange(i as int, i + n@.len()) == n@);
    true
}

pub fn starts_with_exec(s: &[char], p: &[char]) -> (r: bool)
    ensures
        r == starts_with(s@, p@),
{
    let r = matches_at_exec(s, p, 0);
    assert(s@.take(p@.len() as int) == s@.subrange(0, p@.len() as int));
    r
}

pub fn ends_with_exec(s: &[char], p: &[char]) -> (r: bool)
    ensures
        r == ends_with(s@, p@),
{
    if p.len() > s.len() {
        return false;
    }
    let r = matches_at_exec(s, p, s.len() - p.len());
    assert(s@.skip(s@.len() - p@.len()) == s@.subrange(s@.len() - p@.len(), s@.len() as int));
    r
}

pub fn contains_exec(h: &[char], n: &[char]) -> (r: bool)
    ensures
        r == contains(h@, n@),
{
    if n.len() > h.len() {
        assert forall|i: int| !matches_at(h@, n@, i) by {}
        return false;
    }
    let last = h.len() - n.len();
    let mut i: usize = 0;
    loop
        invariant
            last == h@.len() - n@.len(),
            i <= last,
            forall|j: int| 0 <= j < i ==> !matches_at(h@, n@, j),
        ensures
            forall|j: int| 0 <= j <= last ==> !matches_at(h@, n@, j),
        decreases last - i,
    {
        if matches_at_exec(h, n, i) {
            return true;
        }
        if i == last {
            break;
        }
        i = i + 1;
    }
    false
}

pub fn contains_str(h: &[char], lit: &str) -> (r: bool)
    ensures
        r == contains(h@, lit@),
{
    let n = chars_of(lit);
    contains_exec(h, n.as_slice())
}

pub fn contains_char(v: &[char], c: char) -> (r: bool)
    ensures
        r == v@.contains(c),
{
    for i in 0..v.len()
        invariant
            forall|j: int| 0 <= j < i ==> v@[j] != c,
    {
        if v[i] == c {
            return true;
        }
    }
    false
}

/// Byte length of the UTF-8 encoding of `v`.
pub fn utf8_len_exec(v: &[char]) -> (r: usize)
    requires
        v@.len() * 4 <= usize::MAX,
    ensures
        r == utf8_len(v@),
{
    let mut n: usize = 0;
    for i in 0..v.len()
        invariant
            n == utf8_len(v@.take(i as int)),
            n <= 4 * i,
            v@.len() * 4 <= usize::MAX,
    {
        let c = v[i];
        let w: usize = if (c as u32) < 0x80 {
            1
        } else if (c as u32) < 0x800 {
            2
        } else if (c as u32) < 0x10000 {
            3
        } else {
            4
        };
        assert(v@.take(i + 1).drop_last() == v@.take(i as int));
        n = n + w;
    }
    assert(v@.take(v@.len() as int) == v@);
    n
}


// ───────────────────────── trimming ─────────────────────────

proof fn lemma_trim_start_step(v: Seq<char>, i: int)
    requires
        0 <= i < v.len(),
        is_ws(v[i]),
    ensures
        trim_start(v.subrange(i, v.len() as int)) == trim_start(v.subrange(i + 1, v.len() as int)),
{
    assert(v.subrange(i, v.len() as int).drop_first() == v.subrange(i + 1, v.len() as int));
}

proof fn lemma_trim_end_step(v: Seq<char>, lo: int, hi: int)
    requires
        0 <= lo < hi <= v.len(),
        is_ws(v[hi - 1]),
    ensures
        trim_end(v.subrange(lo, hi)) == trim_end(v.subrange(lo, hi - 1)),
{
    assert(v.subrange(lo, hi).drop_last() == v.subrange(lo, hi - 1));
}

/// The bounds of `trim(v)` inside `v`.
pub fn trim_bounds(v: &[char]) -> (r: (usize, usize))
    ensures
        r.0 <= r.1 <= v@.len(),
        v@.subrange(r.0 as int, r.1 as int) == trim(v@),
{
    let mut lo: usize = 0;
    assert(v@.subrange(0, v@.len() as int) == v@);
    while lo < v.len() && char_is_ws(v[lo])
        invariant
            lo <= v@.len(),
            trim_start(v@) == trim_start(v@.subrange(lo as int, v@.len() as int)),
        decreases v@.len() - lo,
    {
        proof {
            lemma_trim_start_step(v@, lo as int);
        }
        lo = lo + 1;
    }
    let mut hi: usize = v.len();
    assert(trim_start(v@) == v@.subrange(lo as int, v@.len() as int));
    while hi > lo && char_is_ws(v[hi - 1])
        invariant
            lo <= hi <= v@.len(),
            trim(v@) == trim_end(v@.subrange(lo as int, hi as int)),
        decreases hi,
    {
        proof {
            lemma_trim_end_step(v@, lo as int, hi as int);
        }
        hi = hi - 1;
    }
    (lo, hi)
}

/// `trim(v)` as a new vector.
pub fn trim_chars(v: &[char]) -> (r: Vec<char>)
    ensures
        r@ == trim(v@),
{
    let (lo, hi) = trim_bounds(v);
    copy_range(v, lo, hi)
}

// ───────────────────────── splitting ─────────────────────────

pub proof fn lemma_split_marked_len(s: Seq<char>, m: Seq<bool>)
    ensures
        split_marked(s, m).len() >= 1,
    decreases s.len(),
{
    if s.len() > 0 && m.len() > 0 {
        lemma_split_marked_len(s.drop_last(), m.drop_last());
    }
}

/// Splitting `s + t`, where `t` holds no separator, extends the last piece.
pub proof fn lemma_split_extend(s: Seq<char>, t: Seq<char>, c: char)
    requires
        !t.contains(c),
    ensures
        split_char(s, c).len() >= 1,
        split_char(s + t, c) == split_char(s, c).update(
            split_char(s, c).len() - 1,
            split_char(s, c).last() + t,
        ),
    decreases t.len(),
{
    lemma_split_marked_len(s, marks_char(s, c));
    let sp = split_char(s, c);
    if t.len() == 0 {
        assert(s + t =~= s);
        assert(sp.last() + t =~= sp.last());
        assert(sp.update(sp.len() - 1, sp.last() + t) =~= sp);
    } else {
        let u = s + t.drop_last();
        let x = t.last();
        assert(!t.drop_last().contains(c)) by {
            if t.drop_last().contains(c) {
                let i = choose|i: int| 0 <= i < t.drop_last().len() && t.drop_last()[i] == c;
                assert(t[i] == c);
            }
        }
        lemma_split_extend(s, t.drop_last(), c);
        lemma_split_marked_len(u, marks_char(u, c));
        let w = u.push(x);
        assert(w =~= s + t);
        let mw = marks_char(w, c);
        assert(w.drop_last() =~= u);
        assert(mw.drop_last() =~= marks_char(u, c));
        assert(!mw.last());
        let prev = split_char(u, c);
        assert(split_marked(w, mw) == prev.update(prev.len() - 1, prev.last().push(x)));
        assert((sp.last() + t.drop_last()).push(x) =~= sp.last() + t);
        assert(prev.update(prev.len() - 1, prev.last().push(x)) =~= sp.update(sp.len() - 1, sp.last() + t));
    }
}

/// A separator at the end starts a new, empty piece.
pub proof fn lemma_split_at_sep(s: Seq<char>, c: char)
    ensures
        split_char(s.push(c), c) == split_char(s, c).push(Seq::<char>::empty()),
{
    let w = s.push(c);
    let mw = marks_char(w, c);
    assert(w.drop_last() =~= s);
    assert(mw.drop_last() =~= marks_char(s, c));
    assert(mw.last());
}

/// Keeping the non-empty pieces of pieces that are all non-empty keeps them all.
pub proof fn lemma_keep_nonempty_all(ps: Seq<Seq<char>>)
    requires
        forall|i: int| 0 <= i < ps.len() ==> (#[trigger] ps[i]).len() > 0,
    ensures
        keep_nonempty(ps) == ps,
    decreases ps.len(),
{
    if ps.len() > 0 {
        let init = ps.drop_last();
        assert forall|i: int| 0 <= i < init.len() implies (#[trigger] init[i]).len() > 0 by {
            assert(init[i] == ps[i]);
        }
        lemma_keep_nonempty_all(init);
        assert(ps[ps.len() - 1].len() > 0);
        assert(init.push(ps.last()) =~= ps);
    }
}

/// Splitting pieces joined by a separator that none of them holds gives the
/// pieces back.
pub proof fn lemma_split_join_char(ps: Seq<Seq<char>>, c: char)
    requires
        ps.len() >= 1,
        forall|i: int| 0 <= i < ps.len() ==> !(#[trigger] ps[i]).contains(c),
    ensures
        split_char(join(ps, seq![c]), c) == ps,
    decreases ps.len(),
{
    let e = Seq::<char>::empty();
    if ps.len() == 1 {
        lemma_split_extend(e, ps[0], c);
        assert(e + ps[0] =~= ps[0]);
        assert(split_char(e, c) =~= seq![e]);
        assert(split_char(join(ps, seq![c]), c) =~= ps);
    } else {
        let init = ps.drop_last();
        assert forall|i: int| 0 <= i < init.len() implies !(#[trigger] init[i]).contains(c) by {
            assert(init[i] == ps[i]);
        }
        lemma_split_join_char(init, c);
        let j = join(init, seq![c]);
        assert(!ps[ps.len() - 1].contains(c));
        assert(join(ps, seq![c]) =~= j.push(c) + ps.last());
        lemma_split_at_sep(j, c);
        lemma_split_extend(j.push(c), ps.last(), c);
        assert(e + ps.last() =~= ps.last());
        assert(init.push(e).update(init.len() as int, e + ps.last()) =~= ps);
    }
}

/// Split `v` at the positions flagged by `m`.
pub fn split_at_marks(v: &[char], m: &[bool]) -> (r: Vec<Vec<char>>)
    requires
        v@.len() == m@.len(),
    ensures
        views(r@) == split_marked(v@, m@),
{
    let mut pieces: Vec<Vec<char>> = Vec::new();
    let mut cur: Vec<char> = Vec::new();
    assert(v@.take(0) == Seq::<char>::empty());
    assert(m@.take(0) == Seq::<bool>::empty());
    for i in 0..v.len()
        invariant
            v@.len() == m@.len(),
            views(pieces@).push(cur@) == split_marked(v@.take(i as int), m@.take(i as int)),
    {
        let ghost old_pieces = pieces@;
        let ghost old_cur = cur@;
        assert(v@.take(i + 1).drop_last() == v@.take(i as int));
        assert(m@.take(i + 1).drop_last() == m@.take(i as int));
        proof {
            lemma_split_marked_len(v@.take(i as int), m@.take(i as int));
        }
        if m[i] {
            let done = cur;
            pieces.push(done);
            cur = Vec::new();
            assert(views(pieces@) == views(old_pieces).push(old_cur));
        } else {
            cur.push(v[i]);
            assert(views(pieces@).push(cur@) == (views(old_pieces).push(old_cur)).update(
                views(old_pieces).len() as int,
                old_cur.push(v@[i as int]),
            ));
        }
    }
    assert(v@.take(v@.len() as int) == v@);
    assert(m@.take(m@.len() as int) == m@);
    pieces.push(cur);
    pieces
}

/// Flags the positions of `c` in `v`.
pub fn char_marks(v: &[char], c: char) -> (m: Vec<bool>)
    ensures
        m@ == marks_char(v@, c),
{
    let mut m: Vec<bool> = Vec::new();
    for i in 0..v.len()
        invariant
            m@ == marks_char(v@.take(i as int), c),
    {
        m.push(v[i] == c);
        assert(marks_char(v@.take(i + 1), c) == marks_char(v@.take(i as int), c).push(v@[i as int] == c));
    }
    assert(v@.take(v@.len() as int) == v@);
    m
}

/// Flags the whitespace positions of `v`.
pub fn ws_marks(v: &[char]) -> (m: Vec<bool>)
    ensures
        m@ == marks_ws(v@),
{
    let mut m: Vec<bool> = Vec::new();
    for i in 0..v.len()
        invariant
            m@ == marks_ws(v@.take(i as int)),
    {
        m.push(char_is_ws(v[i]));
        assert(marks_ws(v@.take(i + 1)) == marks_ws(v@.take(i as int)).push(is_ws(v@[i as int])));
    }
    assert(v@.take(v@.len() as int) == v@);
    m
}

/// `v.split(c)`.
pub fn split_on_char(v: &[char], c: char) -> (r: Vec<Vec<char>>)
    ensures
        views(r@) == split_char(v@, c),
{
    let m = char_marks(v, c);
    split_at_marks(v, m.as_slice())
}

/// Keep only the non-empty pieces.
pub fn drop_empty(ps: &Vec<Vec<char>>) -> (r: Vec<Vec<char>>)
    ensures
        views(r@) == keep_nonempty(views(ps@)),
{
    let mut r: Vec<Vec<char>> = Vec::new();
    for i in 0..ps.len()
        invariant
            views(r@) == keep_nonempty(views(ps@.take(i as int))),
    {
        let ghost before = views(r@);
        assert(views(ps@.take(i + 1)).drop_last() == views(ps@.take(i as int)));
        assert(views(ps@.take(i + 1)).last() == ps@[i as int]@);
        if ps[i].len() > 0 {
            let c = copy_range(ps[i].as_slice(), 0, ps[i].len());
            assert(c@ == ps@[i as int]@);
            r.push(c);
            assert(views(r@) == before.push(ps@[i as int]@));
        }
    }
    assert(ps@.take(ps@.len() as int) == ps@);
    r
}

/// `v.split_whitespace()`.
pub fn split_whitespace(v: &[char]) -> (r: Vec<Vec<char>>)
    ensures
        views(r@) == split_ws(v@),
{
    let m = ws_marks(v);
    let parts = split_at_marks(v, m.as_slice());
    drop_empty(&parts)
}

/// `v.lines()`.
pub fn lines_of(v: &[char]) -> (r: Vec<Vec<char>>)
    ensures
        views(r@) == lines(v@),
{
    let parts = split_on_char(v, '\n');
    proof {
        lemma_split_marked_len(v@, marks_char(v@, '\n'));
        assert(split_char(v@, '\n').len() >= 1);
    }
    let ghost ps = views(parts@);
    let n = parts.len();
    let mut r: Vec<Vec<char>> = Vec::new();
    for i in 0..n - 1
        invariant
            n == parts@.len(),
            n >= 1,
            ps == views(parts@),
            views(r@) == strip_cr_each(ps.take(i as int)),
    {
        let p = &parts[i];
        let len = p.len();
        let l = if len > 0 && p[len - 1] == '\r' {
            copy_range(p.as_slice(), 0, len - 1)
        } else {
            copy_range(p.as_slice(), 0, len)
        };
        assert(l@ == strip_cr(ps[i as int]));
        r.push(l);
        assert(strip_cr_each(ps.take(i + 1)) == strip_cr_each(ps.take(i as int)).push(strip_cr(ps[i as int])));
    }
    let ghost init = views(r@);
    assert(init == strip_cr_each(ps.take(n - 1)));
    assert(ps == split_char(v@, '\n'));
    let last = &parts[n - 1];
    assert(ps.len() == n);
    assert(ps[n - 1] == parts@[n - 1]@);
    assert(last@ == ps.last());
    if last.len() > 0 {
        let c = copy_range(last.as_slice(), 0, last.len());
        let ghost old_r = r@;
        r.push(c);
        assert(views(r@) =~= views(old_r).push(c@));
        assert(views(old_r) == init);
        assert(c@ == ps.last());
        assert(views(r@) == init.push(ps.last()));
        assert(views(r@) == lines(v@));
    } else {
        assert(views(r@) == lines(v@));
    }
    r
}

/// `ps.join(sep)`.
pub fn join_chars(ps: &Vec<Vec<char>>, sep: &[char]) -> (r: Vec<char>)
    ensures
        r@ == join(views(ps@), sep@),
{
    let mut r: Vec<char> = Vec::new();
    for i in 0..ps.len()
        invariant
            r@ == join(views(ps@.take(i as int)), sep@),
    {
        assert(views(ps@.take(i + 1)).drop_last() == views(ps@.take(i as int)));
        assert(views(ps@.take(i + 1)).last() == ps@[i as int]@);
        if i > 0 {
            append(&mut r, sep);
        } else {
            assert(views(ps@.take(1)) == seq![ps@[0]@]);
        }
        append(&mut r, ps[i].as_slice());
    }
    assert(ps@.take(ps@.len() as int) == ps@);
    r
}

/// `ps.join(sep)` for strings.
pub fn join_strings(ps: &Vec<String>, sep: &str) -> (r: String)
    ensures
        r@ == join(str_views(ps@), sep@),
{
    let mut cs: Vec<Vec<char>> = Vec::new();
    for i in 0..ps.len()
        invariant
            views(cs@) == str_views(ps@.take(i as int)),
    {
        let c = chars_of(ps[i].as_str());
        cs.push(c);
        assert(str_views(ps@.take(i + 1)) == str_views(ps@.take(i as int)).push(ps@[i as int]@));
        assert(views(cs@) == str_views(ps@.take(i + 1)));
    }
    assert(ps@.take(ps@.len() as int) == ps@);
    let sepc = chars_of(sep);
    let j = join_chars(&cs, sepc.as_slice());
    string_of(j.as_slice())
}

// ───────────────────────── numbers ─────────────────────────

pub fn digit(d: u64) -> (c: char)
    requires
        d < 16,
    ensures
        c == digit_char(d as nat),
{
    let b: u8 = d as u8;
    if d < 10 {
        let c = (b + 48) as char;
        assert(c as u32 == d + 48);
        c
    } else {
        let c = (b + 87) as char;
        assert(c as u32 == d + 87);
        c
    }
}

/// Decimal digits of `n`.
pub fn dec_chars(n: u64) -> (r: Vec<char>)
    ensures
        r@ == dec(n as nat),
    decreases n,
{
    if n < 10 {
        let mut r = Vec::new();
        r.push(digit(n));
        assert(r@ == seq![digit_char(n as nat)]);
        r
    } else {
        let mut r = dec_chars(n / 10);
        r.push(digit(n % 10));
        r
    }
}

/// Lower-case hexadecimal digits of `n`.
pub fn hex_chars(n: u64) -> (r: Vec<char>)
    ensures
        r@ == hex(n as nat),
    decreases n,
{
    if n < 16 {
        let mut r = Vec::new();
        r.push(digit(n));
        assert(r@ == seq![digit_char(n as nat)]);
        r
    } else {
        let mut r = hex_chars(n / 16);
        r.push(digit(n % 16));
        r
    }
}

/// The last `w` hexadecimal digits of `n`, zero padded.
pub fn hex_pad_chars(n: u64, w: u64) -> (r: Vec<char>)
    ensures
        r@ == hex_pad(n as nat, w as nat),
    decreases w,
{
    if w == 0 {
        Vec::new()
    } else {
        let mut r = hex_pad_chars(n / 16, w - 1);
        r.push(digit(n % 16));
        r
    }
}

/// The value of a run of decimal digits.
pub open spec fn digits_value(s: Seq<char>) -> nat
    decreases s.len(),
{
    if s.len() == 0 {
        0
    } else {
        digits_value(s.drop_last()) * 10 + ((s.last() as u32) - 48) as nat
    }
}

pub open spec fn all_digits(s: Seq<char>) -> bool {
    forall|i: int| 0 <= i < s.len() ==> is_ascii_digit(#[trigger] s[i])
}

/// `u32::from_str`: an optional `+`, then one or more ASCII digits whose value
/// fits in 32 bits.
pub open spec fn parse_u32_spec(s: Seq<char>) -> Option<u32> {
    let d = if s.len() > 0 && s[0] == '+' {
        s.drop_first()
    } else {
        s
    };
    if d.len() > 0 && all_digits(d) && digits_value(d) <= u32::MAX {
        Some(digits_value(d) as u32)
    } else {
        None
    }
}

proof fn lemma_digits_value_mono(s: Seq<char>, k: int)
    requires
        0 <= k <= s.len(),
        all_digits(s),
    ensures
        digits_value(s.take(k)) <= digits_value(s),
    decreases s.len() - k,
{
    if k < s.len() {
        lemma_digits_value_mono(s, k + 1);
        assert(s.take(k + 1).drop_last() == s.take(k));
        assert(is_ascii_digit(s[k]));
    } else {
        assert(s.take(k) == s);
    }
}

/// Parse an unsigned 32-bit decimal number as `str::parse::<u32>` does.
pub fn parse_u32(s: &[char]) -> (r: Option<u32>)
    ensures
        r == parse_u32_spec(s@),
{
    let start: usize = if s.len() > 0 && s[0] == '+' {
        1
    } else {
        0
    };
    let ghost d = if s@.len() > 0 && s@[0] == '+' {
        s@.drop_first()
    } else {
        s@
    };
    assert(d == s@.subrange(start as int, s@.len() as int));
    if start >= s.len() {
        return None;
    }
    let mut acc: u64 = 0;
    let mut i = start;
    while i < s.len()
        invariant
            start <= i <= s@.len(),
            d == s@.subrange(start as int, s@.len() as int),
            d == (if s@.len() > 0 && s@[0] == '+' { s@.drop_first() } else { s@ }),
            acc == digits_value(d.take(i - start)),
            acc <= u32::MAX,
            all_digits(d.take(i - start)),
        decreases s@.len() - i,
    {
        let c = s[i];
        assert(d.take(i - start + 1).drop_last() == d.take(i - start));
        assert(d.take(i - start + 1).last() == c);
        if !('0' <= c && c <= '9') {
            assert(!is_ascii_digit(d[i - start]));
            assert(!all_digits(d));
            return None;
        }
        let dv: u64 = ((c as u32) - 48) as u64;
        assert(acc * 10 + dv <= 0xffff_ffff_ffff_ffffu64) by (nonlinear_arith)
            requires
                acc <= 0xffff_ffff,
                dv <= 9,
        ;
        acc = acc * 10 + dv;
        i = i + 1;
        assert(all_digits(d.take(i - start)));
        if acc > 0xffff_ffff {
            proof {
                if all_digits(d) {
                    lemma_digits_value_mono(d, i - start);
                    assert(digits_value(d) > u32::MAX);
                }
            }
            return None;
        }
    }
    assert(d.take(d.len() as int) == d);
    Some(acc as u32)
}


// ───────────────────────── trimmed pieces ─────────────────────────

pub open spec fn trim_each(ps: Seq<Seq<char>>) -> Seq<Seq<char>> {
    Seq::new(ps.len(), |i: int| trim(ps[i]))
}

/// `s.split(c).map(str::trim).filter(|p| !p.is_empty())`.
pub open spec fn trimmed_parts(s: Seq<char>, c: char) -> Seq<Seq<char>> {
    keep_nonempty(trim_each(split_char(s, c)))
}

pub fn trim_all(ps: &Vec<Vec<char>>) -> (r: Vec<Vec<char>>)
    ensures
        views(r@) == trim_each(views(ps@)),
{
    let mut r: Vec<Vec<char>> = Vec::new();
    for i in 0..ps.len()
        invariant
            views(r@) == trim_each(views(ps@.take(i as int))),
    {
        let t = trim_chars(ps[i].as_slice());
        let ghost old_r = r@;
        r.push(t);
        assert(views(r@) =~= views(old_r).push(t@));
        assert(views(ps@.take(i + 1)) =~= views(ps@.take(i as int)).push(ps@[i as int]@));
        assert(trim_each(views(ps@.take(i + 1))) =~= trim_each(views(ps@.take(i as int))).push(
            trim(ps@[i as int]@),
        ));
    }
    assert(ps@.take(ps@.len() as int) == ps@);
    r
}

/// The trimmed, non-empty pieces of `v` split at `c`.
pub fn trimmed_parts_of(v: &[char], c: char) -> (r: Vec<Vec<char>>)
    ensures
        views(r@) == trimmed_parts(v@, c),
{
    let ps = split_on_char(v, c);
    let ts = trim_all(&ps);
    drop_empty(&ts)
}

pub proof fn lemma_utf8_len_ge(s: Seq<char>)
    ensures
        utf8_len(s) >= s.len(),
        s.len() == 1 ==> utf8_len(s) == char_utf8_len(s[0]),
    decreases s.len(),
{
    if s.len() > 0 {
        lemma_utf8_len_ge(s.drop_last());
        if s.len() == 1 {
            assert(s.drop_last().len() == 0);
        }
    }
}

/// Is the UTF-8 encoding of `v` exactly one byte long?
pub fn is_one_byte(v: &[char]) -> (r: bool)
    ensures
        r == (utf8_len(v@) == 1),
{
    proof {
        lemma_utf8_len_ge(v@);
    }
    v.len() == 1 && (v[0] as u32) < 0x80
}

/// `u8::from_str(s).is_ok()`.
pub open spec fn parses_as_u8(s: Seq<char>) -> bool {
    parse_u32_spec(s) matches Some(v) && v <= 255
}


// ───────────────────────── stripping a character ─────────────────────────

/// `s.trim_end_matches(c)`.
pub open spec fn strip_trailing(s: Seq<char>, c: char) -> Seq<char>
    decreases s.len(),
{
    if s.len() > 0 && s.last() == c {
        strip_trailing(s.drop_last(), c)
    } else {
        s
    }
}

/// `s.trim_start_matches(c)`.
pub open spec fn strip_leading(s: Seq<char>, c: char) -> Seq<char>
    decreases s.len(),
{
    if s.len() > 0 && s[0] == c {
        strip_leading(s.drop_first(), c)
    } else {
        s
    }
}

/// `s.trim_matches(c)`.
pub open spec fn strip_both(s: Seq<char>, c: char) -> Seq<char> {
    strip_trailing(strip_leading(s, c), c)
}

pub fn strip_trailing_chars(v: &[char], c: char) -> (r: Vec<char>)
    ensures
        r@ == strip_trailing(v@, c),
{
    let mut hi = v.len();
    assert(v@.subrange(0, hi as int) == v@);
    while hi > 0 && v[hi - 1] == c
        invariant
            hi <= v@.len(),
            strip_trailing(v@, c) == strip_trailing(v@.subrange(0, hi as int), c),
        decreases hi,
    {
        assert(v@.subrange(0, hi as int).drop_last() == v@.subrange(0, hi - 1));
        hi = hi - 1;
    }
    copy_range(v, 0, hi)
}

pub fn strip_leading_chars(v: &[char], c: char) -> (r: Vec<char>)
    ensures
        r@ == strip_leading(v@, c),
{
    let mut lo: usize = 0;
    assert(v@.subrange(0, v@.len() as int) == v@);
    while lo < v.len() && v[lo] == c
        invariant
            lo <= v@.len(),
            strip_leading(v@, c) == strip_leading(v@.subrange(lo as int, v@.len() as int), c),
        decreases v@.len() - lo,
    {
        assert(v@.subrange(lo as int, v@.len() as int).drop_first() == v@.subrange(
            lo + 1,
            v@.len() as int,
        ));
        lo = lo + 1;
    }
    copy_range(v, lo, v.len())
}

pub fn strip_both_chars(v: &[char], c: char) -> (r: Vec<char>)
    ensures
        r@ == strip_both(v@, c),
{
    let a = strip_leading_chars(v, c);
    strip_trailing_chars(a.as_slice(), c)
}


// ───────────────────────── more separators ─────────────────────────

/// Flags the positions of `s` holding a character of `set`.
pub open spec fn marks_in(s: Seq<char>, set: Seq<char>) -> Seq<bool> {
    Seq::new(s.len(), |i: int| set.contains(s[i]))
}

/// Flags the positions of `s` holding whitespace or a character of `set`.
pub open spec fn marks_ws_or(s: Seq<char>, set: Seq<char>) -> Seq<bool> {
    Seq::new(s.len(), |i: int| is_ws(s[i]) || set.contains(s[i]))
}

/// Flags the positions of `s` not holding an ASCII digit.
pub open spec fn marks_nondigit(s: Seq<char>) -> Seq<bool> {
    Seq::new(s.len(), |i: int| !is_ascii_digit(s[i]))
}

pub fn set_marks(v: &[char], set: &[char], ws_too: bool) -> (m: Vec<bool>)
    ensures
        !ws_too ==> m@ == marks_in(v@, set@),
        ws_too ==> m@ == marks_ws_or(v@, set@),
{
    let mut m: Vec<bool> = Vec::new();
    for i in 0..v.len()
        invariant
            m@.len() == i,
            forall|k: int|
                0 <= k < i ==> #[trigger] m@[k] == ((ws_too && is_ws(v@[k])) || set@.contains(
                    v@[k],
                )),
    {
        let w = ws_too && char_is_ws(v[i]);
        let b = w || contains_char(set, v[i]);
        m.push(b);
    }
    if ws_too {
        assert(m@ =~= marks_ws_or(v@, set@));
    } else {
        assert(m@ =~= marks_in(v@, set@));
    }
    m
}

pub fn nondigit_marks(v: &[char]) -> (m: Vec<bool>)
    ensures
        m@ == marks_nondigit(v@),
{
    let mut m: Vec<bool> = Vec::new();
    for i in 0..v.len()
        invariant
            m@.len() == i,
            forall|k: int| 0 <= k < i ==> #[trigger] m@[k] == !is_ascii_digit(v@[k]),
    {
        m.push(!('0' <= v[i] && v[i] <= '9'));
    }
    assert(m@ =~= marks_nondigit(v@));
    m
}

// ───────────────────────── rewriting ─────────────────────────

/// `s` without any occurrence of `c`.
pub open spec fn remove_char(s: Seq<char>, c: char) -> Seq<char>
    decreases s.len(),
{
    if s.len() == 0 {
        s
    } else if s.last() == c {
        remove_char(s.drop_last(), c)
    } else {
        remove_char(s.drop_last(), c).push(s.last())
    }
}

/// `s.replace(c, rep)`.
pub open spec fn replace_char(s: Seq<char>, c: char, rep: Seq<char>) -> Seq<char>
    decreases s.len(),
{
    if s.len() == 0 {
        s
    } else if s.last() == c {
        replace_char(s.drop_last(), c, rep) + rep
    } else {
        replace_char(s.drop_last(), c, rep).push(s.last())
    }
}

pub fn remove_char_exec(v: &[char], c: char) -> (r: Vec<char>)
    ensures
        r@ == remove_char(v@, c),
{
    let mut r: Vec<char> = Vec::new();
    for i in 0..v.len()
        invariant
            r@ == remove_char(v@.take(i as int), c),
    {
        assert(v@.take(i + 1).drop_last() == v@.take(i as int));
        if v[i] != c {
            r.push(v[i]);
        }
    }
    assert(v@.take(v@.len() as int) == v@);
    r
}

pub fn replace_char_exec(v: &[char], c: char, rep: &[char]) -> (r: Vec<char>)
    ensures
        r@ == replace_char(v@, c, rep@),
{
    let mut r: Vec<char> = Vec::new();
    for i in 0..v.len()
        invariant
            r@ == replace_char(v@.take(i as int), c, rep@),
    {
        assert(v@.take(i + 1).drop_last() == v@.take(i as int));
        if v[i] == c {
            append(&mut r, rep);
        } else {
            r.push(v[i]);
        }
    }
    assert(v@.take(v@.len() as int) == v@);
    r
}

/// `s.strip_prefix(p)`.
pub open spec fn strip_prefix(s: Seq<char>, p: Seq<char>) -> Option<Seq<char>> {
    if starts_with(s, p) {
        Some(s.skip(p.len() as int))
    } else {
        None
    }
}

/// `s.strip_suffix(p)`.
pub open spec fn strip_suffix(s: Seq<char>, p: Seq<char>) -> Option<Seq<char>> {
    if ends_with(s, p) {
        Some(s.take(s.len() - p.len()))
    } else {
        None
    }
}

pub fn strip_prefix_exec(s: &[char], p: &str) -> (r: Option<Vec<char>>)
    ensures
        match r {
            Some(x) => strip_prefix(s@, p@) == Some(x@),
            None => strip_prefix(s@, p@) is None,
        },
{
    let pc = chars_of(p);
    if starts_with_exec(s, pc.as_slice()) {
        Some(copy_range(s, pc.len(), s.len()))
    } else {
        None
    }
}

pub fn strip_suffix_exec(s: &[char], p: &str) -> (r: Option<Vec<char>>)
    ensures
        match r {
            Some(x) => strip_suffix(s@, p@) == Some(x@),
            None => strip_suffix(s@, p@) is None,
        },
{
    let pc = chars_of(p);
    if ends_with_exec(s, pc.as_slice()) {
        Some(copy_range(s, 0, s.len() - pc.len()))
    } else {
        None
    }
}

/// `a + b` for character vectors given as strings.
pub fn cat3(a: &[char], b: &str, c: &[char]) -> (r: Vec<char>)
    ensures
        r@ == a@ + b@ + c@,
{
    let mut r = concat(a, chars_of(b).as_slice());
    append(&mut r, c);
    r
}

// ───────────────────────── searching ─────────────────────────

/// The first index from `k` on holding `c`.
pub open spec fn find_first(s: Seq<char>, c: char, k: int) -> Option<int>
    decreases s.len() - k,
{
    if k < 0 || k >= s.len() {
        None
    } else if s[k] == c {
        Some(k)
    } else {
        find_first(s, c, k + 1)
    }
}

/// The last index below `k` holding `c`.
pub open spec fn find_last(s: Seq<char>, c: char, k: int) -> Option<int>
    decreases k,
{
    if k <= 0 || k > s.len() {
        None
    } else if s[k - 1] == c {
        Some(k - 1)
    } else {
        find_last(s, c, k - 1)
    }
}

/// The first index from `k` on holding whitespace.
pub open spec fn find_ws(s: Seq<char>, k: int) -> Option<int>
    decreases s.len() - k,
{
    if k < 0 || k >= s.len() {
        None
    } else if is_ws(s[k]) {
        Some(k)
    } else {
        find_ws(s, k + 1)
    }
}

/// The first index of `c` in `v`.
pub fn find_char(v: &[char], c: char) -> (r: Option<usize>)
    ensures
        match r {
            Some(i) => find_first(v@, c, 0) == Some(i as int),
            None => find_first(v@, c, 0) is None,
        },
{
    let mut i: usize = 0;
    while i < v.len()
        invariant
            i <= v@.len(),
            find_first(v@, c, 0) == find_first(v@, c, i as int),
        decreases v@.len() - i,
    {
        if v[i] == c {
            return Some(i);
        }
        i = i + 1;
    }
    None
}

/// The first whitespace index in `v`.
pub fn find_ws_exec(v: &[char]) -> (r: Option<usize>)
    ensures
        match r {
            Some(i) => find_ws(v@, 0) == Some(i as int),
            None => find_ws(v@, 0) is None,
        },
{
    let mut i: usize = 0;
    while i < v.len()
        invariant
            i <= v@.len(),
            find_ws(v@, 0) == find_ws(v@, i as int),
        decreases v@.len() - i,
    {
        if char_is_ws(v[i]) {
            return Some(i);
        }
        i = i + 1;
    }
    None
}

proof fn lemma_find_first_range(s: Seq<char>, c: char, k: int)
    requires
        0 <= k,
    ensures
        find_first(s, c, k) matches Some(i) ==> k <= i < s.len() && s[i] == c,
    decreases s.len() - k,
{
    if k < s.len() {
        lemma_find_first_range(s, c, k + 1);
    }
}

proof fn lemma_find_ws_range(s: Seq<char>, k: int)
    requires
        0 <= k,
    ensures
        find_ws(s, k) matches Some(i) ==> k <= i < s.len() && is_ws(s[i]),
    decreases s.len() - k,
{
    if k < s.len() {
        lemma_find_ws_range(s, k + 1);
    }
}

/// Where a search from the start finds `c`, the index lies inside the text.
pub proof fn lemma_find_first_in(s: Seq<char>, c: char, i: int)
    requires
        find_first(s, c, 0) == Some(i),
    ensures
        0 <= i < s.len(),
        s[i] == c,
{
    lemma_find_first_range(s, c, 0);
}

/// Where a search from the start finds whitespace, the index lies inside
/// the text.
pub proof fn lemma_find_ws_in(s: Seq<char>, i: int)
    requires
        find_ws(s, 0) == Some(i),
    ensures
        0 <= i < s.len(),
        is_ws(s[i]),
{
    lemma_find_ws_range(s, 0);
}

} // verus!
