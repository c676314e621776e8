//! Keys of the colour emoji glyph cache, and the code points whose glyphs
//! are drawn.
use vstd::prelude::*;

use crate::text::{append, chars_of, hex, hex_chars, join, string_of};

verus! {

/// A code point in lower-case hex.
pub open spec fn code_hex(c: char) -> Seq<char> {
    hex((c as u32) as nat)
}

/// The code points of a text in hex, joined by `-` (`1f44d-1f3fd`).
pub open spec fn emoji_key_spec(s: Seq<char>) -> Seq<char> {
    join(Seq::new(s.len(), |i: int| code_hex(s[i])), "-"@)
}

pub fn emoji_key(s: &str) -> (r: String)
    ensures
        r@ == emoji_key_spec(s@),
{
    let v = chars_of(s);
    let mut parts: Vec<Vec<char>> = Vec::new();
    for i in 0..v.len()
        invariant
            crate::text::views(parts@).len() == i,
            forall|k: int| 0 <= k < i ==> #[trigger] crate::text::views(parts@)[k] == code_hex(v@[k]),
    {
        let h = hex_chars(v[i] as u32 as u64);
        let ghost before = parts@;
        assert(forall|k: int| 0 <= k < i ==> #[trigger] crate::text::views(before)[k] == code_hex(v@[k]));
        parts.push(h);
        assert(crate::text::views(parts@)[i as int] == h@);
        assert forall|k: int| 0 <= k < i implies #[trigger] crate::text::views(parts@)[k] == code_hex(v@[k]) by {
            assert(parts@[k] == before[k]);
            assert(crate::text::views(before)[k] == code_hex(v@[k]));
        }
    }
    assert(crate::text::views(parts@) =~= Seq::new(v@.len(), |i: int| code_hex(v@[i])));
    let j = crate::text::join_chars(&parts, chars_of("-").as_slice());
    string_of(j.as_slice())
}

/// Variation selectors and the zero-width joiner, which have no glyph.
pub open spec fn is_joiner_or_selector(c: char) -> bool {
    c == '\u{FE0F}' || c == '\u{FE0E}' || c == '\u{200D}'
}

/// The code points of an emoji whose glyphs are looked up, in order:
/// all but variation selectors and zero-width joiners.
pub open spec fn glyph_chars_spec(s: Seq<char>) -> Seq<char>
    decreases s.len(),
{
    if s.len() == 0 {
        s
    } else if is_joiner_or_selector(s.last()) {
        glyph_chars_spec(s.drop_last())
    } else {
        glyph_chars_spec(s.drop_last()).push(s.last())
    }
}

pub fn glyph_chars(s: &str) -> (r: Vec<char>)
    ensures
        r@ == glyph_chars_spec(s@),
{
    let v = chars_of(s);
    let mut r: Vec<char> = Vec::new();
    for i in 0..v.len()
        invariant
            r@ == glyph_chars_spec(v@.take(i as int)),
    {
        assert(v@.take(i + 1).drop_last() =~= v@.take(i as int));
        let c = v[i];
        if !(c == '\u{FE0F}' || c == '\u{FE0E}' || c == '\u{200D}') {
            r.push(c);
        }
    }
    assert(v@.take(v@.len() as int) =~= v@);
    r
}

} // verus!
