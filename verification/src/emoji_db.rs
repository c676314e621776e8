//! The searchable emoji catalogue: building entries from catalogue records,
//! search keywords for flags, ranking and filtering.
use vstd::prelude::*;

use crate::config::SkinTone;
use crate::textmap::TextMap;
use crate::text::{
    append, cat3, chars_of, concat, copy_all, join_strings, to_lowercase, contains, contains_char, contains_exec, contains_str,
    copy_range, ends_with, eq, eq_ignore_ascii_case, eq_ignore_case, eq_str, join, join_chars,
    keep_nonempty, marks_ws, lower_chars, lower_text, marks_in, remove_char, remove_char_exec,
    replace_char, replace_char_exec, set_marks, split_at_marks, split_marked, starts_with,
    str_views, string_of, strip_prefix, strip_prefix_exec, strip_suffix, strip_suffix_exec,
    trim, trim_all, trim_chars, trim_each, utf8_len, utf8_len_exec, views, drop_empty,
    marks_nondigit, nondigit_marks, parse_u32, parse_u32_spec, alphanumeric, char_is_alphanumeric,
    split_ws, split_whitespace,
};

verus! {

/// One searchable emoji.
#[derive(Debug, Clone)]
pub struct EmojiEntry {
    pub ch: String,
    pub name: String,
    pub group: String,
    /// True when the Unicode name includes a skin-tone qualifier.
    pub is_skin_tone: bool,
    /// Lowercase phone-style keywords (for ranking).
    pub keywords: String,
    /// Lowercase blob: name, group, subgroup, category, codes, keywords, aliases.
    pub search_blob: String,
}

/// One record of the emoji catalogue file.
#[derive(Debug, Clone)]
pub struct EmojiSource {
    pub codes: String,
    pub emoji: String,
    pub name: String,
    pub category: String,
    pub group: String,
    pub subgroup: String,
    pub keywords: String,
}

// ───────────────────────── versions ─────────────────────────

/// The numbers of a dotted version string: its runs of ASCII digits that fit
/// in 32 bits, in order.
pub open spec fn parsed_parts(ps: Seq<Seq<char>>) -> Seq<u32>
    decreases ps.len(),
{
    if ps.len() == 0 {
        Seq::empty()
    } else {
        match parse_u32_spec(ps.last()) {
            Some(v) => parsed_parts(ps.drop_last()).push(v),
            None => parsed_parts(ps.drop_last()),
        }
    }
}

pub open spec fn version_parts(s: Seq<char>) -> Seq<u32> {
    let t = trim(s);
    parsed_parts(keep_nonempty(split_marked(t, marks_nondigit(t))))
}

pub open spec fn part_or_zero(p: Seq<u32>, i: int) -> u32 {
    if 0 <= i < p.len() {
        p[i]
    } else {
        0
    }
}

/// Compare part lists from position `i` on, missing parts counting as 0.
pub open spec fn parts_at_least(a: Seq<u32>, b: Seq<u32>, i: int) -> bool
    decreases (if a.len() > b.len() { a.len() } else { b.len() }) - i,
{
    if i < 0 || i >= a.len() && i >= b.len() {
        true
    } else if part_or_zero(a, i) != part_or_zero(b, i) {
        part_or_zero(a, i) > part_or_zero(b, i)
    } else {
        parts_at_least(a, b, i + 1)
    }
}

/// Is version `a` at least version `b` (`"17.0"` vs `"15.1"`)?
pub open spec fn version_at_least_spec(a: Seq<char>, b: Seq<char>) -> bool {
    parts_at_least(version_parts(a), version_parts(b), 0)
}

fn version_parts_exec(s: &str) -> (r: Vec<u32>)
    ensures
        r@ == version_parts(s@),
{
    let v = chars_of(s);
    let t = trim_chars(v.as_slice());
    let m = nondigit_marks(t.as_slice());
    let pieces = split_at_marks(t.as_slice(), m.as_slice());
    let kept = drop_empty(&pieces);
    let ghost ks = views(kept@);
    let mut r: Vec<u32> = Vec::new();
    for i in 0..kept.len()
        invariant
            ks == views(kept@),
            r@ == parsed_parts(ks.take(i as int)),
    {
        assert(ks.take(i + 1).drop_last() == ks.take(i as int));
        assert(ks.take(i + 1).last() == kept@[i as int]@);
        match parse_u32(kept[i].as_slice()) {
            Some(x) => r.push(x),
            None => {},
        }
    }
    assert(ks.take(ks.len() as int) == ks);
    r
}

/// Compare dotted version strings (`"17.0"`, `"15.1"`). True when `a >= b`.
pub fn version_at_least(a: &str, b: &str) -> (r: bool)
    ensures
        r == version_at_least_spec(a@, b@),
{
    let pa = version_parts_exec(a);
    let pb = version_parts_exec(b);
    let n = if pa.len() > pb.len() {
        pa.len()
    } else {
        pb.len()
    };
    let mut i: usize = 0;
    while i < n
        invariant
            n == (if pa@.len() > pb@.len() { pa@.len() } else { pb@.len() }),
            i <= n,
            pa@ == version_parts(a@),
            pb@ == version_parts(b@),
            parts_at_least(pa@, pb@, 0) == parts_at_least(pa@, pb@, i as int),
        decreases n - i,
    {
        let x = if i < pa.len() {
            pa[i]
        } else {
            0
        };
        let y = if i < pb.len() {
            pb[i]
        } else {
            0
        };
        assert(x == part_or_zero(pa@, i as int));
        assert(y == part_or_zero(pb@, i as int));
        if x != y {
            assert(i < pa@.len() || i < pb@.len());
            assert(parts_at_least(pa@, pb@, i as int) == (x > y));
            return x > y;
        }
        i = i + 1;
    }
    true
}

/// Every version is at least itself.
pub proof fn version_at_least_reflexive(a: Seq<char>)
    ensures
        version_at_least_spec(a, a),
{
    lemma_parts_reflexive(version_parts(a), 0);
}

proof fn lemma_parts_reflexive(p: Seq<u32>, i: int)
    requires
        0 <= i,
    ensures
        parts_at_least(p, p, i),
    decreases p.len() - i,
{
    if i < p.len() {
        lemma_parts_reflexive(p, i + 1);
    }
}

proof fn lemma_parts_total(a: Seq<u32>, b: Seq<u32>, i: int)
    requires
        0 <= i,
    ensures
        parts_at_least(a, b, i) || parts_at_least(b, a, i),
    decreases (if a.len() > b.len() { a.len() } else { b.len() }) - i,
{
    if i < a.len() || i < b.len() {
        if part_or_zero(a, i) == part_or_zero(b, i) {
            lemma_parts_total(a, b, i + 1);
        }
    }
}

/// Any two versions are comparable: one is at least the other.
pub proof fn version_at_least_total(a: Seq<char>, b: Seq<char>)
    ensures
        version_at_least_spec(a, b) || version_at_least_spec(b, a),
{
    lemma_parts_total(version_parts(a), version_parts(b), 0);
}

proof fn lemma_parts_step(a: Seq<u32>, b: Seq<u32>, i: int)
    requires
        0 <= i,
    ensures
        parts_at_least(a, b, i) <==> (part_or_zero(a, i) > part_or_zero(b, i) || (part_or_zero(a, i)
            == part_or_zero(b, i) && parts_at_least(a, b, i + 1))),
{
}

proof fn lemma_parts_trans(a: Seq<u32>, b: Seq<u32>, c: Seq<u32>, i: int)
    requires
        0 <= i,
        parts_at_least(a, b, i),
        parts_at_least(b, c, i),
    ensures
        parts_at_least(a, c, i),
    decreases (if a.len() > b.len() {
        if a.len() > c.len() { a.len() } else { c.len() }
    } else {
        if b.len() > c.len() { b.len() } else { c.len() }
    }) - i,
{
    if i < a.len() || i < b.len() || i < c.len() {
        lemma_parts_step(a, b, i);
        lemma_parts_step(b, c, i);
        lemma_parts_step(a, c, i);
        if part_or_zero(a, i) == part_or_zero(b, i) && part_or_zero(b, i) == part_or_zero(c, i) {
            lemma_parts_trans(a, b, c, i + 1);
        }
    }
}

/// Versions are ordered consistently: if `a` is at least `b` and `b` at
/// least `c`, then `a` is at least `c`.
pub proof fn version_at_least_transitive(a: Seq<char>, b: Seq<char>, c: Seq<char>)
    requires
        version_at_least_spec(a, b),
        version_at_least_spec(b, c),
    ensures
        version_at_least_spec(a, c),
{
    lemma_parts_trans(version_parts(a), version_parts(b), version_parts(c), 0);
}

// ───────────────────────── aliases ─────────────────────────

/// Extra search keywords per emoji: a map from emoji text to keywords.
pub type Aliases = TextMap<String>;

/// The keywords of emoji `k` among `pairs`: those of its last pair,
/// lowercased.
pub open spec fn pairs_alias(pairs: Seq<(String, String)>, k: Seq<char>, n: int) -> Option<Seq<char>>
    decreases n,
{
    if n <= 0 {
        None
    } else if pairs[n - 1].0@ == k {
        Some(lower_text(pairs[n - 1].1@))
    } else {
        pairs_alias(pairs, k, n - 1)
    }
}

/// Search aliases from (emoji, keywords) pairs: each emoji gets the
/// lowercased keywords of its last pair.
pub fn aliases_from_pairs(pairs: Vec<(String, String)>) -> (r: Aliases)
    ensures
        forall|k: Seq<char>|
            #[trigger] opt_str_view(r.spec_get(k)) == pairs_alias(pairs@, k, pairs@.len() as int),
{
    let mut al: Aliases = TextMap::new();
    for i in 0..pairs.len()
        invariant
            forall|k: Seq<char>| #[trigger] opt_str_view(al.spec_get(k)) == pairs_alias(pairs@, k, i as int),
    {
        let k = pairs[i].0.clone();
        let v = to_lowercase(pairs[i].1.as_str());
        let ghost kv = pairs@[i as int].0@;
        assert(k@ == kv);
        al.insert(k, v);
    }
    al
}

pub open spec fn opt_str_view(o: Option<String>) -> Option<Seq<char>> {
    match o {
        Some(s) => Some(s@),
        None => None,
    }
}

/// What the `toml` crate reads from an aliases file as a table of strings;
/// `None` when the text is not such a table.
pub uninterp spec fn alias_toml_table(raw: Seq<char>) -> Option<Map<Seq<char>, Seq<char>>>;

/// `toml::from_str` into a `HashMap<String, String>`, its pairs collected:
/// the table is named as a function of the text. The pairs come in the
/// order the hash map is walked, which is not stated; what is stated is
/// that they are the table's entries, each key once.
#[verifier::external_body]
fn parse_alias_toml(raw: &str) -> (r: Option<Vec<(String, String)>>)
    ensures
        match alias_toml_table(raw@) {
            Some(m) => r matches Some(v) && {
                &&& forall|i: int|
                    0 <= i < v@.len() ==> m.dom().contains((#[trigger] v@[i]).0@) && m[v@[i].0@] == v@[i].1@
                &&& forall|k: Seq<char>| #[trigger] m.dom().contains(k) ==> exists|i: int|
                    0 <= i < v@.len() && (#[trigger] v@[i]).0@ == k
                &&& forall|i: int, j: int| 0 <= i < j < v@.len() ==> (#[trigger] v@[i]).0@ != (#[trigger] v@[j]).0@
            },
            None => r is None,
        },
{
    toml::from_str::<std::collections::HashMap<String, String>>(raw).ok().map(|m| m.into_iter().collect())
}

proof fn lemma_pairs_alias_found(pairs: Seq<(String, String)>, k: Seq<char>, n: int, a: int)
    requires
        0 <= a < n <= pairs.len(),
        pairs[a].0@ == k,
        forall|i: int, j: int| 0 <= i < j < pairs.len() ==> (#[trigger] pairs[i]).0@ != (#[trigger] pairs[j]).0@,
    ensures
        pairs_alias(pairs, k, n) == Some(lower_text(pairs[a].1@)),
    decreases n,
{
    if a < n - 1 {
        assert(pairs[a].0@ != pairs[n - 1].0@);
        lemma_pairs_alias_found(pairs, k, n - 1, a);
    }
}

proof fn lemma_pairs_alias_absent(pairs: Seq<(String, String)>, k: Seq<char>, n: int)
    requires
        0 <= n <= pairs.len(),
        forall|i: int| 0 <= i < n ==> (#[trigger] pairs[i]).0@ != k,
    ensures
        pairs_alias(pairs, k, n) is None,
    decreases n,
{
    if n > 0 {
        lemma_pairs_alias_absent(pairs, k, n - 1);
    }
}

/// The search aliases of an aliases file (a TOML table of emoji to extra
/// search words): each emoji of the table with its words lowercased;
/// `None` when the text is no such table.
pub fn aliases_from_toml(raw: &str) -> (r: Option<Aliases>)
    ensures
        r is None <==> alias_toml_table(raw@) is None,
        r matches Some(al) ==> forall|k: Seq<char>|
            #[trigger] opt_str_view(al.spec_get(k)) == match alias_toml_table(raw@)->0.dom().contains(k) {
                true => Some(lower_text(alias_toml_table(raw@)->0[k])),
                false => None::<Seq<char>>,
            },
{
    let pairs = match parse_alias_toml(raw) {
        Some(p) => p,
        None => return None,
    };
    let ghost m = alias_toml_table(raw@)->0;
    let ghost pv = pairs@;
    let al = aliases_from_pairs(pairs);
    proof {
        assert forall|k: Seq<char>|
            #[trigger] opt_str_view(al.spec_get(k)) == match m.dom().contains(k) {
                true => Some(lower_text(m[k])),
                false => None::<Seq<char>>,
            } by {
            if m.dom().contains(k) {
                let a = choose|a: int| 0 <= a < pv.len() && (#[trigger] pv[a]).0@ == k;
                lemma_pairs_alias_found(pv, k, pv.len() as int, a);
            } else {
                assert forall|i: int| 0 <= i < pv.len() implies (#[trigger] pv[i]).0@ != k by {
                    assert(m.dom().contains(pv[i].0@));
                }
                lemma_pairs_alias_absent(pv, k, pv.len() as int);
            }
        }
    }
    Some(al)
}

pub open spec fn fe0f() -> char {
    '\u{fe0f}'
}

/// `s` without variation selector 16.
pub fn strip_fe0f(s: &str) -> (r: String)
    ensures
        r@ == remove_char(s@, fe0f()),
{
    let v = chars_of(s);
    let r = remove_char_exec(v.as_slice(), '\u{fe0f}');
    string_of(r.as_slice())
}

/// The aliases of an emoji: by its exact text, then without variation
/// selectors (when that differs), then with one appended.
pub open spec fn alias_for_spec(al: Aliases, ch: Seq<char>) -> Option<Seq<char>> {
    let found = match al.spec_get(ch) {
        Some(v) => Some(v),
        None => {
            let stripped = remove_char(ch, fe0f());
            if stripped != ch && al.spec_get(stripped) is Some {
                al.spec_get(stripped)
            } else {
                al.spec_get(ch.push(fe0f()))
            }
        },
    };
    match found {
        Some(v) => Some(v@),
        None => None,
    }
}

pub fn alias_for(ch: &str, aliases: &Aliases) -> (r: Option<String>)
    ensures
        match r {
            Some(v) => alias_for_spec(*aliases, ch@) == Some(v@),
            None => alias_for_spec(*aliases, ch@) is None,
        },
{
    let c = chars_of(ch);
    match aliases.get(c.as_slice()) {
        Some(v) => return Some(v.clone()),
        None => {},
    }
    let stripped = remove_char_exec(c.as_slice(), '\u{fe0f}');
    if !eq(stripped.as_slice(), c.as_slice()) {
        match aliases.get(stripped.as_slice()) {
            Some(v) => return Some(v.clone()),
            None => {},
        }
    }
    let mut with = c;
    with.push('\u{fe0f}');
    match aliases.get(with.as_slice()) {
        Some(v) => Some(v.clone()),
        None => None,
    }
}

// ───────────────────────── flags ─────────────────────────

/// Demonyms and common alternate names for regions in `flag: …` titles
/// (`region` is lowercase).
pub open spec fn demonyms_spec(region: Seq<char>) -> Seq<char> {
    if region == "canada"@ {
        "canadian canada canadian flag"@
    } else if region == "united states"@ {
        "usa us america american americans united states of america usa flag american flag"@
    } else if region == "united kingdom"@ {
        "uk britain british great britain england gbr united kingdom flag british flag"@
    } else if region == "england"@ {
        "english england english flag"@
    } else if region == "scotland"@ {
        "scottish scotland scottish flag"@
    } else if region == "wales"@ {
        "welsh wales welsh flag"@
    } else if region == "australia"@ {
        "australian australia aussie australian flag"@
    } else if region == "new zealand"@ {
        "kiwi new zealand nz new zealander"@
    } else if region == "ireland"@ {
        "irish ireland irish flag"@
    } else if region == "france"@ {
        "french france french flag"@
    } else if region == "germany"@ {
        "german germany deutschland german flag"@
    } else if region == "spain"@ {
        "spanish spain espanol spanish flag"@
    } else if region == "italy"@ {
        "italian italy italian flag"@
    } else if region == "portugal"@ {
        "portuguese portugal portuguese flag"@
    } else if region == "netherlands"@ {
        "dutch holland netherlands dutch flag"@
    } else if region == "belgium"@ {
        "belgian belgium belgian flag"@
    } else if region == "switzerland"@ {
        "swiss switzerland swiss flag"@
    } else if region == "austria"@ {
        "austrian austria austrian flag"@
    } else if region == "sweden"@ {
        "swedish sweden swedish flag"@
    } else if region == "norway"@ {
        "norwegian norway norwegian flag"@
    } else if region == "denmark"@ {
        "danish denmark danish flag"@
    } else if region == "finland"@ {
        "finnish finland finnish flag"@
    } else if region == "iceland"@ {
        "icelandic iceland icelandic flag"@
    } else if region == "poland"@ {
        "polish poland polish flag"@
    } else if region == "ukraine"@ {
        "ukrainian ukraine ukrainian flag"@
    } else if region == "russia"@ {
        "russian russia russian flag"@
    } else if region == "china"@ {
        "chinese china prc chinese flag"@
    } else if region == "japan"@ {
        "japanese japan japanese flag"@
    } else if region == "south korea"@ {
        "korean korea south korea korean flag"@
    } else if region == "north korea"@ {
        "north korean dprk"@
    } else if region == "india"@ {
        "indian india indian flag"@
    } else if region == "pakistan"@ {
        "pakistani pakistan pakistani flag"@
    } else if region == "bangladesh"@ {
        "bangladeshi bangladesh"@
    } else if region == "indonesia"@ {
        "indonesian indonesia"@
    } else if region == "philippines"@ {
        "filipino philippines pinoy"@
    } else if region == "vietnam"@ {
        "vietnamese vietnam"@
    } else if region == "thailand"@ {
        "thai thailand"@
    } else if region == "malaysia"@ {
        "malaysian malaysia"@
    } else if region == "singapore"@ {
        "singaporean singapore"@
    } else if region == "mexico"@ {
        "mexican mexico mexican flag"@
    } else if region == "brazil"@ {
        "brazilian brazil brazilian flag"@
    } else if region == "argentina"@ {
        "argentinian argentine argentina"@
    } else if region == "chile"@ {
        "chilean chile"@
    } else if region == "colombia"@ {
        "colombian colombia"@
    } else if region == "peru"@ {
        "peruvian peru"@
    } else if region == "venezuela"@ {
        "venezuelan venezuela"@
    } else if region == "cuba"@ {
        "cuban cuba"@
    } else if region == "jamaica"@ {
        "jamaican jamaica"@
    } else if region == "south africa"@ {
        "south african south africa"@
    } else if region == "egypt"@ {
        "egyptian egypt"@
    } else if region == "nigeria"@ {
        "nigerian nigeria"@
    } else if region == "kenya"@ {
        "kenyan kenya"@
    } else if region == "ethiopia"@ {
        "ethiopian ethiopia"@
    } else if region == "ghana"@ {
        "ghanaian ghana"@
    } else if region == "morocco"@ {
        "moroccan morocco"@
    } else if region == "turkey"@ {
        "turkish turkey turkiye"@
    } else if region == "saudi arabia"@ {
        "saudi saudi arabian"@
    } else if region == "united arab emirates"@ {
        "uae emirates emirati"@
    } else if region == "israel"@ {
        "israeli israel"@
    } else if region == "palestine"@ {
        "palestinian palestine"@
    } else if region == "iran"@ {
        "iranian iran persia persian"@
    } else if region == "iraq"@ {
        "iraqi iraq"@
    } else if region == "greece"@ {
        "greek greece hellenic"@
    } else if region == "czech republic"@ || region == "czechia"@ {
        "czech czechia czech republic"@
    } else if region == "slovakia"@ {
        "slovak slovakia"@
    } else if region == "hungary"@ {
        "hungarian hungary"@
    } else if region == "romania"@ {
        "romanian romania"@
    } else if region == "bulgaria"@ {
        "bulgarian bulgaria"@
    } else if region == "serbia"@ {
        "serbian serbia"@
    } else if region == "croatia"@ {
        "croatian croatia"@
    } else if region == "slovenia"@ {
        "slovenian slovenia"@
    } else if region == "bosnia & herzegovina"@ || region == "bosnia and herzegovina"@ {
        "bosnian bosnia"@
    } else if region == "albania"@ {
        "albanian albania"@
    } else if region == "north macedonia"@ || region == "macedonia"@ {
        "macedonian macedonia"@
    } else if region == "georgia"@ {
        "georgian georgia"@
    } else if region == "armenia"@ {
        "armenian armenia"@
    } else if region == "azerbaijan"@ {
        "azerbaijani azerbaijan"@
    } else if region == "kazakhstan"@ {
        "kazakh kazakhstan"@
    } else if region == "uzbekistan"@ {
        "uzbek uzbekistan"@
    } else if region == "taiwan"@ {
        "taiwanese taiwan roc"@
    } else if region == "hong kong"@ {
        "hongkonger hong kong hk"@
    } else if region == "macao"@ || region == "macau"@ {
        "macanese macau macao"@
    } else if region == "puerto rico"@ {
        "puerto rican puerto rico"@
    } else if region == "greenland"@ {
        "greenlandic greenland"@
    } else if region == "antarctica"@ {
        "antarctic antarctica"@
    } else if region == "european union"@ {
        "eu europe european union european"@
    } else if region == "united nations"@ {
        "un united nations"@
    } else {
        ""@
    }
}

fn demonyms_str(region: &[char]) -> (r: &'static str)
    ensures
        r@ == demonyms_spec(region@),
{
    if eq_str(region, "canada") {
        "canadian canada canadian flag"
    } else if eq_str(region, "united states") {
        "usa us america american americans united states of america usa flag american flag"
    } else if eq_str(region, "united kingdom") {
        "uk britain british great britain england gbr united kingdom flag british flag"
    } else if eq_str(region, "england") {
        "english england english flag"
    } else if eq_str(region, "scotland") {
        "scottish scotland scottish flag"
    } else if eq_str(region, "wales") {
        "welsh wales welsh flag"
    } else if eq_str(region, "australia") {
        "australian australia aussie australian flag"
    } else if eq_str(region, "new zealand") {
        "kiwi new zealand nz new zealander"
    } else if eq_str(region, "ireland") {
        "irish ireland irish flag"
    } else if eq_str(region, "france") {
        "french france french flag"
    } else if eq_str(region, "germany") {
        "german germany deutschland german flag"
    } else if eq_str(region, "spain") {
        "spanish spain espanol spanish flag"
    } else if eq_str(region, "italy") {
        "italian italy italian flag"
    } else if eq_str(region, "portugal") {
        "portuguese portugal portuguese flag"
    } else if eq_str(region, "netherlands") {
        "dutch holland netherlands dutch flag"
    } else if eq_str(region, "belgium") {
        "belgian belgium belgian flag"
    } else if eq_str(region, "switzerland") {
        "swiss switzerland swiss flag"
    } else if eq_str(region, "austria") {
        "austrian austria austrian flag"
    } else if eq_str(region, "sweden") {
        "swedish sweden swedish flag"
    } else if eq_str(region, "norway") {
        "norwegian norway norwegian flag"
    } else if eq_str(region, "denmark") {
        "danish denmark danish flag"
    } else if eq_str(region, "finland") {
        "finnish finland finnish flag"
    } else if eq_str(region, "iceland") {
        "icelandic iceland icelandic flag"
    } else if eq_str(region, "poland") {
        "polish poland polish flag"
    } else if eq_str(region, "ukraine") {
        "ukrainian ukraine ukrainian flag"
    } else if eq_str(region, "russia") {
        "russian russia russian flag"
    } else if eq_str(region, "china") {
        "chinese china prc chinese flag"
    } else if eq_str(region, "japan") {
        "japanese japan japanese flag"
    } else if eq_str(region, "south korea") {
        "korean korea south korea korean flag"
    } else if eq_str(region, "north korea") {
        "north korean dprk"
    } else if eq_str(region, "india") {
        "indian india indian flag"
    } else if eq_str(region, "pakistan") {
        "pakistani pakistan pakistani flag"
    } else if eq_str(region, "bangladesh") {
        "bangladeshi bangladesh"
    } else if eq_str(region, "indonesia") {
        "indonesian indonesia"
    } else if eq_str(region, "philippines") {
        "filipino philippines pinoy"
    } else if eq_str(region, "vietnam") {
        "vietnamese vietnam"
    } else if eq_str(region, "thailand") {
        "thai thailand"
    } else if eq_str(region, "malaysia") {
        "malaysian malaysia"
    } else if eq_str(region, "singapore") {
        "singaporean singapore"
    } else if eq_str(region, "mexico") {
        "mexican mexico mexican flag"
    } else if eq_str(region, "brazil") {
        "brazilian brazil brazilian flag"
    } else if eq_str(region, "argentina") {
        "argentinian argentine argentina"
    } else if eq_str(region, "chile") {
        "chilean chile"
    } else if eq_str(region, "colombia") {
        "colombian colombia"
    } else if eq_str(region, "peru") {
        "peruvian peru"
    } else if eq_str(region, "venezuela") {
        "venezuelan venezuela"
    } else if eq_str(region, "cuba") {
        "cuban cuba"
    } else if eq_str(region, "jamaica") {
        "jamaican jamaica"
    } else if eq_str(region, "south africa") {
        "south african south africa"
    } else if eq_str(region, "egypt") {
        "egyptian egypt"
    } else if eq_str(region, "nigeria") {
        "nigerian nigeria"
    } else if eq_str(region, "kenya") {
        "kenyan kenya"
    } else if eq_str(region, "ethiopia") {
        "ethiopian ethiopia"
    } else if eq_str(region, "ghana") {
        "ghanaian ghana"
    } else if eq_str(region, "morocco") {
        "moroccan morocco"
    } else if eq_str(region, "turkey") {
        "turkish turkey turkiye"
    } else if eq_str(region, "saudi arabia") {
        "saudi saudi arabian"
    } else if eq_str(region, "united arab emirates") {
        "uae emirates emirati"
    } else if eq_str(region, "israel") {
        "israeli israel"
    } else if eq_str(region, "palestine") {
        "palestinian palestine"
    } else if eq_str(region, "iran") {
        "iranian iran persia persian"
    } else if eq_str(region, "iraq") {
        "iraqi iraq"
    } else if eq_str(region, "greece") {
        "greek greece hellenic"
    } else if eq_str(region, "czech republic") || eq_str(region, "czechia") {
        "czech czechia czech republic"
    } else if eq_str(region, "slovakia") {
        "slovak slovakia"
    } else if eq_str(region, "hungary") {
        "hungarian hungary"
    } else if eq_str(region, "romania") {
        "romanian romania"
    } else if eq_str(region, "bulgaria") {
        "bulgarian bulgaria"
    } else if eq_str(region, "serbia") {
        "serbian serbia"
    } else if eq_str(region, "croatia") {
        "croatian croatia"
    } else if eq_str(region, "slovenia") {
        "slovenian slovenia"
    } else if eq_str(region, "bosnia & herzegovina") || eq_str(region, "bosnia and herzegovina") {
        "bosnian bosnia"
    } else if eq_str(region, "albania") {
        "albanian albania"
    } else if eq_str(region, "north macedonia") || eq_str(region, "macedonia") {
        "macedonian macedonia"
    } else if eq_str(region, "georgia") {
        "georgian georgia"
    } else if eq_str(region, "armenia") {
        "armenian armenia"
    } else if eq_str(region, "azerbaijan") {
        "azerbaijani azerbaijan"
    } else if eq_str(region, "kazakhstan") {
        "kazakh kazakhstan"
    } else if eq_str(region, "uzbekistan") {
        "uzbek uzbekistan"
    } else if eq_str(region, "taiwan") {
        "taiwanese taiwan roc"
    } else if eq_str(region, "hong kong") {
        "hongkonger hong kong hk"
    } else if eq_str(region, "macao") || eq_str(region, "macau") {
        "macanese macau macao"
    } else if eq_str(region, "puerto rico") {
        "puerto rican puerto rico"
    } else if eq_str(region, "greenland") {
        "greenlandic greenland"
    } else if eq_str(region, "antarctica") {
        "antarctic antarctica"
    } else if eq_str(region, "european union") {
        "eu europe european union european"
    } else if eq_str(region, "united nations") {
        "un united nations"
    } else {
        ""
    }
}

pub fn demonyms_for_region(region: &str) -> (r: String)
    ensures
        r@ == demonyms_spec(region@),
{
    let v = chars_of(region);
    String::from_str(demonyms_str(v.as_slice()))
}

/// Words of a region name worth matching alone: longer than two bytes and
/// not `and` / `the`.
pub open spec fn keep_region_words(ps: Seq<Seq<char>>) -> Seq<Seq<char>>
    decreases ps.len(),
{
    if ps.len() == 0 {
        ps
    } else if utf8_len(ps.last()) > 2 && ps.last() != "and"@ && ps.last() != "the"@ {
        keep_region_words(ps.drop_last()).push(ps.last())
    } else {
        keep_region_words(ps.drop_last())
    }
}

pub open spec fn region_word_seps() -> Seq<char> {
    seq![' ', ',', '-']
}

pub open spec fn region_words(region: Seq<char>) -> Seq<Seq<char>> {
    keep_region_words(trim_each(split_marked(region, marks_in(region, region_word_seps()))))
}

/// Search terms of a country flag named `flag: <region>`.
pub open spec fn country_terms(region: Seq<char>) -> Seq<Seq<char>> {
    let anded = replace_char(region, '&', "and"@);
    seq!["flag"@, region + " flag"@, "flag of "@ + region, region] + region_words(region) + (
    if region.contains('&') {
        seq![anded, anded + " flag"@]
    } else {
        Seq::empty()
    }) + seq![demonyms_spec(region)]
}

/// Extra words for well-known named flags.
pub open spec fn named_flag_extra(n: Seq<char>) -> Seq<Seq<char>> {
    if n == "rainbow flag"@ {
        seq!["pride lgbt lgbtq gay"@]
    } else if n == "transgender flag"@ {
        seq!["trans pride lgbt"@]
    } else if n == "pirate flag"@ {
        seq!["pirate jolly roger"@]
    } else if n == "chequered flag"@ || n == "checkered flag"@ {
        seq!["racing finish race checkered chequered"@]
    } else if n == "triangular flag"@ {
        seq!["red flag warning"@]
    } else if n == "white flag"@ {
        seq!["surrender peace truce"@]
    } else if n == "black flag"@ {
        seq!["pirate anarchist"@]
    } else {
        Seq::empty()
    }
}

fn named_flag_extra_exec(n: &[char]) -> (r: Option<&'static str>)
    ensures
        match r {
            Some(s) => named_flag_extra(n@) == seq![s@],
            None => named_flag_extra(n@) == Seq::<Seq<char>>::empty(),
        },
{
    if eq_str(n, "rainbow flag") {
        Some("pride lgbt lgbtq gay")
    } else if eq_str(n, "transgender flag") {
        Some("trans pride lgbt")
    } else if eq_str(n, "pirate flag") {
        Some("pirate jolly roger")
    } else if eq_str(n, "chequered flag") || eq_str(n, "checkered flag") {
        Some("racing finish race checkered chequered")
    } else if eq_str(n, "triangular flag") {
        Some("red flag warning")
    } else if eq_str(n, "white flag") {
        Some("surrender peace truce")
    } else if eq_str(n, "black flag") {
        Some("pirate anarchist")
    } else {
        None
    }
}

/// Search terms of a named flag such as `rainbow flag` (lowercase name).
pub open spec fn named_terms(n: Seq<char>) -> Seq<Seq<char>> {
    seq!["flag"@, n] + (match strip_suffix(n, " flag"@) {
        Some(base) => seq![base, base + " flag"@],
        None => Seq::empty(),
    }) + named_flag_extra(n)
}

/// Is this entry a flag at all (country flag, flag group or subgroup, or a
/// name mentioning `flag` as a word)?
pub open spec fn is_flag_entry(name_l: Seq<char>, group: Seq<char>, subgroup: Seq<char>) -> bool {
    ||| starts_with(name_l, "flag:"@)
    ||| eq_ignore_ascii_case(group, "Flags"@)
    ||| contains(lower_text(subgroup), "flag"@)
    ||| ends_with(name_l, " flag"@)
    ||| contains(name_l, " flag "@)
}

/// Search keywords for flag emojis: `flag: Canada` gives `canada flag`,
/// `canadian flag`, `canada`, `canadian`, …; `rainbow flag` gives `pride`, ….
/// Empty for entries that are not flags.
pub open spec fn flag_terms_spec(name: Seq<char>, group: Seq<char>, subgroup: Seq<char>) -> Seq<
    char,
> {
    let name_l = lower_text(name);
    if !is_flag_entry(name_l, group, subgroup) {
        Seq::empty()
    } else {
        match strip_prefix(name_l, "flag:"@) {
            Some(rest) => join(country_terms(trim(rest)), " "@),
            None => join(named_terms(name_l), " "@),
        }
    }
}

fn region_words_exec(region: &[char]) -> (r: Vec<Vec<char>>)
    ensures
        views(r@) == region_words(region@),
{
    let seps: Vec<char> = vec![' ', ',', '-'];
    assert(seps@ == region_word_seps());
    let m = set_marks(region, seps.as_slice(), false);
    let pieces = split_at_marks(region, m.as_slice());
    let ts = trim_all(&pieces);
    let ghost tv = views(ts@);
    let mut r: Vec<Vec<char>> = Vec::new();
    for i in 0..ts.len()
        invariant
            tv == views(ts@),
            views(r@) == keep_region_words(tv.take(i as int)),
    {
        assert(tv.take(i + 1).drop_last() == tv.take(i as int));
        assert(tv.take(i + 1).last() == ts@[i as int]@);
        let p = ts[i].as_slice();
        if p.len() <= 1_000_000 && utf8_len_exec(p) > 2 && !eq_str(p, "and") && !eq_str(p, "the") {
            let c = copy_all(p);
            let ghost before = r@;
            r.push(c);
            assert(views(r@) =~= views(before).push(c@));
        } else if p.len() > 1_000_000 {
            proof {
                crate::text::lemma_utf8_len_ge(p@);
                reveal_strlit("and");
                reveal_strlit("the");
            }
            let c = copy_all(p);
            let ghost before = r@;
            r.push(c);
            assert(views(r@) =~= views(before).push(c@));
        }
    }
    assert(tv.take(tv.len() as int) == tv);
    r
}

/// Push `x` onto `v`, keeping the view relation.
fn push_piece(v: &mut Vec<Vec<char>>, x: Vec<char>)
    ensures
        views(final(v)@) == views(old(v)@).push(x@),
{
    let ghost before = v@;
    v.push(x);
    assert(views(v@) =~= views(before).push(x@));
}

/// Build search keywords for flag emojis.
pub fn flag_search_terms(name: &str, group: &str, subgroup: &str) -> (r: String)
    ensures
        r@ == flag_terms_spec(name@, group@, subgroup@),
{
    let name_l = lower_chars(chars_of(name).as_slice());
    let nl = name_l.as_slice();
    let flag_colon = chars_of("flag:");
    let is_country = crate::text::starts_with_exec(nl, flag_colon.as_slice());
    let sub_l = lower_chars(chars_of(subgroup).as_slice());
    let is_group = eq_ignore_case(chars_of(group).as_slice(), chars_of("Flags").as_slice())
        || contains_str(sub_l.as_slice(), "flag") || crate::text::ends_with_exec(
        nl,
        chars_of(" flag").as_slice(),
    ) || contains_str(nl, " flag ");
    if !is_country && !is_group {
        return String::new();
    }
    let mut terms: Vec<Vec<char>> = Vec::new();
    push_piece(&mut terms, chars_of("flag"));
    match strip_prefix_exec(nl, "flag:") {
        Some(rest) => {
            let region = trim_chars(rest.as_slice());
            let rg = region.as_slice();
            let ghost r = region@;
            push_piece(&mut terms, concat(rg, chars_of(" flag").as_slice()));
            push_piece(&mut terms, concat(chars_of("flag of ").as_slice(), rg));
            push_piece(&mut terms, copy_all(rg));
            assert(views(terms@) == seq!["flag"@, r + " flag"@, "flag of "@ + r, r]);
            let words = region_words_exec(rg);
            let ghost t1 = views(terms@);
            for i in 0..words.len()
                invariant
                    views(terms@) == t1 + views(words@).take(i as int),
            {
                let w = copy_all(words[i].as_slice());
                push_piece(&mut terms, w);
                assert(views(words@).take(i + 1) == views(words@).take(i as int).push(words@[i as int]@));
                assert(t1 + views(words@).take(i + 1) == (t1 + views(words@).take(i as int)).push(words@[i as int]@));
            }
            assert(views(words@).take(words@.len() as int) == views(words@));
            let ghost t2 = views(terms@);
            let anded = replace_char_exec(rg, '&', chars_of("and").as_slice());
            if contains_char(rg, '&') {
                push_piece(&mut terms, copy_all(anded.as_slice()));
                push_piece(&mut terms, concat(anded.as_slice(), chars_of(" flag").as_slice()));
                assert(views(terms@) == t2 + seq![anded@, anded@ + " flag"@]);
            } else {
                assert(views(terms@) == t2 + Seq::<Seq<char>>::empty());
            }
            let ghost t3 = views(terms@);
            push_piece(&mut terms, chars_of(demonyms_str(rg)));
            assert(views(terms@) == t3 + seq![demonyms_spec(r)]);
            assert(views(terms@) =~= country_terms(r));
        },
        None => {
            push_piece(&mut terms, copy_all(nl));
            let ghost t1 = views(terms@);
            match strip_suffix_exec(nl, " flag") {
                Some(base) => {
                    push_piece(&mut terms, copy_all(base.as_slice()));
                    push_piece(&mut terms, concat(base.as_slice(), chars_of(" flag").as_slice()));
                    assert(views(terms@) == t1 + seq![base@, base@ + " flag"@]);
                },
                None => {
                    assert(views(terms@) == t1 + Seq::<Seq<char>>::empty());
                },
            }
            let ghost t2 = views(terms@);
            match named_flag_extra_exec(nl) {
                Some(x) => {
                    push_piece(&mut terms, chars_of(x));
                    assert(views(terms@) == t2 + seq![x@]);
                },
                None => {
                    assert(views(terms@) == t2 + Seq::<Seq<char>>::empty());
                },
            }
            assert(views(terms@) =~= named_terms(name_l@));
        },
    }
    let j = join_chars(&terms, chars_of(" ").as_slice());
    string_of(j.as_slice())
}

// ───────────────────────── entries ─────────────────────────

/// The GitHub shortcodes that the emoji table of the `emojis` crate lists for
/// the emoji written `s`, or `None` when the table does not know `s`.
pub uninterp spec fn emoji_shortcodes(s: Seq<char>) -> Option<Seq<Seq<char>>>;

/// `emojis::get(s)` and then `Emoji::shortcodes()`: the lookup is in a
/// static table, so the result is named as a function of `s` alone.
#[verifier::external_body]
fn crate_shortcodes(s: &str) -> (r: Option<Vec<String>>)
    ensures
        match r {
            Some(v) => emoji_shortcodes(s@) == Some(str_views(v@)),
            None => emoji_shortcodes(s@) is None,
        },
{
    emojis::get(s).map(|e| e.shortcodes().map(|c| c.to_string()).collect())
}

/// Shortcodes used for an emoji: those of its exact text, else those of the
/// text without variation selectors.
pub open spec fn shortcodes_for(ch: Seq<char>) -> Seq<Seq<char>> {
    match emoji_shortcodes(ch) {
        Some(v) => v,
        None => match emoji_shortcodes(remove_char(ch, fe0f())) {
            Some(v) => v,
            None => Seq::empty(),
        },
    }
}

/// Does the Unicode name carry a skin-tone qualifier?
pub open spec fn is_skin_tone_name(name: Seq<char>) -> bool {
    contains(lower_text(name), "skin tone"@)
}

/// The pieces of a record's search blob, in order: name, group, subgroup,
/// category, codes, keywords, flag terms (when any), aliases (when any),
/// shortcodes.
pub open spec fn blob_parts(src: EmojiSource, aliases: Aliases, sc: Seq<Seq<char>>) -> Seq<
    Seq<char>,
> {
    let flag = flag_terms_spec(src.name@, src.group@, src.subgroup@);
    seq![src.name@, src.group@, src.subgroup@, src.category@, src.codes@, src.keywords@] + (
    if flag.len() > 0 {
        seq![flag]
    } else {
        Seq::empty()
    }) + (match alias_for_spec(aliases, src.emoji@) {
        Some(a) => seq![a],
        None => Seq::empty(),
    }) + sc
}

/// `e` is the entry built from `src` with aliases `aliases` and shortcodes `sc`.
pub open spec fn entry_of(e: EmojiEntry, src: EmojiSource, aliases: Aliases, sc: Seq<Seq<char>>) -> bool {
    &&& e.ch@ == src.emoji@
    &&& e.name@ == src.name@
    &&& e.group@ == src.group@
    &&& e.is_skin_tone == is_skin_tone_name(src.name@)
    &&& e.keywords@ == lower_text(src.keywords@)
    &&& e.search_blob@ == lower_text(join(blob_parts(src, aliases, sc), " "@))
}

fn push_string(v: &mut Vec<String>, x: String)
    ensures
        str_views(final(v)@) == str_views(old(v)@).push(x@),
{
    let ghost before = v@;
    v.push(x);
    assert(str_views(v@) =~= str_views(before).push(x@));
}

fn skin_tone_name(name: &str) -> (r: bool)
    ensures
        r == is_skin_tone_name(name@),
{
    let l = lower_chars(chars_of(name).as_slice());
    contains_str(l.as_slice(), "skin tone")
}

/// Build the entry of `src` given the shortcodes the emoji table lists for it.
pub fn entry_with_shortcodes(src: EmojiSource, aliases: &Aliases, shortcodes: Vec<String>) -> (r:
    EmojiEntry)
    ensures
        entry_of(r, src, *aliases, str_views(shortcodes@)),
{
    let is_skin_tone = skin_tone_name(src.name.as_str());
    let mut parts: Vec<String> = Vec::new();
    push_string(&mut parts, src.name.clone());
    push_string(&mut parts, src.group.clone());
    push_string(&mut parts, src.subgroup.clone());
    push_string(&mut parts, src.category.clone());
    push_string(&mut parts, src.codes.clone());
    push_string(&mut parts, src.keywords.clone());
    let ghost p0 = str_views(parts@);
    assert(p0 == seq![src.name@, src.group@, src.subgroup@, src.category@, src.codes@, src.keywords@]);
    let flag_bits = flag_search_terms(src.name.as_str(), src.group.as_str(), src.subgroup.as_str());
    let ghost flag = flag_bits@;
    if !flag_bits.as_str().is_empty() {
        push_string(&mut parts, flag_bits);
        assert(str_views(parts@) == p0 + seq![flag]);
    } else {
        assert(str_views(parts@) == p0 + Seq::<Seq<char>>::empty());
    }
    let ghost p1 = str_views(parts@);
    match alias_for(src.emoji.as_str(), aliases) {
        Some(extra) => {
            let ghost a = extra@;
            push_string(&mut parts, extra);
            assert(str_views(parts@) == p1 + seq![a]);
        },
        None => {
            assert(str_views(parts@) == p1 + Seq::<Seq<char>>::empty());
        },
    }
    let ghost p2 = str_views(parts@);
    for i in 0..shortcodes.len()
        invariant
            str_views(parts@) == p2 + str_views(shortcodes@).take(i as int),
    {
        push_string(&mut parts, shortcodes[i].clone());
        assert(str_views(shortcodes@).take(i + 1) == str_views(shortcodes@).take(i as int).push(
            shortcodes@[i as int]@,
        ));
        assert(p2 + str_views(shortcodes@).take(i + 1) == (p2 + str_views(shortcodes@).take(
            i as int,
        )).push(shortcodes@[i as int]@));
    }
    assert(str_views(shortcodes@).take(shortcodes@.len() as int) == str_views(shortcodes@));
    assert(str_views(parts@) =~= blob_parts(src, *aliases, str_views(shortcodes@)));
    let joined = join_strings(&parts, " ");
    let search_blob = to_lowercase(joined.as_str());
    let keywords = to_lowercase(src.keywords.as_str());
    EmojiEntry {
        ch: src.emoji,
        name: src.name,
        group: src.group,
        is_skin_tone,
        keywords,
        search_blob,
    }
}

/// Build the entry of a catalogue record, with the shortcodes of the
/// `emojis` crate.
pub fn to_entry(src: EmojiSource, aliases: &Aliases) -> (r: EmojiEntry)
    ensures
        entry_of(r, src, *aliases, shortcodes_for(src.emoji@)),
{
    let sc = match crate_shortcodes(src.emoji.as_str()) {
        Some(v) => v,
        None => {
            let stripped = strip_fe0f(src.emoji.as_str());
            match crate_shortcodes(stripped.as_str()) {
                Some(v) => v,
                None => Vec::new(),
            }
        },
    };
    proof {
        if emoji_shortcodes(src.emoji@) is None && emoji_shortcodes(remove_char(src.emoji@, fe0f())) is None {
            assert(str_views(sc@) =~= Seq::<Seq<char>>::empty());
        }
    }
    entry_with_shortcodes(src, aliases, sc)
}

/// The records that carry an emoji (non-empty emoji text), in order.
pub open spec fn with_emoji(items: Seq<EmojiSource>) -> Seq<EmojiSource>
    decreases items.len(),
{
    if items.len() == 0 {
        items
    } else if items.last().emoji@.len() > 0 {
        with_emoji(items.drop_last()).push(items.last())
    } else {
        with_emoji(items.drop_last())
    }
}

/// The entries of a parsed catalogue: one per record with a non-empty emoji,
/// in order.
pub fn entries_from_sources(items: &Vec<EmojiSource>, aliases: &Aliases) -> (r: Vec<EmojiEntry>)
    ensures
        r@.len() == with_emoji(items@).len(),
        forall|k: int|
            0 <= k < r@.len() ==> entry_of(
                #[trigger] r@[k],
                with_emoji(items@)[k],
                *aliases,
                shortcodes_for(with_emoji(items@)[k].emoji@),
            ),
{
    let mut r: Vec<EmojiEntry> = Vec::new();
    let ghost all = items@;
    for i in 0..items.len()
        invariant
            all == items@,
            r@.len() == with_emoji(all.take(i as int)).len(),
            forall|k: int|
                0 <= k < r@.len() ==> entry_of(
                    #[trigger] r@[k],
                    with_emoji(all.take(i as int))[k],
                    *aliases,
                    shortcodes_for(with_emoji(all.take(i as int))[k].emoji@),
                ),
    {
        assert(all.take(i + 1).drop_last() == all.take(i as int));
        assert(all.take(i + 1).last() == all[i as int]);
        if !items[i].emoji.as_str().is_empty() {
            let src = copy_source(&items[i]);
            let e = to_entry(src, aliases);
            r.push(e);
        }
    }
    assert(all.take(all.len() as int) == all);
    r
}

fn copy_source(s: &EmojiSource) -> (r: EmojiSource)
    ensures
        r == *s,
{
    EmojiSource {
        codes: s.codes.clone(),
        emoji: s.emoji.clone(),
        name: s.name.clone(),
        category: s.category.clone(),
        group: s.group.clone(),
        subgroup: s.subgroup.clone(),
        keywords: s.keywords.clone(),
    }
}

/// One emoji of the table built into the `emojis` crate.
#[derive(Debug, Clone)]
pub struct CrateEmoji {
    pub ch: String,
    pub name: String,
    pub shortcodes: Vec<String>,
}

/// The first emojis of the `emojis` crate's table, as its documentation of
/// `iter` shows them.
pub open spec fn first_crate_emojis() -> Seq<Seq<char>> {
    seq!["😀"@, "😃"@, "😄"@, "😁"@, "😆"@]
}

/// The table starts with the documented first emojis.
pub open spec fn starts_with_documented(chs: Seq<Seq<char>>) -> bool {
    chs.len() >= 5 && forall|k: int| 0 <= k < 5 ==> #[trigger] chs[k] == first_crate_emojis()[k]
}

pub open spec fn crate_chars(items: Seq<CrateEmoji>) -> Seq<Seq<char>> {
    Seq::new(items.len(), |i: int| items[i].ch@)
}

/// `emojis::iter()`: the emojis of the crate's table (default skin tone
/// only), each with its name and shortcodes. The table is compiled into the
/// crate and never empty; the documentation of `iter` shows its first five
/// emojis (`😀 😃 😄 😁 😆`), and that is all that is stated of it.
#[verifier::external_body]
pub(crate) fn crate_catalogue() -> (r: Vec<CrateEmoji>)
    ensures
        starts_with_documented(crate_chars(r@)),
{
    emojis::iter().map(
        |e: &'static emojis::Emoji|
            CrateEmoji {
                ch: e.as_str().to_string(),
                name: e.name().to_string(),
                shortcodes: e.shortcodes().map(|c| c.to_string()).collect(),
            },
    ).collect()
}

/// `e` is the entry built from an emoji of the crate's table.
pub open spec fn crate_entry_of(e: EmojiEntry, c: CrateEmoji, aliases: Aliases) -> bool {
    let parts = seq![c.name@] + str_views(c.shortcodes@) + (match alias_for_spec(aliases, c.ch@) {
        Some(a) => seq![a],
        None => Seq::empty(),
    });
    &&& e.ch@ == c.ch@
    &&& e.name@ == c.name@
    &&& e.group@.len() == 0
    &&& e.is_skin_tone == is_skin_tone_name(c.name@)
    &&& e.keywords@.len() == 0
    &&& e.search_blob@ == lower_text(join(parts, " "@))
}

/// The entry of one emoji of the crate's table.
pub fn crate_entry(c: &CrateEmoji, aliases: &Aliases) -> (r: EmojiEntry)
    ensures
        crate_entry_of(r, *c, *aliases),
{
    let mut parts: Vec<String> = Vec::new();
    push_string(&mut parts, c.name.clone());
    let ghost p0 = str_views(parts@);
    for i in 0..c.shortcodes.len()
        invariant
            p0 == seq![c.name@],
            str_views(parts@) == p0 + str_views(c.shortcodes@).take(i as int),
    {
        push_string(&mut parts, c.shortcodes[i].clone());
        assert(str_views(c.shortcodes@).take(i + 1) == str_views(c.shortcodes@).take(i as int).push(
            c.shortcodes@[i as int]@,
        ));
        assert(p0 + str_views(c.shortcodes@).take(i + 1) == (p0 + str_views(c.shortcodes@).take(
            i as int,
        )).push(c.shortcodes@[i as int]@));
    }
    assert(str_views(c.shortcodes@).take(c.shortcodes@.len() as int) == str_views(c.shortcodes@));
    let ghost p1 = str_views(parts@);
    match alias_for(c.ch.as_str(), aliases) {
        Some(extra) => {
            let ghost a = extra@;
            push_string(&mut parts, extra);
            assert(str_views(parts@) == p1 + seq![a]);
        },
        None => {
            assert(str_views(parts@) == p1 + Seq::<Seq<char>>::empty());
        },
    }
    let joined = join_strings(&parts, " ");
    EmojiEntry {
        ch: c.ch.clone(),
        name: c.name.clone(),
        group: String::new(),
        is_skin_tone: skin_tone_name(c.name.as_str()),
        keywords: String::new(),
        search_blob: to_lowercase(joined.as_str()),
    }
}

/// The entries of a list of emojis of the crate's table, in order.
pub fn entries_from_crate(items: &Vec<CrateEmoji>, aliases: &Aliases) -> (r: Vec<EmojiEntry>)
    ensures
        r@.len() == items@.len(),
        forall|k: int| 0 <= k < r@.len() ==> crate_entry_of(#[trigger] r@[k], items@[k], *aliases),
{
    let mut r: Vec<EmojiEntry> = Vec::new();
    for i in 0..items.len()
        invariant
            r@.len() == i,
            forall|k: int| 0 <= k < i ==> crate_entry_of(#[trigger] r@[k], items@[k], *aliases),
    {
        r.push(crate_entry(&items[i], aliases));
    }
    r
}

/// `es` are the entries of the emojis `items`, one each, in order.
pub open spec fn crate_entries_of(es: Seq<EmojiEntry>, items: Seq<CrateEmoji>, aliases: Aliases) -> bool {
    es.len() == items.len() && forall|k: int| 0 <= k < es.len() ==> crate_entry_of(#[trigger] es[k], items[k], aliases)
}

pub open spec fn entry_chars(es: Seq<EmojiEntry>) -> Seq<Seq<char>> {
    Seq::new(es.len(), |i: int| es[i].ch@)
}

/// The catalogue built from the table of the `emojis` crate, the last resort
/// when no catalogue file loads: one entry per emoji of the table, in its
/// order, so never empty, and starting with the documented first emojis.
/// Of the rest of the table nothing is stated.
pub fn load_from_crate(aliases: &Aliases) -> (r: Vec<EmojiEntry>)
    ensures
        exists|items: Seq<CrateEmoji>| #[trigger] crate_entries_of(r@, items, *aliases),
        r@.len() > 0,
        starts_with_documented(entry_chars(r@)),
{
    let items = crate_catalogue();
    let r = entries_from_crate(&items, aliases);
    assert(crate_entries_of(r@, items@, *aliases));
    assert forall|k: int| 0 <= k < 5 implies #[trigger] entry_chars(r@)[k] == first_crate_emojis()[k] by {
        assert(crate_entry_of(r@[k], items@[k], *aliases));
        assert(crate_chars(items@)[k] == first_crate_emojis()[k]);
    }
    r
}

// ───────────────────────── choosing the catalogue ─────────────────────────

/// A catalogue that loaded and holds entries.
pub open spec fn usable_catalogue(o: Option<Vec<EmojiEntry>>) -> bool {
    o matches Some(v) && v@.len() > 0
}

/// The first usable catalogue among `cands`, if any.
pub open spec fn first_usable(cands: Seq<Option<Vec<EmojiEntry>>>) -> Option<Seq<EmojiEntry>>
    decreases cands.len(),
{
    if cands.len() == 0 {
        None
    } else if usable_catalogue(cands[0]) {
        Some(cands[0]->0@)
    } else {
        first_usable(cands.drop_first())
    }
}

/// The user's refreshed catalogue is taken when it loaded with entries and
/// its version stamp is given and at least the shipped version.
pub open spec fn user_catalogue_wins(user: Option<(String, Option<Vec<EmojiEntry>>)>, shipped_version: Seq<char>) -> bool {
    match user {
        Some((stamp, parsed)) => stamp@.len() > 0 && version_at_least_spec(stamp@, shipped_version)
            && usable_catalogue(parsed),
        None => false,
    }
}

/// Which catalogue loading uses: the override file, then the user's
/// refreshed catalogue (when [`user_catalogue_wins`]), then the first
/// shipped catalogue that loads with entries, then the crate's table.
pub open spec fn catalogue_choice(
    override_entries: Option<Vec<EmojiEntry>>,
    user: Option<(String, Option<Vec<EmojiEntry>>)>,
    shipped_version: Seq<char>,
    shipped: Seq<Option<Vec<EmojiEntry>>>,
    fallback: Seq<EmojiEntry>,
) -> Seq<EmojiEntry> {
    if usable_catalogue(override_entries) {
        override_entries->0@
    } else if user_catalogue_wins(user, shipped_version) {
        match user {
            Some((_, Some(v))) => v@,
            _ => fallback,
        }
    } else {
        match first_usable(shipped) {
            Some(es) => es,
            None => fallback,
        }
    }
}

/// Choose the catalogue to use, given what each source gave: the override
/// file's entries (when it is set and loaded), the user's catalogue as its
/// trimmed version stamp and entries (when the file exists), the shipped
/// version stamp, the shipped catalogues in order of preference, and the
/// crate's table.
pub fn choose_catalogue(
    override_entries: Option<Vec<EmojiEntry>>,
    user: Option<(String, Option<Vec<EmojiEntry>>)>,
    shipped_version: &str,
    shipped: Vec<Option<Vec<EmojiEntry>>>,
    fallback: Vec<EmojiEntry>,
) -> (r: Vec<EmojiEntry>)
    ensures
        r@ == catalogue_choice(override_entries, user, shipped_version@, shipped@, fallback@),
{
    let ghost want = catalogue_choice(override_entries, user, shipped_version@, shipped@, fallback@);
    if let Some(v) = override_entries {
        if v.len() > 0 {
            return v;
        }
    }
    let ghost u = user;
    if let Some((stamp, parsed)) = user {
        let stamp_chars = chars_of(stamp.as_str());
        if stamp_chars.len() > 0 && version_at_least(stamp.as_str(), shipped_version) {
            if let Some(v) = parsed {
                if v.len() > 0 {
                    return v;
                }
            }
        }
    }
    assert(!user_catalogue_wins(u, shipped_version@));
    let ghost orig = shipped@;
    let mut rest = shipped;
    while rest.len() > 0
        invariant
            want == catalogue_choice(override_entries, user, shipped_version@, shipped@, fallback@),
            first_usable(orig) == first_usable(rest@),
            want == match first_usable(orig) {
                Some(es) => es,
                None => fallback@,
            },
        decreases rest@.len(),
    {
        let ghost before = rest@;
        let c = rest.remove(0);
        assert(rest@ =~= before.drop_first());
        assert(c == before[0]);
        if let Some(v) = c {
            if v.len() > 0 {
                assert(usable_catalogue(before[0]));
                assert(first_usable(before) == Some(v@));
                return v;
            }
        }
        assert(!usable_catalogue(before[0]));
    }
    fallback
}

// ───────────────────────── skin tones and browsing ─────────────────────────

/// The first index from `i` on whose name equals `want`, ignoring ASCII case.
pub open spec fn find_named(all: Seq<EmojiEntry>, want: Seq<char>, i: int) -> Option<int>
    decreases all.len() - i,
{
    if i < 0 || i >= all.len() {
        None
    } else if eq_ignore_ascii_case(all[i].name@, want) {
        Some(i)
    } else {
        find_named(all, want, i + 1)
    }
}

/// The emoji of `base` in skin tone `tone`: the first catalogue entry named
/// `<base name>: <tone> skin tone` (ignoring ASCII case), else `base` itself.
pub open spec fn with_skin_tone_spec(base: EmojiEntry, all: Seq<EmojiEntry>, tone: SkinTone) -> Seq<
    char,
> {
    match tone.spec_name_suffix() {
        None => base.ch@,
        Some(suffix) => match find_named(all, base.name@ + ": "@ + suffix, 0) {
            Some(i) => all[i].ch@,
            None => base.ch@,
        },
    }
}

/// Resolve `base` to the preferred skin-tone form when one exists in the catalogue.
pub fn with_skin_tone(base: &EmojiEntry, all: &[EmojiEntry], tone: SkinTone) -> (r: String)
    ensures
        r@ == with_skin_tone_spec(*base, all@, tone),
{
    let suffix = match tone.name_suffix() {
        None => return base.ch.clone(),
        Some(x) => x,
    };
    let want = cat3(chars_of(base.name.as_str()).as_slice(), ": ", chars_of(suffix).as_slice());
    let mut i: usize = 0;
    while i < all.len()
        invariant
            i <= all@.len(),
            want@ == base.name@ + ": "@ + suffix@,
            tone.spec_name_suffix() == Some(suffix@),
            find_named(all@, want@, 0) == find_named(all@, want@, i as int),
        decreases all@.len() - i,
    {
        if eq_ignore_case(chars_of(all[i].name.as_str()).as_slice(), want.as_slice()) {
            return all[i].ch.clone();
        }
        i = i + 1;
    }
    base.ch.clone()
}

/// The entries that pass `keep`, at most `limit` of them but at least one
/// when any passes (the count is checked after each addition).
pub open spec fn take_at_least_one<T>(s: Seq<T>, limit: nat) -> Seq<T> {
    let n = if limit == 0 { 1 } else { limit };
    if s.len() <= n { s } else { s.take(n as int) }
}

/// The entries that are not skin-tone variants, in order.
pub open spec fn default_skin(all: Seq<EmojiEntry>) -> Seq<EmojiEntry>
    decreases all.len(),
{
    if all.len() == 0 {
        all
    } else if !all.last().is_skin_tone {
        default_skin(all.drop_last()).push(all.last())
    } else {
        default_skin(all.drop_last())
    }
}

proof fn lemma_default_skin_take(all: Seq<EmojiEntry>, i: int)
    requires
        0 <= i < all.len(),
    ensures
        default_skin(all.take(i + 1)) == if all[i].is_skin_tone {
            default_skin(all.take(i))
        } else {
            default_skin(all.take(i)).push(all[i])
        },
{
    assert(all.take(i + 1).drop_last() == all.take(i));
    assert(all.take(i + 1).last() == all[i]);
}

/// Browse helper: default-skin entries (no tone in the name), catalogue
/// order.
pub fn browse_default_skin<'a>(all: &'a [EmojiEntry], limit: usize) -> (r: Vec<&'a EmojiEntry>)
    ensures
        r@.len() == take_at_least_one(default_skin(all@), limit as nat).len(),
        forall|k: int|
            0 <= k < r@.len() ==> *r@[k] == take_at_least_one(default_skin(all@), limit as nat)[k],
{
    let ghost n: nat = if limit == 0 { 1 } else { limit as nat };
    let mut out: Vec<&'a EmojiEntry> = Vec::new();
    let mut i: usize = 0;
    while i < all.len()
        invariant
            i <= all@.len(),
            n == (if limit == 0 { 1 } else { limit as nat }),
            out@.len() < n,
            out@.len() == default_skin(all@.take(i as int)).len(),
            forall|k: int| 0 <= k < out@.len() ==> *out@[k] == default_skin(all@.take(i as int))[k],
        decreases all@.len() - i,
    {
        proof {
            lemma_default_skin_take(all@, i as int);
        }
        if !all[i].is_skin_tone {
            out.push(&all[i]);
            if out.len() >= limit {
                proof {
                    lemma_default_skin_prefix(all@, i + 1);
                    let d = default_skin(all@);
                    assert(out@.len() == n);
                    assert(d.take(n as int) == default_skin(all@.take(i + 1)));
                    assert(take_at_least_one(d, limit as nat) == d.take(n as int));
                }
                return out;
            }
        }
        i = i + 1;
    }
    assert(all@.take(all@.len() as int) == all@);
    out
}

proof fn lemma_default_skin_prefix(all: Seq<EmojiEntry>, j: int)
    requires
        0 <= j <= all.len(),
    ensures
        default_skin(all.take(j)).len() <= default_skin(all).len(),
        default_skin(all).take(default_skin(all.take(j)).len() as int) == default_skin(all.take(j)),
    decreases all.len() - j,
{
    if j < all.len() {
        lemma_default_skin_prefix(all, j + 1);
        lemma_default_skin_take(all, j);
        let a = default_skin(all.take(j));
        let b = default_skin(all.take(j + 1));
        assert(b.take(a.len() as int) == a);
        assert(default_skin(all).take(a.len() as int) == b.take(a.len() as int));
    } else {
        assert(all.take(j) == all);
    }
}

/// Is `e` listed under group `g` (ignoring ASCII case), leaving out
/// skin-tone variants when `default_skin_only`?
pub open spec fn in_group(e: EmojiEntry, g: Seq<char>, default_skin_only: bool) -> bool {
    eq_ignore_ascii_case(e.group@, g) && !(default_skin_only && e.is_skin_tone)
}

/// The entries of group `g`, in catalogue order.
pub open spec fn group_members(all: Seq<EmojiEntry>, g: Seq<char>, default_skin_only: bool) -> Seq<
    EmojiEntry,
>
    decreases all.len(),
{
    if all.len() == 0 {
        all
    } else if in_group(all.last(), g, default_skin_only) {
        group_members(all.drop_last(), g, default_skin_only).push(all.last())
    } else {
        group_members(all.drop_last(), g, default_skin_only)
    }
}

proof fn lemma_group_take(all: Seq<EmojiEntry>, g: Seq<char>, d: bool, i: int)
    requires
        0 <= i < all.len(),
    ensures
        group_members(all.take(i + 1), g, d) == if in_group(all[i], g, d) {
            group_members(all.take(i), g, d).push(all[i])
        } else {
            group_members(all.take(i), g, d)
        },
{
    assert(all.take(i + 1).drop_last() == all.take(i));
    assert(all.take(i + 1).last() == all[i]);
}

proof fn lemma_group_prefix(all: Seq<EmojiEntry>, g: Seq<char>, d: bool, j: int)
    requires
        0 <= j <= all.len(),
    ensures
        group_members(all.take(j), g, d).len() <= group_members(all, g, d).len(),
        group_members(all, g, d).take(group_members(all.take(j), g, d).len() as int)
            == group_members(all.take(j), g, d),
    decreases all.len() - j,
{
    if j < all.len() {
        lemma_group_prefix(all, g, d, j + 1);
        lemma_group_take(all, g, d, j);
        let a = group_members(all.take(j), g, d);
        let b = group_members(all.take(j + 1), g, d);
        assert(b.take(a.len() as int) == a);
        assert(group_members(all, g, d).take(a.len() as int) == b.take(a.len() as int));
    } else {
        assert(all.take(j) == all);
    }
}

/// Filter by Unicode group name (exact match, case-insensitive).
pub fn by_group<'a>(all: &'a [EmojiEntry], group: &str, default_skin_only: bool, limit: usize) -> (r:
    Vec<&'a EmojiEntry>)
    ensures
        r@.len() == take_at_least_one(
            group_members(all@, group@, default_skin_only),
            limit as nat,
        ).len(),
        forall|k: int|
            0 <= k < r@.len() ==> *r@[k] == take_at_least_one(
                group_members(all@, group@, default_skin_only),
                limit as nat,
            )[k],
{
    let ghost n: nat = if limit == 0 { 1 } else { limit as nat };
    let ghost g = group@;
    let gc = chars_of(group);
    let mut out: Vec<&'a EmojiEntry> = Vec::new();
    let mut i: usize = 0;
    while i < all.len()
        invariant
            i <= all@.len(),
            g == group@,
            gc@ == g,
            n == (if limit == 0 { 1 } else { limit as nat }),
            out@.len() < n,
            out@.len() == group_members(all@.take(i as int), g, default_skin_only).len(),
            forall|k: int|
                0 <= k < out@.len() ==> *out@[k] == group_members(
                    all@.take(i as int),
                    g,
                    default_skin_only,
                )[k],
        decreases all@.len() - i,
    {
        proof {
            lemma_group_take(all@, g, default_skin_only, i as int);
        }
        let same = eq_ignore_case(chars_of(all[i].group.as_str()).as_slice(), gc.as_slice());
        if same && !(default_skin_only && all[i].is_skin_tone) {
            out.push(&all[i]);
            if out.len() >= limit {
                proof {
                    lemma_group_prefix(all@, g, default_skin_only, i + 1);
                    let d = group_members(all@, g, default_skin_only);
                    assert(out@.len() == n);
                    assert(d.take(n as int) == group_members(all@.take(i + 1), g, default_skin_only));
                    assert(take_at_least_one(d, limit as nat) == d.take(n as int));
                }
                return out;
            }
        }
        i = i + 1;
    }
    assert(all@.take(all@.len() as int) == all@);
    out
}

// ───────────────────────── ranking ─────────────────────────

/// A query word that asks for skin-tone variants.
pub open spec fn is_tone_word(w: Seq<char>) -> bool {
    ||| w == "skin"@
    ||| w == "tone"@
    ||| w == "light"@
    ||| w == "medium"@
    ||| w == "dark"@
    ||| w == "medium-light"@
    ||| w == "medium-dark"@
    ||| contains(w, "skin"@)
}

/// Does the query ask for skin-tone variants?
pub open spec fn wants_tone(words: Seq<Seq<char>>) -> bool {
    exists|i: int| 0 <= i < words.len() && is_tone_word(#[trigger] words[i])
}

/// Separators of name tokens: anything not alphanumeric other than `+`.
pub open spec fn token_marks(s: Seq<char>) -> Seq<bool> {
    Seq::new(s.len(), |i: int| !alphanumeric(s[i]) && s[i] != '+')
}

/// The words of an emoji name (`thumbs up: medium skin tone` gives
/// `thumbs`, `up`, `medium`, `skin`, `tone`).
pub open spec fn name_tokens(name: Seq<char>) -> Seq<Seq<char>> {
    keep_nonempty(split_marked(name, token_marks(name)))
}

/// Some token of the name is `w` or starts with `w`.
pub open spec fn word_in_tokens(w: Seq<char>, toks: Seq<Seq<char>>) -> bool {
    exists|j: int| 0 <= j < toks.len() && (#[trigger] toks[j] == w || starts_with(toks[j], w))
}

/// How many of the first `n` query words hit a name token.
pub open spec fn name_word_hits(words: Seq<Seq<char>>, toks: Seq<Seq<char>>, n: int) -> int
    decreases n,
{
    if n <= 0 {
        0
    } else {
        name_word_hits(words, toks, n - 1) + if word_in_tokens(words[n - 1], toks) {
            1int
        } else {
            0int
        }
    }
}

/// The first keyword token from `k` on that is `w`, or is `w` once its
/// underscores are dropped.
pub open spec fn kw_pos(kwt: Seq<Seq<char>>, w: Seq<char>, k: int) -> Option<int>
    decreases kwt.len() - k,
{
    if k < 0 || k >= kwt.len() {
        None
    } else if kwt[k] == w || remove_char(kwt[k], '_') == w {
        Some(k)
    } else {
        kw_pos(kwt, w, k + 1)
    }
}

/// What the `i`-th query word `w` adds for the keywords: early keyword
/// tokens score higher, the first word more so; a plain substring hit a little.
pub open spec fn word_keyword_score(i: int, w: Seq<char>, kwt: Seq<Seq<char>>, kw: Seq<char>) -> int {
    match kw_pos(kwt, w, 0) {
        Some(p) => 55 - (if p < 20 {
            p
        } else {
            20
        }) + (if i == 0 && p < 5 {
            25int
        } else {
            0int
        }),
        None => if contains(kw, w) {
            8
        } else {
            0
        },
    }
}

pub open spec fn keyword_sum(words: Seq<Seq<char>>, kwt: Seq<Seq<char>>, kw: Seq<char>, n: int) -> int
    decreases n,
{
    if n <= 0 {
        0
    } else {
        keyword_sum(words, kwt, kw, n - 1) + word_keyword_score(n - 1, words[n - 1], kwt, kw)
    }
}

/// Some query word occurs in the flag's region name or is a keyword token.
pub open spec fn flag_word_hit(words: Seq<Seq<char>>, region: Seq<char>, kwt: Seq<Seq<char>>) -> bool {
    exists|i: int|
        0 <= i < words.len() && (contains(region, #[trigger] words[i]) || kwt.contains(words[i]))
}

pub open spec fn min40(n: nat) -> int {
    if n < 40 {
        n as int
    } else {
        40
    }
}

/// Skin-tone part of the score: variants lose unless asked for, plain
/// glyphs gain.
pub open spec fn base_part(e: EmojiEntry, words: Seq<Seq<char>>) -> int {
    if e.is_skin_tone && !wants_tone(words) {
        -50
    } else if !e.is_skin_tone {
        10
    } else {
        0
    }
}

/// The whole query against the lowercase name: equal, prefix, substring.
pub open spec fn exact_part(name: Seq<char>, q: Seq<char>) -> int {
    if name == q {
        200
    } else if starts_with(name, q) {
        120
    } else if contains(name, q) {
        80
    } else {
        0
    }
}

/// Keyword part: the sum over query words when the entry has keywords.
pub open spec fn keyword_part(e: EmojiEntry, words: Seq<Seq<char>>) -> int {
    let kw = e.keywords@;
    if kw.len() == 0 {
        0
    } else {
        keyword_sum(words, split_ws(kw), kw, words.len() as int)
    }
}

/// Shorter names gain up to 10.
pub open spec fn short_part(name: Seq<char>) -> int {
    (40 - min40(utf8_len(name))) / 4
}

/// The region of a `flag: <region>` name, else empty.
pub open spec fn flag_region(name: Seq<char>) -> Seq<char> {
    match strip_prefix(name, "flag: "@) {
        Some(r) => r,
        None => Seq::empty(),
    }
}

/// Flags gain when a query word names the region or is one of its keywords.
pub open spec fn flag_part(e: EmojiEntry, name: Seq<char>, words: Seq<Seq<char>>, hits: int) -> int {
    if eq_ignore_ascii_case(e.group@, "Flags"@) && hits + words.len() > 0 && flag_word_hit(
        words,
        flag_region(name),
        split_ws(e.keywords@),
    ) {
        35
    } else {
        0
    }
}

/// The ranking score of entry `e` for query words `words` and lowercase
/// query `q` (higher is better).
pub open spec fn match_score_spec(e: EmojiEntry, words: Seq<Seq<char>>, q: Seq<char>) -> int {
    let name = lower_text(e.name@);
    if q.len() == 0 {
        base_part(e, words)
    } else {
        let hits = name_word_hits(words, name_tokens(name), words.len() as int);
        base_part(e, words) + exact_part(name, q) + 45 * hits + keyword_part(e, words) + short_part(
            name,
        ) + flag_part(e, name, words, hits)
    }
}

fn is_tone_word_exec(w: &[char]) -> (r: bool)
    ensures
        r == is_tone_word(w@),
{
    eq_str(w, "skin") || eq_str(w, "tone") || eq_str(w, "light") || eq_str(w, "medium") || eq_str(
        w,
        "dark",
    ) || eq_str(w, "medium-light") || eq_str(w, "medium-dark") || contains_str(w, "skin")
}

fn wants_tone_exec(words: &Vec<Vec<char>>) -> (r: bool)
    ensures
        r == wants_tone(views(words@)),
{
    for i in 0..words.len()
        invariant
            forall|k: int| 0 <= k < i ==> !is_tone_word(#[trigger] views(words@)[k]),
    {
        if is_tone_word_exec(words[i].as_slice()) {
            assert(is_tone_word(views(words@)[i as int]));
            return true;
        }
    }
    false
}

fn token_marks_exec(v: &[char]) -> (m: Vec<bool>)
    ensures
        m@ == token_marks(v@),
{
    let mut m: Vec<bool> = Vec::new();
    for i in 0..v.len()
        invariant
            m@ == token_marks(v@.take(i as int)),
    {
        let c = v[i];
        m.push(!char_is_alphanumeric(c) && c != '+');
        assert(m@ =~= token_marks(v@.take(i + 1)));
    }
    assert(v@.take(v@.len() as int) == v@);
    m
}

fn name_tokens_exec(name: &[char]) -> (r: Vec<Vec<char>>)
    ensures
        views(r@) == name_tokens(name@),
{
    let m = token_marks_exec(name);
    let parts = split_at_marks(name, m.as_slice());
    drop_empty(&parts)
}

fn word_in_tokens_exec(w: &[char], toks: &Vec<Vec<char>>) -> (r: bool)
    ensures
        r == word_in_tokens(w@, views(toks@)),
{
    for j in 0..toks.len()
        invariant
            forall|k: int|
                0 <= k < j ==> !(#[trigger] views(toks@)[k] == w@ || starts_with(
                    views(toks@)[k],
                    w@,
                )),
    {
        if eq(toks[j].as_slice(), w) || crate::text::starts_with_exec(toks[j].as_slice(), w) {
            assert(views(toks@)[j as int] == toks@[j as int]@);
            return true;
        }
    }
    false
}

proof fn lemma_hits_bounds(words: Seq<Seq<char>>, toks: Seq<Seq<char>>, n: int)
    requires
        0 <= n,
    ensures
        0 <= name_word_hits(words, toks, n) <= n,
    decreases n,
{
    if n > 0 {
        lemma_hits_bounds(words, toks, n - 1);
    }
}

fn name_word_hits_exec(words: &Vec<Vec<char>>, toks: &Vec<Vec<char>>) -> (r: usize)
    ensures
        r == name_word_hits(views(words@), views(toks@), words@.len() as int),
{
    let mut n: usize = 0;
    for i in 0..words.len()
        invariant
            n == name_word_hits(views(words@), views(toks@), i as int),
            n <= i,
    {
        proof {
            lemma_hits_bounds(views(words@), views(toks@), i as int);
        }
        if word_in_tokens_exec(words[i].as_slice(), toks) {
            n = n + 1;
        }
    }
    n
}

proof fn lemma_kw_pos_range(kwt: Seq<Seq<char>>, w: Seq<char>, k: int)
    requires
        0 <= k,
    ensures
        kw_pos(kwt, w, k) matches Some(p) ==> k <= p < kwt.len(),
    decreases kwt.len() - k,
{
    if k < kwt.len() {
        lemma_kw_pos_range(kwt, w, k + 1);
    }
}

fn kw_pos_exec(kwt: &Vec<Vec<char>>, w: &[char]) -> (r: Option<usize>)
    ensures
        match r {
            Some(p) => kw_pos(views(kwt@), w@, 0) == Some(p as int),
            None => kw_pos(views(kwt@), w@, 0) is None,
        },
{
    let ghost t = views(kwt@);
    let mut k: usize = 0;
    while k < kwt.len()
        invariant
            t == views(kwt@),
            k <= kwt@.len(),
            kw_pos(t, w@, 0) == kw_pos(t, w@, k as int),
        decreases kwt@.len() - k,
    {
        let tk = kwt[k].as_slice();
        if eq(tk, w) || eq(remove_char_exec(tk, '_').as_slice(), w) {
            return Some(k);
        }
        k = k + 1;
    }
    None
}

proof fn lemma_keyword_sum_bounds(words: Seq<Seq<char>>, kwt: Seq<Seq<char>>, kw: Seq<char>, n: int)
    requires
        0 <= n,
    ensures
        0 <= keyword_sum(words, kwt, kw, n) <= 80 * n,
    decreases n,
{
    if n > 0 {
        lemma_keyword_sum_bounds(words, kwt, kw, n - 1);
        lemma_kw_pos_range(kwt, words[n - 1], 0);
    }
}

fn keyword_sum_exec(words: &Vec<Vec<char>>, kwt: &Vec<Vec<char>>, kw: &[char]) -> (r: i128)
    ensures
        r == keyword_sum(views(words@), views(kwt@), kw@, words@.len() as int),
{
    let mut total: i128 = 0;
    for i in 0..words.len()
        invariant
            total == keyword_sum(views(words@), views(kwt@), kw@, i as int),
            0 <= total <= 80 * i,
    {
        proof {
            lemma_keyword_sum_bounds(views(words@), views(kwt@), kw@, i + 1);
            lemma_kw_pos_range(views(kwt@), words@[i as int]@, 0);
        }
        let w = words[i].as_slice();
        let add: i128 = match kw_pos_exec(kwt, w) {
            Some(p) => {
                let capped: i128 = if p < 20 {
                    p as i128
                } else {
                    20
                };
                let first: i128 = if i == 0 && p < 5 {
                    25
                } else {
                    0
                };
                55 - capped + first
            },
            None => if contains_exec(kw, w) {
                8
            } else {
                0
            },
        };
        total = total + add;
    }
    total
}

fn flag_word_hit_exec(words: &Vec<Vec<char>>, region: &[char], kwt: &Vec<Vec<char>>) -> (r: bool)
    ensures
        r == flag_word_hit(views(words@), region@, views(kwt@)),
{
    for i in 0..words.len()
        invariant
            forall|k: int|
                0 <= k < i ==> !(contains(region@, #[trigger] views(words@)[k]) || views(
                    kwt@,
                ).contains(views(words@)[k])),
    {
        let w = words[i].as_slice();
        let mut in_kw = false;
        for j in 0..kwt.len()
            invariant
                !in_kw ==> forall|k: int| 0 <= k < j ==> views(kwt@)[k] != w@,
                in_kw ==> views(kwt@).contains(w@),
        {
            if eq(kwt[j].as_slice(), w) {
                assert(views(kwt@)[j as int] == w@);
                in_kw = true;
            }
        }
        if contains_exec(region, w) || in_kw {
            assert(views(words@)[i as int] == w@);
            return true;
        }
    }
    false
}

fn base_score(e: &EmojiEntry, words: &Vec<Vec<char>>) -> (r: i128)
    ensures
        r == base_part(*e, views(words@)),
{
    let wants = wants_tone_exec(words);
    if e.is_skin_tone && !wants {
        -50
    } else if !e.is_skin_tone {
        10
    } else {
        0
    }
}

fn exact_score(nl: &[char], q: &[char]) -> (r: i128)
    ensures
        r == exact_part(nl@, q@),
{
    if eq(nl, q) {
        200
    } else if crate::text::starts_with_exec(nl, q) {
        120
    } else if contains_exec(nl, q) {
        80
    } else {
        0
    }
}

fn short_score(nl: &[char]) -> (r: i128)
    ensures
        r == short_part(nl@),
{
    let capped: usize = if nl.len() >= 40 {
        proof {
            crate::text::lemma_utf8_len_ge(nl@);
        }
        40
    } else {
        let b = utf8_len_exec(nl);
        if b > 40 {
            40
        } else {
            b
        }
    };
    ((40 - capped) / 4) as i128
}

fn keyword_score(e: &EmojiEntry, words: &Vec<Vec<char>>) -> (r: i128)
    ensures
        r == keyword_part(*e, views(words@)),
        0 <= r <= 80 * words@.len(),
{
    let kw = chars_of(e.keywords.as_str());
    if kw.len() == 0 {
        return 0;
    }
    let kwt = split_whitespace(kw.as_slice());
    let ks = keyword_sum_exec(words, &kwt, kw.as_slice());
    proof {
        lemma_keyword_sum_bounds(views(words@), views(kwt@), kw@, words@.len() as int);
    }
    ks
}

fn flag_score(e: &EmojiEntry, nl: &[char], words: &Vec<Vec<char>>, hits: usize) -> (r: i128)
    ensures
        r == flag_part(*e, nl@, views(words@), hits as int),
{
    let kw = chars_of(e.keywords.as_str());
    let kwt = split_whitespace(kw.as_slice());
    let region = match strip_prefix_exec(nl, "flag: ") {
        Some(r) => r,
        None => Vec::new(),
    };
    assert(region@ == flag_region(nl@));
    if eq_ignore_case(chars_of(e.group.as_str()).as_slice(), chars_of("Flags").as_slice()) && (hits
        > 0 || words.len() > 0) && flag_word_hit_exec(words, region.as_slice(), &kwt) {
        35
    } else {
        0
    }
}

/// Score a match for ranking (higher is better).
pub fn match_score(e: &EmojiEntry, words: &Vec<Vec<char>>, query: &[char]) -> (r: i128)
    ensures
        r == match_score_spec(*e, views(words@), query@),
{
    let nw = words.len();
    let base = base_score(e, words);
    if query.len() == 0 {
        return base;
    }
    let name = lower_chars(chars_of(e.name.as_str()).as_slice());
    let nl = name.as_slice();
    let exact = exact_score(nl, query);
    let toks = name_tokens_exec(nl);
    let hits = name_word_hits_exec(words, &toks);
    proof {
        lemma_hits_bounds(views(words@), name_tokens(name@), nw as int);
    }
    let kws = keyword_score(e, words);
    let short = short_score(nl);
    let flag = flag_score(e, nl, words, hits);
    assert(0 <= short <= 10);
    assert(0 <= flag <= 35);
    base + exact + 45 * (hits as i128) + kws + short + flag
}

// ───────────────────────── filtering ─────────────────────────

/// The query as matched: trimmed and lowercased.
pub open spec fn query_text(query: Seq<char>) -> Seq<char> {
    lower_text(trim(query))
}

/// The whitespace-separated words of the query.
pub open spec fn query_words(query: Seq<char>) -> Seq<Seq<char>> {
    split_ws(query_text(query))
}

/// Every query word occurs in the search blob.
pub open spec fn all_words_in(blob: Seq<char>, words: Seq<Seq<char>>) -> bool {
    words.len() == 0 || forall|i: int| 0 <= i < words.len() ==> contains(blob, #[trigger] words[i])
}

/// Entry `e` is a hit: shown (not a hidden skin-tone variant) and holding
/// every query word.
pub open spec fn is_candidate(e: EmojiEntry, words: Seq<Seq<char>>, show_tones: bool) -> bool {
    !(e.is_skin_tone && !show_tones) && all_words_in(e.search_blob@, words)
}

/// Ranking order on (score, catalogue index): higher score first, then
/// lower index.
pub open spec fn better(a: (int, int), b: (int, int)) -> bool {
    a.0 > b.0 || (a.0 == b.0 && a.1 < b.1)
}

/// Where `x` goes in the ranked list `s`, looking from `k`: before the first
/// element it ranks above, else at the end.
pub open spec fn rank_pos(s: Seq<(int, int)>, x: (int, int), k: int) -> int
    decreases s.len() - k,
{
    if k < 0 || k >= s.len() {
        s.len() as int
    } else if better(x, s[k]) {
        k
    } else {
        rank_pos(s, x, k + 1)
    }
}

pub open spec fn insert_ranked(s: Seq<(int, int)>, x: (int, int)) -> Seq<(int, int)> {
    s.insert(rank_pos(s, x, 0), x)
}

/// The hits among the first `n` entries with their scores, ranked.
pub open spec fn ranked(
    all: Seq<EmojiEntry>,
    words: Seq<Seq<char>>,
    q: Seq<char>,
    show_tones: bool,
    n: int,
) -> Seq<(int, int)>
    decreases n,
{
    if n <= 0 || n > all.len() {
        Seq::empty()
    } else {
        let prev = ranked(all, words, q, show_tones, n - 1);
        if is_candidate(all[n - 1], words, show_tones) {
            insert_ranked(prev, (match_score_spec(all[n - 1], words, q), n - 1))
        } else {
            prev
        }
    }
}

/// At most the first `n` elements.
pub open spec fn trunc<T>(s: Seq<T>, n: nat) -> Seq<T> {
    if s.len() <= n {
        s
    } else {
        s.take(n as int)
    }
}

/// The catalogue indices `filter_opts` returns, best first.
pub open spec fn filter_ranking(all: Seq<EmojiEntry>, query: Seq<char>, limit: nat, include_skin_tones: bool) -> Seq<int> {
    let q = query_text(query);
    let words = split_ws(q);
    let show = include_skin_tones || wants_tone(words);
    let r = trunc(ranked(all, words, q, show, all.len() as int), limit);
    Seq::new(r.len(), |k: int| r[k].1)
}

proof fn lemma_rank_pos_range(s: Seq<(int, int)>, x: (int, int), k: int)
    requires
        0 <= k <= s.len(),
    ensures
        k <= rank_pos(s, x, k) <= s.len(),
    decreases s.len() - k,
{
    if k < s.len() {
        lemma_rank_pos_range(s, x, k + 1);
    }
}

proof fn lemma_rank_pos_prefix(s: Seq<(int, int)>, x: (int, int), m: int, k: int)
    requires
        0 <= k <= m <= s.len(),
    ensures
        rank_pos(s.take(m), x, k) == if rank_pos(s, x, k) < m {
            rank_pos(s, x, k)
        } else {
            m
        },
    decreases m - k,
{
    lemma_rank_pos_range(s, x, k);
    if k < m {
        lemma_rank_pos_prefix(s, x, m, k + 1);
        assert(s.take(m)[k] == s[k]);
    }
}

/// Ranking then truncating keeps the same top entries as truncating first.
proof fn lemma_trunc_insert(s: Seq<(int, int)>, x: (int, int), n: nat)
    ensures
        trunc(insert_ranked(s, x), n) == trunc(insert_ranked(trunc(s, n), x), n),
{
    if s.len() > n {
        let p = rank_pos(s, x, 0);
        let t = s.take(n as int);
        lemma_rank_pos_range(s, x, 0);
        lemma_rank_pos_prefix(s, x, n as int, 0);
        let pt = rank_pos(t, x, 0);
        if p < n {
            assert(pt == p);
            assert(trunc(s.insert(p, x), n) =~= trunc(t.insert(p, x), n));
        } else {
            assert(pt == n);
            assert(trunc(s.insert(p, x), n) =~= t);
            assert(trunc(t.insert(pt, x), n) =~= t);
        }
    }
}

proof fn lemma_ranked_indices(all: Seq<EmojiEntry>, words: Seq<Seq<char>>, q: Seq<char>, show: bool, n: int)
    requires
        0 <= n <= all.len(),
    ensures
        forall|k: int|
            0 <= k < ranked(all, words, q, show, n).len() ==> 0 <= #[trigger] ranked(
                all,
                words,
                q,
                show,
                n,
            )[k].1 < n,
    decreases n,
{
    if n > 0 {
        lemma_ranked_indices(all, words, q, show, n - 1);
        let prev = ranked(all, words, q, show, n - 1);
        if is_candidate(all[n - 1], words, show) {
            let x = (match_score_spec(all[n - 1], words, q), n - 1);
            let p = rank_pos(prev, x, 0);
            lemma_rank_pos_range(prev, x, 0);
            prev.insert_ensures(p, x);
            assert forall|k: int|
                0 <= k < ranked(all, words, q, show, n).len() implies 0 <= #[trigger] ranked(
                all,
                words,
                q,
                show,
                n,
            )[k].1 < n by {
                if k > p {
                    assert(prev.insert(p, x)[(k - 1) + 1] == prev[k - 1]);
                }
            }
        }
    }
}

pub open spec fn key_view(s: Seq<(i128, usize)>) -> Seq<(int, int)> {
    Seq::new(s.len(), |k: int| (s[k].0 as int, s[k].1 as int))
}

fn rank_pos_exec(top: &Vec<(i128, usize)>, x: (i128, usize)) -> (r: usize)
    ensures
        r == rank_pos(key_view(top@), (x.0 as int, x.1 as int), 0),
{
    let ghost t = key_view(top@);
    let ghost xk = (x.0 as int, x.1 as int);
    let mut k: usize = 0;
    while k < top.len()
        invariant
            t == key_view(top@),
            xk == (x.0 as int, x.1 as int),
            k <= top@.len(),
            rank_pos(t, xk, 0) == rank_pos(t, xk, k as int),
        decreases top@.len() - k,
    {
        let (s, i) = top[k];
        if x.0 > s || (x.0 == s && x.1 < i) {
            return k;
        }
        k = k + 1;
    }
    k
}

fn all_words_in_exec(blob: &[char], words: &Vec<Vec<char>>) -> (r: bool)
    ensures
        r == all_words_in(blob@, views(words@)),
{
    for i in 0..words.len()
        invariant
            forall|k: int| 0 <= k < i ==> contains(blob@, #[trigger] views(words@)[k]),
    {
        if !contains_exec(blob, words[i].as_slice()) {
            assert(!contains(blob@, views(words@)[i as int]));
            return false;
        }
    }
    true
}

/// `r` lists the entries of `all` at indices `idx`, in order.
pub open spec fn picks(r: Seq<&EmojiEntry>, all: Seq<EmojiEntry>, idx: Seq<int>) -> bool {
    &&& r.len() == idx.len()
    &&& forall|k: int| 0 <= k < r.len() ==> 0 <= #[trigger] idx[k] < all.len() && *r[k] == all[idx[k]]
}

/// `r` lists the entries of `s`, in order.
pub open spec fn lists_entries(r: Seq<&EmojiEntry>, s: Seq<EmojiEntry>) -> bool {
    r.len() == s.len() && forall|k: int| 0 <= k < r.len() ==> *r[k] == #[trigger] s[k]
}

proof fn lemma_rank_pos_end(s: Seq<(int, int)>, x: (int, int), k: int)
    requires
        0 <= k <= s.len(),
        forall|m: int| k <= m < s.len() ==> !better(x, #[trigger] s[m]),
    ensures
        rank_pos(s, x, k) == s.len(),
    decreases s.len() - k,
{
    if k < s.len() {
        lemma_rank_pos_end(s, x, k + 1);
    }
}

/// With no query words and no query text, the hits are the entries that
/// are not skin-tone variants, all with the same score, in catalogue order.
proof fn lemma_browse_ranked(all: Seq<EmojiEntry>, q: Seq<char>, n: int)
    requires
        q.len() == 0,
        0 <= n <= all.len(),
    ensures
        ({
            let rk = ranked(all, Seq::<Seq<char>>::empty(), q, false, n);
            let ds = default_skin(all.take(n));
            &&& rk.len() == ds.len()
            &&& forall|k: int|
                0 <= k < rk.len() ==> (#[trigger] rk[k]).0 == 10 && 0 <= rk[k].1 < n && all[rk[k].1] == ds[k]
        }),
    decreases n,
{
    let e = Seq::<Seq<char>>::empty();
    if n == 0 {
        assert(all.take(0) =~= Seq::<EmojiEntry>::empty());
    } else {
        lemma_browse_ranked(all, q, n - 1);
        lemma_default_skin_take(all, n - 1);
        let prev = ranked(all, e, q, false, n - 1);
        let dprev = default_skin(all.take(n - 1));
        let x = all[n - 1];
        if !x.is_skin_tone {
            assert(is_candidate(x, e, false));
            assert(match_score_spec(x, e, q) == 10);
            let xk = (10int, n - 1);
            lemma_rank_pos_end(prev, xk, 0);
            assert(prev.insert(prev.len() as int, xk) =~= prev.push(xk));
            let rk = ranked(all, e, q, false, n);
            assert(rk == prev.push(xk));
            let ds = default_skin(all.take(n));
            assert(ds == dprev.push(x));
            assert forall|k: int| 0 <= k < rk.len() implies (#[trigger] rk[k]).0 == 10 && 0 <= rk[k].1 < n
                && all[rk[k].1] == ds[k] by {
                if k < prev.len() {
                    assert(rk[k] == prev[k]);
                    assert(ds[k] == dprev[k]);
                }
            }
        } else {
            assert(!is_candidate(x, e, false));
        }
    }
}

/// Like [`filter`], with control over whether named skin-tone rows appear.
pub fn filter_opts<'a>(all: &'a [EmojiEntry], query: &str, limit: usize, include_skin_tones: bool) -> (r:
    Vec<&'a EmojiEntry>)
    ensures
        picks(r@, all@, filter_ranking(all@, query@, limit as nat, include_skin_tones)),
        limit >= 1 && !include_skin_tones && trim(query@).len() == 0 ==> lists_entries(
            r@,
            take_at_least_one(default_skin(all@), limit as nat),
        ),
{
    let tq = trim_chars(chars_of(query).as_slice());
    let qv = lower_chars(tq.as_slice());
    let words = split_whitespace(qv.as_slice());
    let ghost ws = views(words@);
    let show = include_skin_tones || wants_tone_exec(&words);
    let mut top: Vec<(i128, usize)> = Vec::new();
    for j in 0..all.len()
        invariant
            ws == views(words@),
            qv@ == query_text(query@),
            ws == split_ws(qv@),
            show == (include_skin_tones || wants_tone(ws)),
            key_view(top@) == trunc(ranked(all@, ws, qv@, show, j as int), limit as nat),
    {
        let e = &all[j];
        if !(e.is_skin_tone && !show) && all_words_in_exec(
            chars_of(e.search_blob.as_str()).as_slice(),
            &words,
        ) {
            let sc = match_score(e, &words, qv.as_slice());
            let ghost prev = ranked(all@, ws, qv@, show, j as int);
            let ghost xk = (sc as int, j as int);
            let p = rank_pos_exec(&top, (sc, j));
            proof {
                lemma_rank_pos_range(key_view(top@), xk, 0);
            }
            let ghost before = top@;
            top.insert(p, (sc, j));
            assert(key_view(top@) =~= key_view(before).insert(p as int, xk));
            top.truncate(limit);
            proof {
                lemma_trunc_insert(prev, xk, limit as nat);
                assert(ranked(all@, ws, qv@, show, j + 1) == insert_ranked(prev, xk));
                assert(key_view(top@) =~= trunc(insert_ranked(trunc(prev, limit as nat), xk), limit as nat));
            }
        } else {
            assert(ranked(all@, ws, qv@, show, j + 1) == ranked(all@, ws, qv@, show, j as int));
        }
    }
    let ghost fr = filter_ranking(all@, query@, limit as nat, include_skin_tones);
    proof {
        lemma_ranked_indices(all@, ws, qv@, show, all@.len() as int);
        let rk = ranked(all@, ws, qv@, show, all@.len() as int);
        assert forall|k: int| 0 <= k < top@.len() implies 0 <= #[trigger] fr[k] < all@.len() && fr[k]
            == top@[k].1 by {
            assert(key_view(top@)[k] == trunc(rk, limit as nat)[k]);
            if rk.len() > limit {
                assert(trunc(rk, limit as nat)[k] == rk[k]);
            }
            assert(0 <= rk[k].1 < all@.len());
        }
    }
    let mut r: Vec<&'a EmojiEntry> = Vec::new();
    for k in 0..top.len()
        invariant
            r@.len() == k,
            forall|m: int| 0 <= m < top@.len() ==> 0 <= #[trigger] fr[m] < all@.len() && fr[m] == top@[m].1,
            forall|m: int| 0 <= m < k ==> *r@[m] == all@[fr[m]],
    {
        let idx = top[k].1;
        assert(fr[k as int] == idx);
        r.push(&all[idx]);
    }
    proof {
        if limit >= 1 && !include_skin_tones && trim(query@).len() == 0 {
            let e = Seq::<Seq<char>>::empty();
            assert(qv@ =~= Seq::<char>::empty());
            assert(split_marked(qv@, marks_ws(qv@)) =~= seq![Seq::<char>::empty()]);
            let s1 = seq![Seq::<char>::empty()];
            assert(s1.last().len() == 0);
            assert(s1.drop_last().len() == 0);
            assert(keep_nonempty(s1.drop_last()) == s1.drop_last());
            assert(keep_nonempty(s1) == keep_nonempty(s1.drop_last()));
            assert(keep_nonempty(s1) =~= e);
            assert(ws =~= e);
            assert(!wants_tone(ws));
            assert(!show);
            lemma_browse_ranked(all@, qv@, all@.len() as int);
            assert(all@.take(all@.len() as int) =~= all@);
            let rk = ranked(all@, ws, qv@, show, all@.len() as int);
            let ds = default_skin(all@);
            let t = take_at_least_one(ds, limit as nat);
            assert(fr.len() == t.len());
            assert forall|k: int| 0 <= k < r@.len() implies *r@[k] == #[trigger] t[k] by {
                assert(fr[k] == trunc(rk, limit as nat)[k].1);
                if rk.len() > limit {
                    assert(trunc(rk, limit as nat)[k] == rk[k]);
                }
                if ds.len() > limit {
                    assert(t[k] == ds[k]);
                }
            }
        }
    }
    r
}

/// Filter entries: every whitespace token must appear in `search_blob`.
/// Results are ranked (name hits first). Skin-tone *variants* are hidden
/// unless the query explicitly asks for a tone.
pub fn filter<'a>(all: &'a [EmojiEntry], query: &str, limit: usize) -> (r: Vec<&'a EmojiEntry>)
    ensures
        picks(r@, all@, filter_ranking(all@, query@, limit as nat, false)),
        limit >= 1 && trim(query@).len() == 0 ==> lists_entries(
            r@,
            take_at_least_one(default_skin(all@), limit as nat),
        ),
{
    filter_opts(all, query, limit, false)
}

// ───────────────────────── ranking laws ─────────────────────────

/// The ranking key of entry `i`: its score and its index.
pub open spec fn key_of(all: Seq<EmojiEntry>, words: Seq<Seq<char>>, q: Seq<char>, i: int) -> (int, int) {
    (match_score_spec(all[i], words, q), i)
}

/// What holds of the ranked hits among the first `n` entries: each is a hit
/// with its key, they are in ranking order, and every hit is among them.
pub open spec fn ranked_ok(
    all: Seq<EmojiEntry>,
    words: Seq<Seq<char>>,
    q: Seq<char>,
    show: bool,
    n: int,
    r: Seq<(int, int)>,
) -> bool {
    &&& forall|k: int|
        0 <= k < r.len() ==> 0 <= (#[trigger] r[k]).1 < n && is_candidate(all[r[k].1], words, show)
            && r[k] == key_of(all, words, q, r[k].1)
    &&& forall|i: int, j: int| 0 <= i < j < r.len() ==> better(#[trigger] r[i], #[trigger] r[j])
    &&& forall|i: int|
        0 <= i < n && is_candidate(#[trigger] all[i], words, show) ==> exists|k: int|
            0 <= k < r.len() && (#[trigger] r[k]).1 == i
}

proof fn lemma_rank_pos_props(s: Seq<(int, int)>, x: (int, int), k: int)
    requires
        0 <= k <= s.len(),
    ensures
        forall|m: int| k <= m < rank_pos(s, x, k) ==> !better(x, #[trigger] s[m]),
        rank_pos(s, x, k) < s.len() ==> better(x, s[rank_pos(s, x, k)]),
    decreases s.len() - k,
{
    if k < s.len() {
        lemma_rank_pos_props(s, x, k + 1);
    }
}

proof fn lemma_ranked_ok(all: Seq<EmojiEntry>, words: Seq<Seq<char>>, q: Seq<char>, show: bool, n: int)
    requires
        0 <= n <= all.len(),
    ensures
        ranked_ok(all, words, q, show, n, ranked(all, words, q, show, n)),
    decreases n,
{
    if n > 0 {
        lemma_ranked_ok(all, words, q, show, n - 1);
        let s = ranked(all, words, q, show, n - 1);
        if is_candidate(all[n - 1], words, show) {
            let x = key_of(all, words, q, n - 1);
            let p = rank_pos(s, x, 0);
            lemma_rank_pos_range(s, x, 0);
            lemma_rank_pos_props(s, x, 0);
            s.insert_ensures(p, x);
            let r = s.insert(p, x);
            assert(r == ranked(all, words, q, show, n));
            assert forall|k: int| 0 <= k < r.len() implies 0 <= (#[trigger] r[k]).1 < n
                && is_candidate(all[r[k].1], words, show) && r[k] == key_of(all, words, q, r[k].1) by {
                if k > p {
                    assert(r[(k - 1) + 1] == s[k - 1]);
                }
            }
            assert forall|i: int, j: int| 0 <= i < j < r.len() implies better(
                #[trigger] r[i],
                #[trigger] r[j],
            ) by {
                if j < p {
                } else if j == p {
                    assert(!better(x, s[i]));
                    assert(s[i].1 < n - 1);
                } else if i < p {
                    assert(r[(j - 1) + 1] == s[j - 1]);
                    assert(!better(x, s[i]));
                    assert(s[i].1 < n - 1);
                    if j - 1 > p {
                        assert(better(s[p], s[j - 1]));
                    }
                } else if i == p {
                    assert(r[(j - 1) + 1] == s[j - 1]);
                    if j - 1 > p {
                        assert(better(s[p], s[j - 1]));
                    }
                } else {
                    assert(r[(j - 1) + 1] == s[j - 1]);
                    assert(r[(i - 1) + 1] == s[i - 1]);
                }
            }
            assert forall|i: int|
                0 <= i < n && is_candidate(#[trigger] all[i], words, show) implies exists|k: int|
                0 <= k < r.len() && (#[trigger] r[k]).1 == i by {
                if i == n - 1 {
                    assert(r[p].1 == i);
                } else {
                    let k = choose|k: int| 0 <= k < s.len() && (#[trigger] s[k]).1 == i;
                    if k < p {
                        assert(r[k].1 == i);
                    } else {
                        assert(r[k + 1] == s[k]);
                        assert(r[k + 1].1 == i);
                    }
                }
            }
        } else {
            assert forall|i: int|
                0 <= i < n && is_candidate(#[trigger] all[i], words, show) implies exists|k: int|
                0 <= k < s.len() && (#[trigger] s[k]).1 == i by {
                assert(i != n - 1);
            }
        }
    }
}

/// Whether `filter_opts` shows skin-tone variants for this query.
pub open spec fn filter_shows_tones(query: Seq<char>, include_skin_tones: bool) -> bool {
    include_skin_tones || wants_tone(query_words(query))
}

proof fn lemma_filter_ranking(all: Seq<EmojiEntry>, query: Seq<char>, limit: nat, with_tones: bool)
    ensures
        ({
            let q = query_text(query);
            let words = query_words(query);
            let show = filter_shows_tones(query, with_tones);
            let rk = ranked(all, words, q, show, all.len() as int);
            let fr = filter_ranking(all, query, limit, with_tones);
            &&& ranked_ok(all, words, q, show, all.len() as int, rk)
            &&& fr.len() <= limit
            &&& fr.len() <= rk.len()
            &&& (rk.len() > limit ==> fr.len() == limit)
            &&& forall|k: int| 0 <= k < fr.len() ==> #[trigger] fr[k] == rk[k].1
        }),
{
    let q = query_text(query);
    let words = query_words(query);
    let show = filter_shows_tones(query, with_tones);
    lemma_ranked_ok(all, words, q, show, all.len() as int);
}

/// Every entry that `filter_opts` returns holds every query word in its
/// search blob, and is a skin-tone variant only when tones are shown.
pub proof fn filter_hits_match_query(all: Seq<EmojiEntry>, query: Seq<char>, limit: nat, include_skin_tones: bool)
    ensures
        forall|k: int|
            0 <= k < filter_ranking(all, query, limit, include_skin_tones).len() ==> is_candidate(
                all[#[trigger] filter_ranking(all, query, limit, include_skin_tones)[k]],
                query_words(query),
                filter_shows_tones(query, include_skin_tones),
            ),
{
    lemma_filter_ranking(all, query, limit, include_skin_tones);
    let q = query_text(query);
    let rk = ranked(all, query_words(query), q, filter_shows_tones(query, include_skin_tones), all.len() as int);
    let fr = filter_ranking(all, query, limit, include_skin_tones);
    assert forall|k: int| 0 <= k < fr.len() implies is_candidate(
        all[#[trigger] fr[k]],
        query_words(query),
        filter_shows_tones(query, include_skin_tones),
    ) by {
        assert(fr[k] == rk[k].1);
    }
}

/// `filter_opts` returns its hits best first: by score, higher first, and
/// for equal scores in catalogue order; so no entry is returned twice.
pub proof fn filter_hits_ranked(all: Seq<EmojiEntry>, query: Seq<char>, limit: nat, include_skin_tones: bool)
    ensures
        forall|i: int, j: int|
            0 <= i < j < filter_ranking(all, query, limit, include_skin_tones).len() ==> better(
                key_of(all, query_words(query), query_text(query), #[trigger] filter_ranking(all, query, limit, include_skin_tones)[i]),
                key_of(all, query_words(query), query_text(query), #[trigger] filter_ranking(all, query, limit, include_skin_tones)[j]),
            ),
        filter_ranking(all, query, limit, include_skin_tones).no_duplicates(),
{
    lemma_filter_ranking(all, query, limit, include_skin_tones);
    let q = query_text(query);
    let words = query_words(query);
    let rk = ranked(all, words, q, filter_shows_tones(query, include_skin_tones), all.len() as int);
    let fr = filter_ranking(all, query, limit, include_skin_tones);
    assert forall|i: int, j: int| 0 <= i < j < fr.len() implies better(
        key_of(all, words, q, #[trigger] fr[i]),
        key_of(all, words, q, #[trigger] fr[j]),
    ) by {
        assert(fr[i] == rk[i].1);
        assert(fr[j] == rk[j].1);
        assert(better(rk[i], rk[j]));
    }
    assert forall|i: int, j: int| 0 <= i < fr.len() && 0 <= j < fr.len() && i != j implies fr[i] != fr[j] by {
        let (a, b) = if i < j { (i, j) } else { (j, i) };
        assert(better(key_of(all, words, q, fr[a]), key_of(all, words, q, fr[b])));
    }
}

/// No better hit is left out: a hit that `filter_opts` does not return ranks
/// below every entry it returns, and then it returned `limit` entries.
pub proof fn filter_hits_best(all: Seq<EmojiEntry>, query: Seq<char>, limit: nat, include_skin_tones: bool)
    ensures
        forall|j: int|
            0 <= j < all.len() && is_candidate(
                #[trigger] all[j],
                query_words(query),
                filter_shows_tones(query, include_skin_tones),
            ) && !filter_ranking(all, query, limit, include_skin_tones).contains(j) ==> {
                &&& filter_ranking(all, query, limit, include_skin_tones).len() == limit
                &&& forall|k: int|
                    0 <= k < limit ==> better(
                        key_of(all, query_words(query), query_text(query), #[trigger] filter_ranking(all, query, limit, include_skin_tones)[k]),
                        key_of(all, query_words(query), query_text(query), j),
                    )
            },
{
    lemma_filter_ranking(all, query, limit, include_skin_tones);
    let q = query_text(query);
    let words = query_words(query);
    let show = filter_shows_tones(query, include_skin_tones);
    let rk = ranked(all, words, q, show, all.len() as int);
    let fr = filter_ranking(all, query, limit, include_skin_tones);
    assert forall|j: int|
        0 <= j < all.len() && is_candidate(#[trigger] all[j], words, show) && !fr.contains(j) implies {
        &&& fr.len() == limit
        &&& forall|k: int| 0 <= k < limit ==> better(key_of(all, words, q, #[trigger] fr[k]), key_of(all, words, q, j))
    } by {
        let m = choose|m: int| 0 <= m < rk.len() && (#[trigger] rk[m]).1 == j;
        if m < fr.len() {
            assert(fr[m] == j);
            assert(false);
        }
        assert forall|k: int| 0 <= k < limit implies better(key_of(all, words, q, #[trigger] fr[k]), key_of(all, words, q, j)) by {
            assert(fr[k] == rk[k].1);
            assert(better(rk[k], rk[m]));
        }
    }
}

} // verus!
