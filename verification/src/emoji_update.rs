//! Building the emoji catalogue from Unicode's `emoji-test.txt` and the
//! emojilib keyword table.
use vstd::prelude::*;

use crate::emoji_db::EmojiSource;
use crate::text::{
    append, chars_of, char_is_ws, contains, contains_char, copy_all, copy_range, ends_with, eq,
    eq_str, find_char, find_first, find_ws, find_ws_exec, is_ws, join, join_chars, lines, lines_of,
    lower_chars, lower_text, marks_ws_or, remove_char, remove_char_exec, replace_char,
    replace_char_exec, set_marks, split_at_marks, split_char, split_marked, split_on_char,
    starts_with, str_views, string_of, strip_prefix, strip_prefix_exec, trim, trim_chars, utf8_len,
    views,
};
use crate::textmap::TextMap;

verus! {

pub open spec fn vs16() -> char {
    '\u{FE0F}'
}

/// One of the five skin-tone modifiers (U+1F3FB to U+1F3FF).
pub open spec fn is_skin_modifier(c: char) -> bool {
    0x1F3FB <= (c as u32) <= 0x1F3FF
}

/// `s` without skin-tone modifiers.
pub open spec fn remove_skin_tones(s: Seq<char>) -> Seq<char>
    decreases s.len(),
{
    if s.len() == 0 {
        s
    } else if is_skin_modifier(s.last()) {
        remove_skin_tones(s.drop_last())
    } else {
        remove_skin_tones(s.drop_last()).push(s.last())
    }
}

fn remove_skin_tones_exec(v: &[char]) -> (r: Vec<char>)
    ensures
        r@ == remove_skin_tones(v@),
{
    let mut r: Vec<char> = Vec::new();
    for i in 0..v.len()
        invariant
            r@ == remove_skin_tones(v@.take(i as int)),
    {
        assert(v@.take(i + 1).drop_last() == v@.take(i as int));
        let c = v[i];
        let u = c as u32;
        if !(0x1F3FB <= u && u <= 0x1F3FF) {
            r.push(c);
        }
    }
    assert(v@.take(v@.len() as int) == v@);
    r
}

// ───────────────────────── emoji-test lines ─────────────────────────

/// The parts of one data line of `emoji-test.txt`.
pub struct LineCaps {
    pub codes: String,
    pub status: String,
    pub emoji: String,
    pub name: String,
}

/// `s` split at the first `c`.
pub open spec fn split_once_char(s: Seq<char>, c: char) -> Option<(Seq<char>, Seq<char>)> {
    match find_first(s, c, 0) {
        Some(i) => Some((s.take(i), s.skip(i + 1))),
        None => None,
    }
}

/// A data line reads `<codes> ; <status> # <emoji> E<version> <name>`; the
/// result holds codes, status, emoji and name.
pub open spec fn parse_test_line_spec(line: Seq<char>) -> Option<
    (Seq<char>, Seq<char>, Seq<char>, Seq<char>),
> {
    match split_once_char(line, '#') {
        None => None,
        Some((left, right)) => match split_once_char(trim(left), ';') {
            None => None,
            Some((codes, status)) => {
                let rt = trim(right);
                match find_ws(rt, 0) {
                    None => None,
                    Some(i1) => {
                        let rest = rt.skip(i1 + 1);
                        match find_ws(rest, 0) {
                            None => None,
                            Some(i2) => {
                                let name = trim(rest.skip(i2 + 1));
                                if !starts_with(rest.take(i2), "E"@) || name.len() == 0 {
                                    None
                                } else {
                                    Some((trim(codes), trim(status), rt.take(i1), name))
                                }
                            },
                        }
                    },
                }
            },
        },
    }
}

pub open spec fn caps_view(c: LineCaps) -> (Seq<char>, Seq<char>, Seq<char>, Seq<char>) {
    (c.codes@, c.status@, c.emoji@, c.name@)
}

fn split_once_exec(v: &[char], c: char) -> (r: Option<(Vec<char>, Vec<char>)>)
    ensures
        match r {
            Some(p) => split_once_char(v@, c) == Some((p.0@, p.1@)),
            None => split_once_char(v@, c) is None,
        },
{
    match find_char(v, c) {
        Some(i) => {
            proof {
                crate::text::lemma_find_first_in(v@, c, i as int);
            }
            assert(i < v.len());
            let a = copy_range(v, 0, i);
            let b = copy_range(v, i + 1, v.len());
            assert(a@ == v@.take(i as int));
            assert(b@ == v@.skip(i + 1));
            Some((a, b))
        },
        None => None,
    }
}

/// Parse one data line of `emoji-test.txt`.
pub fn parse_test_line(line: &str) -> (r: Option<LineCaps>)
    ensures
        match r {
            Some(c) => parse_test_line_spec(line@) == Some(caps_view(c)),
            None => parse_test_line_spec(line@) is None,
        },
{
    let lv = chars_of(line);
    let (left, right) = match split_once_exec(lv.as_slice(), '#') {
        Some(p) => p,
        None => return None,
    };
    let left = trim_chars(left.as_slice());
    let (codes, status) = match split_once_exec(left.as_slice(), ';') {
        Some(p) => p,
        None => return None,
    };
    let rt = trim_chars(right.as_slice());
    let i1 = match find_ws_exec(rt.as_slice()) {
        Some(i) => i,
        None => return None,
    };
    proof {
        crate::text::lemma_find_ws_in(rt@, i1 as int);
    }
    assert(i1 < rt.len());
    let rest = copy_range(rt.as_slice(), i1 + 1, rt.len());
    assert(rest@ == rt@.skip(i1 + 1));
    let i2 = match find_ws_exec(rest.as_slice()) {
        Some(i) => i,
        None => return None,
    };
    proof {
        crate::text::lemma_find_ws_in(rest@, i2 as int);
    }
    let ver = copy_range(rest.as_slice(), 0, i2);
    let name = trim_chars(copy_range(rest.as_slice(), i2 + 1, rest.len()).as_slice());
    assert(ver@ == rest@.take(i2 as int));
    assert(rest@.subrange(i2 + 1, rest@.len() as int) == rest@.skip(i2 + 1));
    if !crate::text::starts_with_exec(ver.as_slice(), chars_of("E").as_slice()) || name.len() == 0 {
        return None;
    }
    let emoji = copy_range(rt.as_slice(), 0, i1);
    assert(emoji@ == rt@.take(i1 as int));
    Some(
        LineCaps {
            codes: string_of(trim_chars(codes.as_slice()).as_slice()),
            status: string_of(trim_chars(status.as_slice()).as_slice()),
            emoji: string_of(emoji.as_slice()),
            name: string_of(name.as_slice()),
        },
    )
}

// ───────────────────────── emoji-test files ─────────────────────────

/// Why `emoji-test.txt` gave no catalogue.
#[derive(Debug, Clone, Copy, PartialEq, Eq, Structural)]
pub enum EmojiTestError {
    /// No fully-qualified emoji was found.
    NoEmoji,
}

/// A catalogue record as plain text fields: codes, emoji, name, category,
/// group, subgroup, keywords.
pub type SourceView = (Seq<char>, Seq<char>, Seq<char>, Seq<char>, Seq<char>, Seq<char>, Seq<char>);

pub open spec fn source_view(e: EmojiSource) -> SourceView {
    (e.codes@, e.emoji@, e.name@, e.category@, e.group@, e.subgroup@, e.keywords@)
}

pub open spec fn source_views(es: Seq<EmojiSource>) -> Seq<SourceView> {
    Seq::new(es.len(), |i: int| source_view(es[i]))
}

/// The state while reading the file: current group, current subgroup and
/// the records so far.
pub type TestState = (Seq<char>, Seq<char>, Seq<SourceView>);

/// The category of a record: the group, with the subgroup in brackets.
pub open spec fn category_of(group: Seq<char>, subgroup: Seq<char>) -> Seq<char> {
    if subgroup.len() == 0 {
        group
    } else {
        group + " ("@ + subgroup + ")"@
    }
}

/// Reading one line: `# group:` and `# subgroup:` lines set the current
/// group; other comments and blank lines are skipped; data lines of
/// fully-qualified emoji add a record.
pub open spec fn test_step(st: TestState, line: Seq<char>) -> TestState {
    match strip_prefix(line, "# group:"@) {
        Some(r) => (trim(r), st.1, st.2),
        None => match strip_prefix(line, "# subgroup:"@) {
            Some(r) => (st.0, trim(r), st.2),
            None => if line.len() == 0 || starts_with(line, "#"@) {
                st
            } else {
                match parse_test_line_spec(line) {
                    None => st,
                    Some(c) => if c.1 != "fully-qualified"@ {
                        st
                    } else {
                        (
                            st.0,
                            st.1,
                            st.2.push(
                                (c.0, c.2, c.3, category_of(st.0, st.1), st.0, st.1, Seq::empty()),
                            ),
                        )
                    },
                }
            },
        },
    }
}

pub open spec fn test_fold(ls: Seq<Seq<char>>, n: int) -> TestState
    decreases n,
{
    if n <= 0 {
        (Seq::empty(), Seq::empty(), Seq::empty())
    } else {
        test_step(test_fold(ls, n - 1), ls[n - 1])
    }
}

/// The Unicode version named by a `# Version:` line among the first 40
/// lines, from line `k` on; `unknown` without one.
pub open spec fn version_from(ls: Seq<Seq<char>>, k: int) -> Seq<char>
    decreases 40 - k,
{
    if k < 0 || k >= 40 || k >= ls.len() {
        "unknown"@
    } else {
        match strip_prefix(ls[k], "# Version:"@) {
            Some(r) => trim(r),
            None => version_from(ls, k + 1),
        }
    }
}

/// The version and records of an `emoji-test.txt`.
pub open spec fn emoji_test_spec(text: Seq<char>) -> Result<(Seq<char>, Seq<SourceView>), EmojiTestError> {
    let ls = lines(text);
    let recs = test_fold(ls, ls.len() as int).2;
    if recs.len() == 0 {
        Err(EmojiTestError::NoEmoji)
    } else {
        Ok((version_from(ls, 0), recs))
    }
}

/// The parts of a data line (not blank, not a `#` comment) of a
/// fully-qualified emoji, if `l` is one.
pub open spec fn fq_caps(l: Seq<char>) -> Option<(Seq<char>, Seq<char>, Seq<char>, Seq<char>)> {
    if l.len() == 0 || starts_with(l, "#"@) {
        None
    } else {
        match parse_test_line_spec(l) {
            Some(c) => if c.1 == "fully-qualified"@ {
                Some(c)
            } else {
                None
            },
            None => None,
        }
    }
}

/// The indices of the fully-qualified data lines among the first `n`.
pub open spec fn record_lines(ls: Seq<Seq<char>>, n: int) -> Seq<int>
    decreases n,
{
    if n <= 0 {
        Seq::empty()
    } else if fq_caps(ls[n - 1]) is Some {
        record_lines(ls, n - 1).push(n - 1)
    } else {
        record_lines(ls, n - 1)
    }
}

/// The value of the latest line among the first `n` that starts with
/// `prefix`, trimmed; empty when there is none.
pub open spec fn latest_value(ls: Seq<Seq<char>>, n: int, prefix: Seq<char>) -> Seq<char>
    decreases n,
{
    if n <= 0 {
        Seq::empty()
    } else {
        match strip_prefix(ls[n - 1], prefix) {
            Some(r) => trim(r),
            None => latest_value(ls, n - 1, prefix),
        }
    }
}

/// The record that the fully-qualified line `i` gives: its codes, emoji and
/// name, the group and subgroup in force there, their category, and no
/// keywords.
pub open spec fn record_of(ls: Seq<Seq<char>>, i: int) -> SourceView {
    let c = fq_caps(ls[i])->0;
    let g = latest_value(ls, i, "# group:"@);
    let sg = latest_value(ls, i, "# subgroup:"@);
    (c.0, c.2, c.3, category_of(g, sg), g, sg, Seq::empty())
}

proof fn lemma_group_line_is_comment(l: Seq<char>, p: Seq<char>)
    requires
        p.len() > 0,
        p[0] == '#',
        starts_with(l, p),
    ensures
        starts_with(l, "#"@),
{
    reveal_strlit("#");
    assert(l[0] == l.take(p.len() as int)[0]);
    assert(l.take(1) =~= "#"@);
}

proof fn lemma_test_fold_explained(ls: Seq<Seq<char>>, n: int)
    requires
        0 <= n <= ls.len(),
    ensures
        test_fold(ls, n).0 == latest_value(ls, n, "# group:"@),
        test_fold(ls, n).1 == latest_value(ls, n, "# subgroup:"@),
        test_fold(ls, n).2.len() == record_lines(ls, n).len(),
        forall|k: int| 0 <= k < record_lines(ls, n).len() ==> 0 <= #[trigger] record_lines(ls, n)[k] < n,
        forall|k: int|
            0 <= k < test_fold(ls, n).2.len() ==> #[trigger] test_fold(ls, n).2[k] == record_of(ls, record_lines(ls, n)[k]),
    decreases n,
{
    reveal_strlit("# group:");
    reveal_strlit("# subgroup:");
    if n > 0 {
        lemma_test_fold_explained(ls, n - 1);
        let l = ls[n - 1];
        let st = test_fold(ls, n - 1);
        let rp = record_lines(ls, n - 1);
        let rn = record_lines(ls, n);
        assert forall|k: int| 0 <= k < rn.len() implies 0 <= #[trigger] rn[k] < n by {
            if k < rp.len() {
                assert(rn[k] == rp[k]);
            }
        }
        if strip_prefix(l, "# group:"@) is Some {
            lemma_group_line_is_comment(l, "# group:"@);
            assert(fq_caps(l) is None);
            assert(l[2] == l.take(8)[2]);
            assert(!starts_with(l, "# subgroup:"@)) by {
                if starts_with(l, "# subgroup:"@) {
                    assert(l[2] == l.take(11)[2]);
                }
            }
        } else if strip_prefix(l, "# subgroup:"@) is Some {
            lemma_group_line_is_comment(l, "# subgroup:"@);
            assert(fq_caps(l) is None);
        } else if fq_caps(l) is Some {
            let recs = test_fold(ls, n).2;
            assert(recs == st.2.push(record_of(ls, n - 1)));
            assert forall|k: int| 0 <= k < recs.len() implies #[trigger] recs[k] == record_of(ls, rn[k]) by {
                if k < st.2.len() {
                    assert(recs[k] == st.2[k]);
                    assert(rn[k] == rp[k]);
                }
            }
        } else {
            assert(test_fold(ls, n) == st);
        }
    }
}

/// How `emoji-test.txt` reads: it fails exactly when it has no data line of
/// a fully-qualified emoji; otherwise the records are those lines' codes,
/// emoji and name, in order, each with the latest `# group:` and
/// `# subgroup:` values before it, its category (the group, with the
/// subgroup in brackets when there is one) and no keywords; and the version
/// is the trimmed rest of the first `# Version:` line among the first 40
/// lines, or `unknown`.
pub proof fn emoji_test_reads_records(text: Seq<char>)
    ensures
        ({
            let ls = lines(text);
            let rl = record_lines(ls, ls.len() as int);
            &&& (emoji_test_spec(text) is Err <==> rl.len() == 0)
            &&& emoji_test_spec(text) matches Ok((v, recs)) ==> {
                &&& v == version_from(ls, 0)
                &&& recs.len() == rl.len()
                &&& forall|k: int| 0 <= k < recs.len() ==> #[trigger] recs[k] == record_of(ls, rl[k])
            }
        }),
{
    let ls = lines(text);
    lemma_test_fold_explained(ls, ls.len() as int);
}

fn string_eq_lit(s: &String, lit: &str) -> (r: bool)
    ensures
        r == (s@ == lit@),
{
    eq_str(chars_of(s.as_str()).as_slice(), lit)
}

fn category_exec(group: &Vec<char>, subgroup: &Vec<char>) -> (r: Vec<char>)
    ensures
        r@ == category_of(group@, subgroup@),
{
    if subgroup.len() == 0 {
        copy_all(group.as_slice())
    } else {
        let mut r = copy_all(group.as_slice());
        append(&mut r, chars_of(" (").as_slice());
        append(&mut r, subgroup.as_slice());
        append(&mut r, chars_of(")").as_slice());
        r
    }
}

/// Apply one line of the file to the reading state.
fn read_test_line(
    line: &[char],
    group: &mut Vec<char>,
    subgroup: &mut Vec<char>,
    entries: &mut Vec<EmojiSource>,
)
    ensures
        (final(group)@, final(subgroup)@, source_views(final(entries)@)) == test_step(
            (old(group)@, old(subgroup)@, source_views(old(entries)@)),
            line@,
        ),
{
    match strip_prefix_exec(line, "# group:") {
        Some(rest) => {
            *group = trim_chars(rest.as_slice());
            return ;
        },
        None => {},
    }
    match strip_prefix_exec(line, "# subgroup:") {
        Some(rest) => {
            *subgroup = trim_chars(rest.as_slice());
            return ;
        },
        None => {},
    }
    if line.len() == 0 || crate::text::starts_with_exec(line, chars_of("#").as_slice()) {
        return ;
    }
    let caps = match parse_test_line(string_of(line).as_str()) {
        Some(c) => c,
        None => return ,
    };
    if !string_eq_lit(&caps.status, "fully-qualified") {
        return ;
    }
    let category = category_exec(group, subgroup);
    let e = EmojiSource {
        codes: caps.codes,
        emoji: caps.emoji,
        name: caps.name,
        category: string_of(category.as_slice()),
        group: string_of(group.as_slice()),
        subgroup: string_of(subgroup.as_slice()),
        keywords: String::new(),
    };
    let ghost before = entries@;
    entries.push(e);
    assert(source_views(entries@) =~= source_views(before).push(source_view(e)));
}

fn version_of(ls: &Vec<Vec<char>>) -> (r: Vec<char>)
    ensures
        r@ == version_from(views(ls@), 0),
{
    let ghost lv = views(ls@);
    let mut k: usize = 0;
    while k < ls.len() && k < 40
        invariant
            lv == views(ls@),
            k <= 40,
            version_from(lv, 0) == version_from(lv, k as int),
        decreases 40 - k,
    {
        assert(lv[k as int] == ls@[k as int]@);
        match strip_prefix_exec(ls[k].as_slice(), "# Version:") {
            Some(rest) => {
                return trim_chars(rest.as_slice());
            },
            None => {},
        }
        k = k + 1;
    }
    chars_of("unknown")
}

/// Parse `emoji-test.txt` into its Unicode version and the records of its
/// fully-qualified emoji (with empty keywords).
pub fn parse_emoji_test(text: &str) -> (r: Result<(String, Vec<EmojiSource>), EmojiTestError>)
    ensures
        match r {
            Ok((v, es)) => emoji_test_spec(text@) == Ok::<_, EmojiTestError>((v@, source_views(es@))),
            Err(e) => emoji_test_spec(text@) == Err::<(Seq<char>, Seq<SourceView>), _>(e),
        },
{
    let ls = lines_of(chars_of(text).as_slice());
    let ghost lv = views(ls@);
    let version = version_of(&ls);
    let mut group: Vec<char> = Vec::new();
    let mut subgroup: Vec<char> = Vec::new();
    let mut entries: Vec<EmojiSource> = Vec::new();
    for i in 0..ls.len()
        invariant
            lv == views(ls@),
            test_fold(lv, i as int) == (group@, subgroup@, source_views(entries@)),
    {
        assert(lv[i as int] == ls@[i as int]@);
        read_test_line(ls[i].as_slice(), &mut group, &mut subgroup, &mut entries);
    }
    if entries.len() == 0 {
        return Err(EmojiTestError::NoEmoji);
    }
    Ok((string_of(version.as_slice()), entries))
}

// ───────────────────────── keywords ─────────────────────────

/// The emojilib keyword table: emoji text to its keywords.
pub type KeywordLib = TextMap<Vec<String>>;

/// What `serde_json` reads from an emojilib JSON text as a map from strings
/// to lists of strings; `None` when the text is not such a JSON object.
pub uninterp spec fn emojilib_table(raw: Seq<char>) -> Option<Map<Seq<char>, Seq<Seq<char>>>>;

/// `serde_json::from_str` into a `HashMap<String, Vec<String>>`, its pairs
/// collected: the table is named as a function of the text. The pairs come
/// in the order the hash map is walked, which is not stated; what is stated
/// is that they are the table's entries, each key once.
#[verifier::external_body]
fn parse_emojilib(raw: &str) -> (r: Option<Vec<(String, Vec<String>)>>)
    ensures
        match emojilib_table(raw@) {
            Some(m) => r matches Some(v) && {
                &&& forall|i: int|
                    0 <= i < v@.len() ==> m.dom().contains((#[trigger] v@[i]).0@) && m[v@[i].0@]
                        == str_views(v@[i].1@)
                &&& forall|k: Seq<char>| #[trigger] m.dom().contains(k) ==> exists|i: int|
                    0 <= i < v@.len() && (#[trigger] v@[i]).0@ == k
                &&& forall|i: int, j: int| 0 <= i < j < v@.len() ==> (#[trigger] v@[i]).0@ != (#[trigger] v@[j]).0@
            },
            None => r is None,
        },
{
    serde_json::from_str::<std::collections::HashMap<String, Vec<String>>>(raw).ok().map(
        |m| m.into_iter().collect(),
    )
}

/// `lib` holds exactly the entries of `table`.
pub open spec fn holds_table(lib: KeywordLib, table: Map<Seq<char>, Seq<Seq<char>>>) -> bool {
    forall|k: Seq<char>|
        match #[trigger] lib.spec_get(k) {
            Some(v) => table.dom().contains(k) && str_views(v@) == table[k],
            None => !table.dom().contains(k),
        }
}

/// The emojilib keyword table of an emojilib JSON text; `None` when the
/// text is not a JSON object of string lists.
pub fn keyword_lib_from_json(raw: &str) -> (r: Option<KeywordLib>)
    ensures
        r is None <==> emojilib_table(raw@) is None,
        r matches Some(lib) ==> holds_table(lib, emojilib_table(raw@)->0),
{
    let pairs = match parse_emojilib(raw) {
        Some(p) => p,
        None => return None,
    };
    let ghost m = emojilib_table(raw@)->0;
    let ghost pv = pairs@;
    let mut pairs = pairs;
    let mut lib: KeywordLib = TextMap::new();
    let mut i: usize = 0;
    let n = pairs.len();
    while pairs.len() > 0
        invariant
            n == pv.len(),
            i + pairs@.len() == n,
            pairs@ == pv.skip(i as int),
            forall|a: int| 0 <= a < pv.len() ==> m.dom().contains((#[trigger] pv[a]).0@) && m[pv[a].0@] == str_views(pv[a].1@),
            forall|a: int, b: int| 0 <= a < b < pv.len() ==> (#[trigger] pv[a]).0@ != (#[trigger] pv[b]).0@,
            forall|k: Seq<char>|
                match #[trigger] lib.spec_get(k) {
                    Some(v) => exists|a: int| 0 <= a < i && pv[a].0@ == k && v@ == pv[a].1@,
                    None => forall|a: int| 0 <= a < i ==> pv[a].0@ != k,
                },
        decreases pairs@.len(),
    {
        let ghost before = pairs@;
        let (k, v) = pairs.remove(0);
        assert(before[0] == pv[i as int]);
        assert(pairs@ =~= pv.skip(i + 1));
        let ghost kv = k@;
        let ghost vv = v@;
        lib.insert(k, v);
        proof {
            assert forall|k2: Seq<char>|
                match #[trigger] lib.spec_get(k2) {
                    Some(w) => exists|a: int| 0 <= a < i + 1 && pv[a].0@ == k2 && w@ == pv[a].1@,
                    None => forall|a: int| 0 <= a < i + 1 ==> pv[a].0@ != k2,
                } by {
                if k2 == kv {
                    assert(pv[i as int].0@ == k2);
                } else {
                    match lib.spec_get(k2) {
                        Some(w) => {},
                        None => {
                            assert forall|a: int| 0 <= a < i + 1 implies pv[a].0@ != k2 by {}
                        },
                    }
                }
            }
        }
        i = i + 1;
    }
    proof {
        assert forall|k: Seq<char>|
            match #[trigger] lib.spec_get(k) {
                Some(v) => m.dom().contains(k) && str_views(v@) == m[k],
                None => !m.dom().contains(k),
            } by {
            match lib.spec_get(k) {
                Some(v) => {
                    let a = choose|a: int| 0 <= a < i && pv[a].0@ == k && v@ == pv[a].1@;
                    assert(m.dom().contains(pv[a].0@));
                },
                None => {
                    if m.dom().contains(k) {
                        let a = choose|a: int| 0 <= a < pv.len() && (#[trigger] pv[a]).0@ == k;
                        assert(pv[a].0@ != k);
                    }
                },
            }
        }
    }
    Some(lib)
}

pub open spec fn contains_seq(ps: Seq<Seq<char>>, x: Seq<char>) -> bool {
    exists|i: int| 0 <= i < ps.len() && ps[i] == x
}

/// The keys an emoji's keywords are looked up under, in order: the emoji,
/// without variation selectors, without skin tones, and that with a
/// variation selector appended (each once).
pub open spec fn lookup_keys(ch: Seq<char>) -> Seq<Seq<char>> {
    let no_vs = remove_char(ch, vs16());
    let c1 = if no_vs != ch {
        seq![ch, no_vs]
    } else {
        seq![ch]
    };
    let no_skin = remove_skin_tones(no_vs);
    let c2 = if no_skin.len() > 0 && !contains_seq(c1, no_skin) {
        c1.push(no_skin)
    } else {
        c1
    };
    let with_vs = no_skin.push(vs16());
    if no_skin.len() > 0 && !ends_with(no_skin, seq![vs16()]) && !contains_seq(c2, with_vs) {
        c2.push(with_vs)
    } else {
        c2
    }
}

fn contains_chars(ps: &Vec<Vec<char>>, x: &[char]) -> (r: bool)
    ensures
        r == contains_seq(views(ps@), x@),
{
    for i in 0..ps.len()
        invariant
            forall|k: int| 0 <= k < i ==> views(ps@)[k] != x@,
    {
        if eq(ps[i].as_slice(), x) {
            assert(views(ps@)[i as int] == x@);
            return true;
        }
    }
    false
}

fn push_chars(v: &mut Vec<Vec<char>>, x: Vec<char>)
    ensures
        views(final(v)@) == views(old(v)@).push(x@),
{
    let ghost before = v@;
    v.push(x);
    assert(views(v@) =~= views(before).push(x@));
}

fn lookup_keys_exec(ch: &[char]) -> (r: Vec<Vec<char>>)
    ensures
        views(r@) == lookup_keys(ch@),
{
    let no_vs = remove_char_exec(ch, '\u{FE0F}');
    let mut c: Vec<Vec<char>> = Vec::new();
    push_chars(&mut c, copy_all(ch));
    if !eq(no_vs.as_slice(), ch) {
        push_chars(&mut c, copy_all(no_vs.as_slice()));
    }
    let ghost c1 = if no_vs@ != ch@ {
        seq![ch@, no_vs@]
    } else {
        seq![ch@]
    };
    assert(views(c@) =~= c1);
    let no_skin = remove_skin_tones_exec(no_vs.as_slice());
    if no_skin.len() > 0 && !contains_chars(&c, no_skin.as_slice()) {
        push_chars(&mut c, copy_all(no_skin.as_slice()));
    }
    let ghost c2 = if no_skin@.len() > 0 && !contains_seq(c1, no_skin@) {
        c1.push(no_skin@)
    } else {
        c1
    };
    assert(views(c@) =~= c2);
    let mut with_vs = copy_all(no_skin.as_slice());
    with_vs.push('\u{FE0F}');
    let vs: Vec<char> = vec!['\u{FE0F}'];
    assert(vs@ == seq![vs16()]);
    if no_skin.len() > 0 && !crate::text::ends_with_exec(no_skin.as_slice(), vs.as_slice())
        && !contains_chars(&c, with_vs.as_slice()) {
        push_chars(&mut c, with_vs);
    }
    c
}

/// The keys an emoji's keywords are looked up under.
pub fn strip_for_keyword_lookup(ch: &str) -> (r: Vec<String>)
    ensures
        str_views(r@) == lookup_keys(ch@),
{
    let keys = lookup_keys_exec(chars_of(ch).as_slice());
    crate::text::strings_of(&keys)
}

/// A keyword token as kept: trimmed, lowercase, underscores as spaces.
pub open spec fn norm_token(t: Seq<char>) -> Seq<char> {
    replace_char(lower_text(trim(t)), '_', " "@)
}

/// Add a token unless it is empty, `:`, `-` or already there.
pub open spec fn add_token(words: Seq<Seq<char>>, t: Seq<char>) -> Seq<Seq<char>> {
    let n = norm_token(t);
    if n.len() == 0 || n == ":"@ || n == "-"@ || contains_seq(words, n) {
        words
    } else {
        words.push(n)
    }
}

pub open spec fn add_tokens(words: Seq<Seq<char>>, toks: Seq<Seq<char>>) -> Seq<Seq<char>>
    decreases toks.len(),
{
    if toks.len() == 0 {
        words
    } else {
        add_token(add_tokens(words, toks.drop_last()), toks.last())
    }
}

/// Each emojilib keyword, followed by its `_`-separated parts when it has any.
pub open spec fn expand_keywords(kws: Seq<Seq<char>>) -> Seq<Seq<char>>
    decreases kws.len(),
{
    if kws.len() == 0 {
        Seq::empty()
    } else {
        let kw = kws.last();
        expand_keywords(kws.drop_last()) + seq![kw] + (if kw.contains('_') {
            split_char(kw, '_')
        } else {
            Seq::empty()
        })
    }
}

/// The keywords of the first lookup key that the table has.
pub open spec fn first_keywords(lib: KeywordLib, keys: Seq<Seq<char>>) -> Option<Vec<String>>
    decreases keys.len(),
{
    if keys.len() == 0 {
        None
    } else {
        match lib.spec_get(keys[0]) {
            Some(v) => Some(v),
            None => first_keywords(lib, keys.drop_first()),
        }
    }
}

/// The words of a lowercase emoji name longer than one byte, split at
/// whitespace, `:`, `,` and `&`.
pub open spec fn name_words(name: Seq<char>) -> Seq<Seq<char>> {
    let l = lower_text(name);
    long_parts(split_marked(l, marks_ws_or(l, seq![':', ',', '&'])))
}

pub open spec fn long_parts(ps: Seq<Seq<char>>) -> Seq<Seq<char>>
    decreases ps.len(),
{
    if ps.len() == 0 {
        ps
    } else if utf8_len(ps.last()) > 1 {
        long_parts(ps.drop_last()).push(ps.last())
    } else {
        long_parts(ps.drop_last())
    }
}

/// The keywords of an emoji: its emojilib keywords (with their parts) and
/// the words of its name, normalised, each once, space separated.
/// The keyword tokens of an emoji: those of its emojilib entry, then the
/// words of its name, each normalised and kept once.
pub open spec fn keyword_tokens(ch: Seq<char>, name: Seq<char>, lib: KeywordLib) -> Seq<Seq<char>> {
    add_tokens(add_tokens(Seq::empty(), lib_tokens(ch, lib)), name_words(name))
}

/// The emojilib keywords of an emoji, each followed by its `_`-separated
/// parts: those of the first lookup key that the table holds.
pub open spec fn lib_tokens(ch: Seq<char>, lib: KeywordLib) -> Seq<Seq<char>> {
    match first_keywords(lib, lookup_keys(ch)) {
        Some(kws) => expand_keywords(str_views(kws@)),
        None => Seq::empty(),
    }
}

pub open spec fn keywords_spec(ch: Seq<char>, name: Seq<char>, lib: KeywordLib) -> Seq<char> {
    join(keyword_tokens(ch, name, lib), " "@)
}

/// A token that the keyword list may hold.
pub open spec fn usable_token(t: Seq<char>) -> bool {
    t.len() > 0 && t != ":"@ && t != "-"@ && !t.contains('_')
}

proof fn lemma_replace_char_gone(s: Seq<char>, c: char, rep: Seq<char>)
    requires
        !rep.contains(c),
    ensures
        !replace_char(s, c, rep).contains(c),
    decreases s.len(),
{
    if s.len() > 0 {
        lemma_replace_char_gone(s.drop_last(), c, rep);
        let p = replace_char(s.drop_last(), c, rep);
        let r = replace_char(s, c, rep);
        if r.contains(c) {
            let i = choose|i: int| 0 <= i < r.len() && r[i] == c;
            if s.last() == c {
                assert(r == p + rep);
                if i < p.len() {
                    assert(p[i] == c);
                } else {
                    assert(rep[i - p.len()] == c);
                }
            } else {
                assert(r == p.push(s.last()));
                if i < p.len() {
                    assert(p[i] == c);
                }
            }
        }
    }
}

proof fn lemma_add_tokens_distinct(words: Seq<Seq<char>>, toks: Seq<Seq<char>>)
    requires
        words.no_duplicates(),
        forall|i: int| 0 <= i < words.len() ==> usable_token(#[trigger] words[i]),
    ensures
        add_tokens(words, toks).no_duplicates(),
        forall|i: int| 0 <= i < add_tokens(words, toks).len() ==> usable_token(#[trigger] add_tokens(words, toks)[i]),
    decreases toks.len(),
{
    if toks.len() > 0 {
        lemma_add_tokens_distinct(words, toks.drop_last());
        let w = add_tokens(words, toks.drop_last());
        let n = norm_token(toks.last());
        reveal_strlit(" ");
        assert(!" "@.contains('_')) by {
            assert(" "@ =~= seq![' ']);
        }
        lemma_replace_char_gone(lower_text(trim(toks.last())), '_', " "@);
        if !(n.len() == 0 || n == ":"@ || n == "-"@ || contains_seq(w, n)) {
            let r = w.push(n);
            assert forall|i: int, j: int| 0 <= i < r.len() && 0 <= j < r.len() && i != j implies r[i] != r[j] by {
                if i == w.len() as int {
                    assert(r[j] == w[j]);
                } else if j == w.len() as int {
                    assert(r[i] == w[i]);
                } else {
                    assert(r[i] == w[i] && r[j] == w[j]);
                }
            }
            assert forall|i: int| 0 <= i < r.len() implies usable_token(#[trigger] r[i]) by {
                if i < w.len() {
                    assert(r[i] == w[i]);
                }
            }
        }
    }
}

/// The keywords of an emoji never repeat a token, and hold no empty,
/// `:` or `-` token and no underscore.
pub proof fn keyword_tokens_distinct(ch: Seq<char>, name: Seq<char>, lib: KeywordLib)
    ensures
        keyword_tokens(ch, name, lib).no_duplicates(),
        forall|i: int|
            0 <= i < keyword_tokens(ch, name, lib).len() ==> usable_token(#[trigger] keyword_tokens(ch, name, lib)[i]),
{
    let lib_toks = lib_tokens(ch, lib);
    let e = Seq::<Seq<char>>::empty();
    lemma_add_tokens_distinct(e, lib_toks);
    lemma_add_tokens_distinct(add_tokens(e, lib_toks), name_words(name));
}

/// A source token that becomes keyword `t` once normalised and kept.
pub open spec fn yields_token(toks: Seq<Seq<char>>, t: Seq<char>) -> bool {
    exists|i: int| 0 <= i < toks.len() && norm_token(#[trigger] toks[i]) == t && t.len() > 0 && t != ":"@ && t != "-"@
}

proof fn lemma_add_tokens_members(words: Seq<Seq<char>>, toks: Seq<Seq<char>>)
    ensures
        add_tokens(words, toks).len() >= words.len(),
        add_tokens(words, toks).take(words.len() as int) == words,
        forall|t: Seq<char>| #[trigger] add_tokens(words, toks).contains(t) <==> words.contains(t) || yields_token(toks, t),
    decreases toks.len(),
{
    if toks.len() > 0 {
        let init = toks.drop_last();
        lemma_add_tokens_members(words, init);
        let a = add_tokens(words, init);
        let n = norm_token(toks.last());
        let r = add_tokens(words, toks);
        if !(n.len() == 0 || n == ":"@ || n == "-"@ || contains_seq(a, n)) {
            assert(r == a.push(n));
            assert(r.take(words.len() as int) =~= a.take(words.len() as int));
        } else {
            assert(r == a);
        }
        assert forall|t: Seq<char>| #[trigger] r.contains(t) <==> words.contains(t) || yields_token(toks, t) by {
            let last = toks.len() - 1;
            assert(a.contains(t) <==> words.contains(t) || yields_token(init, t));
            if yields_token(init, t) {
                let i = choose|i: int| 0 <= i < init.len() && norm_token(#[trigger] init[i]) == t && t.len() > 0 && t != ":"@ && t != "-"@;
                assert(toks[i] == init[i]);
                assert(norm_token(toks[i]) == t);
            }
            if a.contains(t) {
                let j = choose|j: int| 0 <= j < a.len() && a[j] == t;
                assert(r[j] == t);
            }
            if r.contains(t) && !a.contains(t) {
                let j = choose|j: int| 0 <= j < r.len() && r[j] == t;
                assert(t == n);
                assert(norm_token(toks[last]) == t);
            }
            if yields_token(toks, t) && !yields_token(init, t) {
                let i = choose|i: int| 0 <= i < toks.len() && norm_token(#[trigger] toks[i]) == t && t.len() > 0 && t != ":"@ && t != "-"@;
                if i < init.len() {
                    assert(init[i] == toks[i]);
                    assert(norm_token(init[i]) == t);
                }
                assert(i == last);
                assert(n == t);
                if contains_seq(a, n) {
                    let j = choose|j: int| 0 <= j < a.len() && a[j] == n;
                    assert(a[j] == t);
                    assert(r[j] == t);
                } else {
                    assert(r[a.len() as int] == t);
                }
            }
        }
    }
}

/// The keywords of an emoji are its keyword tokens joined by spaces: each
/// token once, with no empty, `:` or `-` token and no underscore; first those
/// that the emojilib keywords of the first lookup key found give (each
/// keyword and its `_`-separated parts, trimmed, lowercased, `_` read as a
/// space), then those that the words of the lowercased name longer than one
/// byte add; and nothing else.
pub proof fn keyword_law(ch: Seq<char>, name: Seq<char>, lib: KeywordLib)
    ensures
        ({
            let lt = lib_tokens(ch, lib);
            let first = add_tokens(Seq::empty(), lt);
            let ws = keyword_tokens(ch, name, lib);
            &&& keywords_spec(ch, name, lib) == join(ws, " "@)
            &&& ws.no_duplicates()
            &&& forall|i: int| 0 <= i < ws.len() ==> usable_token(#[trigger] ws[i])
            &&& ws.take(first.len() as int) == first
            &&& forall|t: Seq<char>| #[trigger] first.contains(t) <==> yields_token(lt, t)
            &&& forall|t: Seq<char>| #[trigger] ws.contains(t) <==> yields_token(lt, t) || yields_token(name_words(name), t)
        }),
{
    let lt = lib_tokens(ch, lib);
    let e = Seq::<Seq<char>>::empty();
    keyword_tokens_distinct(ch, name, lib);
    lemma_add_tokens_members(e, lt);
    let first = add_tokens(e, lt);
    lemma_add_tokens_members(first, name_words(name));
    assert forall|t: Seq<char>| #[trigger] first.contains(t) <==> yields_token(lt, t) by {
        assert(!e.contains(t));
    }
    let ws = keyword_tokens(ch, name, lib);
    assert forall|t: Seq<char>| #[trigger] ws.contains(t) <==> yields_token(lt, t) || yields_token(name_words(name), t) by {
        assert(first.contains(t) <==> yields_token(lt, t));
    }
}

fn add_token_exec(words: &mut Vec<Vec<char>>, t: &[char])
    ensures
        views(final(words)@) == add_token(views(old(words)@), t@),
{
    let l = lower_chars(trim_chars(t).as_slice());
    let n = replace_char_exec(l.as_slice(), '_', chars_of(" ").as_slice());
    if n.len() == 0 || eq_str(n.as_slice(), ":") || eq_str(n.as_slice(), "-") || contains_chars(
        words,
        n.as_slice(),
    ) {
        return ;
    }
    push_chars(words, n);
}

fn add_tokens_exec(words: &mut Vec<Vec<char>>, toks: &Vec<Vec<char>>)
    ensures
        views(final(words)@) == add_tokens(views(old(words)@), views(toks@)),
{
    let ghost start = views(words@);
    for i in 0..toks.len()
        invariant
            views(words@) == add_tokens(start, views(toks@).take(i as int)),
    {
        add_token_exec(words, toks[i].as_slice());
        assert(views(toks@).take(i + 1).drop_last() == views(toks@).take(i as int));
    }
    assert(views(toks@).take(toks@.len() as int) == views(toks@));
}

fn expand_keywords_exec(kws: &Vec<String>) -> (r: Vec<Vec<char>>)
    ensures
        views(r@) == expand_keywords(str_views(kws@)),
{
    let ghost kv = str_views(kws@);
    let mut r: Vec<Vec<char>> = Vec::new();
    for i in 0..kws.len()
        invariant
            kv == str_views(kws@),
            views(r@) == expand_keywords(kv.take(i as int)),
    {
        assert(kv.take(i + 1).drop_last() == kv.take(i as int));
        let kw = chars_of(kws[i].as_str());
        let ghost before = views(r@);
        push_chars(&mut r, copy_all(kw.as_slice()));
        if contains_char(kw.as_slice(), '_') {
            let parts = split_on_char(kw.as_slice(), '_');
            let ghost mid = views(r@);
            for j in 0..parts.len()
                invariant
                    views(r@) == mid + views(parts@).take(j as int),
            {
                push_chars(&mut r, copy_all(parts[j].as_slice()));
                assert(views(parts@).take(j + 1) == views(parts@).take(j as int).push(parts@[j as int]@));
                assert(mid + views(parts@).take(j + 1) == (mid + views(parts@).take(j as int)).push(parts@[j as int]@));
            }
            assert(views(parts@).take(parts@.len() as int) == views(parts@));
            assert(views(r@) == before + seq![kw@] + split_char(kw@, '_'));
        } else {
            assert(views(r@) == before + seq![kw@] + Seq::<Seq<char>>::empty());
        }
    }
    assert(kv.take(kv.len() as int) == kv);
    r
}

fn long_parts_exec(ps: &Vec<Vec<char>>) -> (r: Vec<Vec<char>>)
    ensures
        views(r@) == long_parts(views(ps@)),
{
    let ghost pv = views(ps@);
    let mut r: Vec<Vec<char>> = Vec::new();
    for i in 0..ps.len()
        invariant
            pv == views(ps@),
            views(r@) == long_parts(pv.take(i as int)),
    {
        assert(pv.take(i + 1).drop_last() == pv.take(i as int));
        let p = ps[i].as_slice();
        let long = if p.len() >= 2 {
            proof {
                crate::text::lemma_utf8_len_ge(p@);
            }
            true
        } else {
            !crate::text::is_one_byte(p) && p.len() == 1
        };
        if long {
            push_chars(&mut r, copy_all(p));
        } else {
            proof {
                if p@.len() == 0 {
                    assert(utf8_len(p@) == 0);
                }
            }
        }
    }
    assert(pv.take(pv.len() as int) == pv);
    r
}

fn first_keywords_exec<'a>(lib: &'a KeywordLib, keys: &Vec<Vec<char>>) -> (r: Option<&'a Vec<String>>)
    ensures
        match r {
            Some(v) => first_keywords(*lib, views(keys@)) == Some(*v),
            None => first_keywords(*lib, views(keys@)) is None,
        },
{
    let ghost kv = views(keys@);
    let mut i: usize = 0;
    assert(kv.skip(0) == kv);
    while i < keys.len()
        invariant
            kv == views(keys@),
            i <= kv.len(),
            first_keywords(*lib, kv) == first_keywords(*lib, kv.skip(i as int)),
        decreases kv.len() - i,
    {
        assert(kv.skip(i as int)[0] == keys@[i as int]@);
        assert(kv.skip(i as int).drop_first() == kv.skip(i + 1));
        match lib.get(keys[i].as_slice()) {
            Some(v) => return Some(v),
            None => {},
        }
        i = i + 1;
    }
    None
}

/// The search keywords of an emoji from the emojilib table and its name.
pub fn keywords_for(ch: &str, name: &str, lib: &KeywordLib) -> (r: String)
    ensures
        r@ == keywords_spec(ch@, name@, *lib),
{
    let keys = lookup_keys_exec(chars_of(ch).as_slice());
    let lib_toks = match first_keywords_exec(lib, &keys) {
        Some(kws) => expand_keywords_exec(kws),
        None => Vec::new(),
    };
    let mut words: Vec<Vec<char>> = Vec::new();
    assert(views(words@) == Seq::<Seq<char>>::empty());
    add_tokens_exec(&mut words, &lib_toks);
    let l = lower_chars(chars_of(name).as_slice());
    let seps: Vec<char> = vec![':', ',', '&'];
    let m = set_marks(l.as_slice(), seps.as_slice(), true);
    assert(seps@ == seq![':', ',', '&']);
    let parts = split_at_marks(l.as_slice(), m.as_slice());
    let long = long_parts_exec(&parts);
    add_tokens_exec(&mut words, &long);
    let j = join_chars(&words, chars_of(" ").as_slice());
    string_of(j.as_slice())
}

/// Fill in each record's keywords; the count of records that got some.
pub fn attach_keywords(entries: &mut Vec<EmojiSource>, lib: &KeywordLib) -> (r: usize)
    ensures
        final(entries)@.len() == old(entries)@.len(),
        forall|i: int|
            0 <= i < final(entries)@.len() ==> {
                &&& (#[trigger] final(entries)@[i]).keywords@ == keywords_spec(
                    old(entries)@[i].emoji@,
                    old(entries)@[i].name@,
                    *lib,
                )
                &&& final(entries)@[i].codes == old(entries)@[i].codes
                &&& final(entries)@[i].emoji == old(entries)@[i].emoji
                &&& final(entries)@[i].name == old(entries)@[i].name
                &&& final(entries)@[i].category == old(entries)@[i].category
                &&& final(entries)@[i].group == old(entries)@[i].group
                &&& final(entries)@[i].subgroup == old(entries)@[i].subgroup
            },
        r == count_with_keywords(final(entries)@, final(entries)@.len() as int),
{
    let ghost orig = entries@;
    let mut n: usize = 0;
    let len = entries.len();
    for i in 0..len
        invariant
            len == orig.len(),
            entries@.len() == orig.len(),
            n <= i,
            n == count_with_keywords(entries@, i as int),
            forall|k: int|
                i <= k < entries@.len() ==> #[trigger] entries@[k] == orig[k],
            forall|k: int|
                0 <= k < i ==> {
                    &&& (#[trigger] entries@[k]).keywords@ == keywords_spec(
                        orig[k].emoji@,
                        orig[k].name@,
                        *lib,
                    )
                    &&& entries@[k].codes == orig[k].codes
                    &&& entries@[k].emoji == orig[k].emoji
                    &&& entries@[k].name == orig[k].name
                    &&& entries@[k].category == orig[k].category
                    &&& entries@[k].group == orig[k].group
                    &&& entries@[k].subgroup == orig[k].subgroup
                },
    {
        let kw = keywords_for(entries[i].emoji.as_str(), entries[i].name.as_str(), lib);
        let nonempty = !kw.as_str().is_empty();
        let e = EmojiSource {
            codes: entries[i].codes.clone(),
            emoji: entries[i].emoji.clone(),
            name: entries[i].name.clone(),
            category: entries[i].category.clone(),
            group: entries[i].group.clone(),
            subgroup: entries[i].subgroup.clone(),
            keywords: kw,
        };
        let ghost before = entries@;
        entries.set(i, e);
        proof {
            lemma_count_prefix_same(before, entries@, i as int);
        }
        if nonempty {
            n = n + 1;
        }
    }
    n
}

/// How many of the first `n` records have keywords.
pub open spec fn count_with_keywords(es: Seq<EmojiSource>, n: int) -> int
    decreases n,
{
    if n <= 0 {
        0
    } else {
        count_with_keywords(es, n - 1) + if es[n - 1].keywords@.len() > 0 {
            1int
        } else {
            0int
        }
    }
}

proof fn lemma_count_prefix_same(a: Seq<EmojiSource>, b: Seq<EmojiSource>, n: int)
    requires
        0 <= n <= a.len(),
        a.len() == b.len(),
        forall|k: int| 0 <= k < n ==> #[trigger] a[k] == b[k],
    ensures
        count_with_keywords(a, n) == count_with_keywords(b, n),
    decreases n,
{
    if n > 0 {
        lemma_count_prefix_same(a, b, n - 1);
    }
}

/// Result of a successful catalogue refresh.
#[derive(Debug, Clone)]
pub struct UpdateReport {
    pub version: String,
    pub count: usize,
    pub with_keywords: usize,
    pub json_path: String,
}

} // verus!
