//! The emoji picker window's logic: the searchable rows, filtering with
//! recent picks first, the list of recent picks, and grid navigation.
use vstd::prelude::*;

use crate::emoji_db::{crate_catalogue, crate_chars, first_crate_emojis, starts_with_documented, CrateEmoji};
use crate::text::{
    append, chars_of, contains, contains_exec, eq, join, join_strings, lines, lines_of,
    lower_chars, lower_text, split_whitespace, split_ws, str_views, string_of, strings_of, to_lowercase,
    trim, trim_chars, views, split_char, strip_cr_each, lemma_split_join_char, lemma_keep_nonempty_all,
};

verus! {

/// Columns of the emoji grid.
pub const COLS: usize = 10;

/// At most this many emojis are listed.
pub const MAX_SHOWN: usize = 500;

/// At most this many recent picks are kept.
pub const MAX_RECENTS: usize = 20;

/// One emoji of the picker: the emoji, its name and its lowercase search key.
pub struct PickerRow {
    pub emoji: String,
    pub name: String,
    pub key: String,
}

/// One listed emoji.
pub struct Shown {
    pub text: String,
    pub name: String,
    /// True when this row is a recent pick (search empty).
    pub recent: bool,
}

/// The search key of an emoji: its name and shortcodes, lowercase.
pub open spec fn picker_key_spec(name: Seq<char>, shortcodes: Seq<Seq<char>>) -> Seq<char> {
    if shortcodes.len() == 0 {
        lower_text(name)
    } else {
        lower_text(name + " "@ + join(shortcodes, " "@))
    }
}

/// `r` is the picker row of emoji `c`.
pub open spec fn row_of(r: PickerRow, c: CrateEmoji) -> bool {
    &&& r.emoji@ == c.ch@
    &&& r.name@ == c.name@
    &&& r.key@ == picker_key_spec(c.name@, str_views(c.shortcodes@))
}

pub fn picker_row(c: &CrateEmoji) -> (r: PickerRow)
    ensures
        row_of(r, *c),
{
    let key = if c.shortcodes.len() == 0 {
        to_lowercase(c.name.as_str())
    } else {
        let mut v = chars_of(c.name.as_str());
        append(&mut v, chars_of(" ").as_slice());
        append(&mut v, chars_of(join_strings(&c.shortcodes, " ").as_str()).as_slice());
        to_lowercase(string_of(v.as_slice()).as_str())
    };
    PickerRow { emoji: c.ch.clone(), name: c.name.clone(), key }
}

/// The rows of `items`, one each, in order.
pub open spec fn rows_of(r: Seq<PickerRow>, items: Seq<CrateEmoji>) -> bool {
    r.len() == items.len() && forall|i: int| 0 <= i < r.len() ==> row_of(#[trigger] r[i], items[i])
}

/// The picker rows of emojis of the crate's table, in order.
pub fn picker_rows(items: &Vec<CrateEmoji>) -> (r: Vec<PickerRow>)
    ensures
        rows_of(r@, items@),
{
    let mut r: Vec<PickerRow> = Vec::new();
    for i in 0..items.len()
        invariant
            r@.len() == i,
            forall|k: int| 0 <= k < i ==> row_of(#[trigger] r@[k], items@[k]),
    {
        r.push(picker_row(&items[i]));
    }
    r
}

pub open spec fn row_chars(rs: Seq<PickerRow>) -> Seq<Seq<char>> {
    Seq::new(rs.len(), |i: int| rs[i].emoji@)
}

/// The picker rows of every emoji in the table of the `emojis` crate: one
/// row per emoji of the table, in its order, so never empty, and starting
/// with the documented first emojis. Of the rest of the table nothing is
/// stated.
pub fn picker_catalogue() -> (r: Vec<PickerRow>)
    ensures
        exists|items: Seq<CrateEmoji>| rows_of(r@, items),
        r@.len() > 0,
        starts_with_documented(row_chars(r@)),
{
    let items = crate_catalogue();
    let r = picker_rows(&items);
    assert forall|k: int| 0 <= k < 5 implies #[trigger] row_chars(r@)[k] == first_crate_emojis()[k] by {
        assert(row_of(r@[k], items@[k]));
        assert(crate_chars(items@)[k] == first_crate_emojis()[k]);
    }
    r
}

// ───────────────────────── filtering ─────────────────────────

/// A listed emoji as plain values: text, name, recent.
pub type ShownView = (Seq<char>, Seq<char>, bool);

pub open spec fn shown_view(s: Shown) -> ShownView {
    (s.text@, s.name@, s.recent)
}

pub open spec fn shown_views(v: Seq<Shown>) -> Seq<ShownView> {
    Seq::new(v.len(), |i: int| shown_view(v[i]))
}

/// Is `t` already listed?
pub open spec fn listed(shown: Seq<ShownView>, t: Seq<char>) -> bool {
    exists|i: int| 0 <= i < shown.len() && (#[trigger] shown[i]).0 == t
}

/// The name of the first row for emoji `t`, from row `k` on.
pub open spec fn row_name(all: Seq<PickerRow>, t: Seq<char>, k: int) -> Option<Seq<char>>
    decreases all.len() - k,
{
    if k < 0 || k >= all.len() {
        None
    } else if all[k].emoji@ == t {
        Some(all[k].name@)
    } else {
        row_name(all, t, k + 1)
    }
}

/// Recent picks, each once, named from the catalogue (or `recent`).
pub open spec fn recents_shown(all: Seq<PickerRow>, recents: Seq<Seq<char>>) -> Seq<ShownView>
    decreases recents.len(),
{
    if recents.len() == 0 {
        Seq::empty()
    } else {
        let prev = recents_shown(all, recents.drop_last());
        let t = recents.last();
        if listed(prev, t) {
            prev
        } else {
            prev.push((
                t,
                match row_name(all, t, 0) {
                    Some(n) => n,
                    None => "recent"@,
                },
                true,
            ))
        }
    }
}

/// Does the row's key hold every query word?
pub open spec fn row_matches(key: Seq<char>, words: Seq<Seq<char>>) -> bool {
    forall|i: int| 0 <= i < words.len() ==> contains(key, #[trigger] words[i])
}

/// Add the matching rows not yet listed, in catalogue order, while fewer
/// than [`MAX_SHOWN`] are listed.
pub open spec fn rows_shown(start: Seq<ShownView>, all: Seq<PickerRow>, words: Seq<Seq<char>>, n: int) -> Seq<ShownView>
    decreases n,
{
    if n <= 0 {
        start
    } else {
        let prev = rows_shown(start, all, words, n - 1);
        let r = all[n - 1];
        if prev.len() >= MAX_SHOWN || !row_matches(r.key@, words) || listed(prev, r.emoji@) {
            prev
        } else {
            prev.push((r.emoji@, r.name@, false))
        }
    }
}

/// What the picker lists for a query: with an empty query the recent picks
/// first, then the matching emojis; and how many leading rows are recents.
pub open spec fn refilter_spec(all: Seq<PickerRow>, query: Seq<char>, recents: Seq<Seq<char>>) -> (Seq<ShownView>, nat) {
    let words = split_ws(lower_text(trim(query)));
    let first = if words.len() == 0 {
        recents_shown(all, recents)
    } else {
        Seq::empty()
    };
    (rows_shown(first, all, words, all.len() as int), first.len())
}

fn is_listed(shown: &Vec<Shown>, t: &[char]) -> (r: bool)
    ensures
        r == listed(shown_views(shown@), t@),
{
    for i in 0..shown.len()
        invariant
            forall|k: int| 0 <= k < i ==> shown_views(shown@)[k].0 != t@,
    {
        if eq(chars_of(shown[i].text.as_str()).as_slice(), t) {
            assert(shown_views(shown@)[i as int].0 == t@);
            return true;
        }
    }
    false
}

fn row_name_exec(all: &Vec<PickerRow>, t: &[char]) -> (r: Option<String>)
    ensures
        match r {
            Some(n) => row_name(all@, t@, 0) == Some(n@),
            None => row_name(all@, t@, 0) is None,
        },
{
    let mut k: usize = 0;
    while k < all.len()
        invariant
            k <= all@.len(),
            row_name(all@, t@, 0) == row_name(all@, t@, k as int),
        decreases all@.len() - k,
    {
        if eq(chars_of(all[k].emoji.as_str()).as_slice(), t) {
            return Some(all[k].name.clone());
        }
        k = k + 1;
    }
    None
}

fn push_shown(v: &mut Vec<Shown>, s: Shown)
    ensures
        shown_views(final(v)@) == shown_views(old(v)@).push(shown_view(s)),
        final(v)@.len() == old(v)@.len() + 1,
{
    let ghost before = v@;
    v.push(s);
    assert(shown_views(v@) =~= shown_views(before).push(shown_view(s)));
}

fn row_matches_exec(key: &[char], words: &Vec<Vec<char>>) -> (r: bool)
    ensures
        r == row_matches(key@, views(words@)),
{
    for i in 0..words.len()
        invariant
            forall|k: int| 0 <= k < i ==> contains(key@, #[trigger] views(words@)[k]),
    {
        if !contains_exec(key, words[i].as_slice()) {
            assert(!contains(key@, views(words@)[i as int]));
            return false;
        }
    }
    true
}

/// The rows listed for a query (recent picks first when the query is
/// empty) and the number of leading recents.
pub fn refilter(all: &Vec<PickerRow>, query: &str, recents: &Vec<String>) -> (r: (Vec<Shown>, usize))
    ensures
        shown_views(r.0@) == refilter_spec(all@, query@, str_views(recents@)).0,
        r.1 == refilter_spec(all@, query@, str_views(recents@)).1,
{
    let q = lower_chars(trim_chars(chars_of(query).as_slice()).as_slice());
    let words = split_whitespace(q.as_slice());
    let ghost ws = views(words@);
    let ghost rv = str_views(recents@);
    let mut shown: Vec<Shown> = Vec::new();
    let mut recent_count: usize = 0;
    if words.len() == 0 {
        for i in 0..recents.len()
            invariant
                rv == str_views(recents@),
                shown_views(shown@) == recents_shown(all@, rv.take(i as int)),
                recent_count == shown@.len(),
                recent_count <= i,
        {
            assert(rv.take(i + 1).drop_last() == rv.take(i as int));
            let t = chars_of(recents[i].as_str());
            if !is_listed(&shown, t.as_slice()) {
                let name = match row_name_exec(all, t.as_slice()) {
                    Some(n) => n,
                    None => String::from_str("recent"),
                };
                push_shown(&mut shown, Shown { text: recents[i].clone(), name, recent: true });
                recent_count = recent_count + 1;
            }
        }
        assert(rv.take(rv.len() as int) == rv);
    }
    let ghost first = shown_views(shown@);
    assert(first == (if ws.len() == 0 {
        recents_shown(all@, rv)
    } else {
        Seq::<ShownView>::empty()
    }));
    assert(first.len() == recent_count);
    for j in 0..all.len()
        invariant
            ws == views(words@),
            ws == split_ws(lower_text(trim(query@))),
            rv == str_views(recents@),
            first.len() == recent_count,
            first == (if ws.len() == 0 {
                recents_shown(all@, rv)
            } else {
                Seq::<ShownView>::empty()
            }),
            shown_views(shown@) == rows_shown(first, all@, ws, j as int),
    {
        if shown.len() >= MAX_SHOWN {
            proof {
                lemma_rows_full(first, all@, ws, j as int, all@.len() as int);
            }
            return (shown, recent_count);
        }
        let row = &all[j];
        if row_matches_exec(chars_of(row.key.as_str()).as_slice(), &words) && !is_listed(
            &shown,
            chars_of(row.emoji.as_str()).as_slice(),
        ) {
            push_shown(
                &mut shown,
                Shown { text: row.emoji.clone(), name: row.name.clone(), recent: false },
            );
        }
    }
    (shown, recent_count)
}

proof fn lemma_rows_full(start: Seq<ShownView>, all: Seq<PickerRow>, words: Seq<Seq<char>>, j: int, n: int)
    requires
        0 <= j <= n <= all.len(),
        rows_shown(start, all, words, j).len() >= MAX_SHOWN,
    ensures
        rows_shown(start, all, words, n) == rows_shown(start, all, words, j),
    decreases n - j,
{
    if j < n {
        lemma_rows_full(start, all, words, j, n - 1);
    }
}

/// No emoji is listed twice.
pub open spec fn distinct_texts(s: Seq<ShownView>) -> bool {
    forall|i: int, j: int| 0 <= i < j < s.len() ==> (#[trigger] s[i]).0 != (#[trigger] s[j]).0
}

proof fn lemma_push_unlisted(s: Seq<ShownView>, x: ShownView)
    requires
        distinct_texts(s),
        !listed(s, x.0),
    ensures
        distinct_texts(s.push(x)),
{
    let r = s.push(x);
    assert forall|i: int, j: int| 0 <= i < j < r.len() implies (#[trigger] r[i]).0 != (#[trigger] r[j]).0 by {
        assert(r[i] == s[i]);
        if j < s.len() {
            assert(r[j] == s[j]);
        }
    }
}

proof fn lemma_recents_shown(all: Seq<PickerRow>, recents: Seq<Seq<char>>)
    ensures
        distinct_texts(recents_shown(all, recents)),
        forall|i: int| 0 <= i < recents_shown(all, recents).len() ==> (#[trigger] recents_shown(all, recents)[i]).2,
    decreases recents.len(),
{
    if recents.len() > 0 {
        lemma_recents_shown(all, recents.drop_last());
        let prev = recents_shown(all, recents.drop_last());
        if !listed(prev, recents.last()) {
            let x = (
                recents.last(),
                match row_name(all, recents.last(), 0) {
                    Some(n) => n,
                    None => "recent"@,
                },
                true,
            );
            lemma_push_unlisted(prev, x);
            assert forall|i: int| 0 <= i < prev.push(x).len() implies (#[trigger] prev.push(x)[i]).2 by {
                if i < prev.len() {
                    assert(prev.push(x)[i] == prev[i]);
                }
            }
        }
    }
}

proof fn lemma_rows_shown(start: Seq<ShownView>, all: Seq<PickerRow>, words: Seq<Seq<char>>, n: int)
    requires
        distinct_texts(start),
    ensures
        distinct_texts(rows_shown(start, all, words, n)),
        rows_shown(start, all, words, n).len() >= start.len(),
        forall|i: int| 0 <= i < start.len() ==> #[trigger] rows_shown(start, all, words, n)[i] == start[i],
        forall|i: int|
            start.len() <= i < rows_shown(start, all, words, n).len() ==> !(#[trigger] rows_shown(start, all, words, n)[i]).2,
    decreases n,
{
    if n > 0 {
        lemma_rows_shown(start, all, words, n - 1);
        let prev = rows_shown(start, all, words, n - 1);
        let r = all[n - 1];
        if !(prev.len() >= MAX_SHOWN || !row_matches(r.key@, words) || listed(prev, r.emoji@)) {
            let x = (r.emoji@, r.name@, false);
            lemma_push_unlisted(prev, x);
            assert forall|i: int| 0 <= i < start.len() implies #[trigger] prev.push(x)[i] == start[i] by {
                assert(prev.push(x)[i] == prev[i]);
            }
            assert forall|i: int| start.len() <= i < prev.push(x).len() implies !(#[trigger] prev.push(x)[i]).2 by {
                if i < prev.len() {
                    assert(prev.push(x)[i] == prev[i]);
                }
            }
        }
    }
}

/// The picker lists each emoji once, and the leading rows that it counts
/// as recent picks are exactly the rows marked recent.
pub proof fn picker_lists_each_emoji_once(all: Seq<PickerRow>, query: Seq<char>, recents: Seq<Seq<char>>)
    ensures
        distinct_texts(refilter_spec(all, query, recents).0),
        refilter_spec(all, query, recents).1 <= refilter_spec(all, query, recents).0.len(),
        forall|i: int|
            0 <= i < refilter_spec(all, query, recents).0.len() ==> ((#[trigger] refilter_spec(all, query, recents).0[i]).2
                <==> i < refilter_spec(all, query, recents).1),
{
    let words = split_ws(lower_text(trim(query)));
    let first = if words.len() == 0 {
        recents_shown(all, recents)
    } else {
        Seq::empty()
    };
    lemma_recents_shown(all, recents);
    lemma_rows_shown(first, all, words, all.len() as int);
    let shown = rows_shown(first, all, words, all.len() as int);
    assert forall|i: int| 0 <= i < shown.len() implies ((#[trigger] shown[i]).2 <==> i < first.len()) by {
        if i < first.len() {
            assert(shown[i] == first[i]);
        }
    }
}

// ───────────────────────── recent picks ─────────────────────────

/// `rs` without `t`.
pub open spec fn without(rs: Seq<Seq<char>>, t: Seq<char>) -> Seq<Seq<char>>
    decreases rs.len(),
{
    if rs.len() == 0 {
        rs
    } else if rs.last() == t {
        without(rs.drop_last(), t)
    } else {
        without(rs.drop_last(), t).push(rs.last())
    }
}

/// The recent picks after picking `t`: `t` first, the others after it in
/// their order, at most [`MAX_RECENTS`].
pub open spec fn push_recent_spec(rs: Seq<Seq<char>>, t: Seq<char>) -> Seq<Seq<char>> {
    let all = seq![t] + without(rs, t);
    if all.len() <= MAX_RECENTS {
        all
    } else {
        all.take(MAX_RECENTS as int)
    }
}

pub fn push_recent(recents: &Vec<String>, text: &str) -> (r: Vec<String>)
    ensures
        str_views(r@) == push_recent_spec(str_views(recents@), text@),
{
    let t = chars_of(text);
    let ghost rv = str_views(recents@);
    let mut r: Vec<String> = Vec::new();
    r.push(String::from_str(text));
    assert(str_views(r@) =~= seq![text@]);
    for i in 0..recents.len()
        invariant
            rv == str_views(recents@),
            t@ == text@,
            str_views(r@) == seq![text@] + without(rv.take(i as int), text@),
    {
        assert(rv.take(i + 1).drop_last() == rv.take(i as int));
        if !eq(chars_of(recents[i].as_str()).as_slice(), t.as_slice()) {
            let ghost before = str_views(r@);
            r.push(recents[i].clone());
            assert(str_views(r@) =~= before.push(rv[i as int]));
        }
    }
    assert(rv.take(rv.len() as int) == rv);
    r.truncate(MAX_RECENTS);
    assert(str_views(r@) =~= push_recent_spec(rv, text@));
    r
}

proof fn lemma_without_absent(rs: Seq<Seq<char>>, t: Seq<char>)
    ensures
        forall|i: int| 0 <= i < without(rs, t).len() ==> #[trigger] without(rs, t)[i] != t,
        without(rs, t).len() <= rs.len(),
    decreases rs.len(),
{
    if rs.len() > 0 {
        lemma_without_absent(rs.drop_last(), t);
    }
}

/// After a pick the list starts with it, holds it only there and keeps at
/// most [`MAX_RECENTS`] picks.
pub proof fn push_recent_puts_pick_first(rs: Seq<Seq<char>>, t: Seq<char>)
    ensures
        push_recent_spec(rs, t)[0] == t,
        forall|i: int| 0 < i < push_recent_spec(rs, t).len() ==> #[trigger] push_recent_spec(rs, t)[i] != t,
        1 <= push_recent_spec(rs, t).len() <= MAX_RECENTS,
{
    lemma_without_absent(rs, t);
    let all = seq![t] + without(rs, t);
    assert forall|i: int| 0 < i < push_recent_spec(rs, t).len() implies #[trigger] push_recent_spec(rs, t)[i] != t by {
        assert(all[i] == without(rs, t)[i - 1]);
    }
}

/// The saved recent picks: the non-empty lines of the file.
pub open spec fn parse_recents_spec(s: Seq<char>) -> Seq<Seq<char>> {
    crate::text::keep_nonempty(lines(s))
}

pub fn parse_recents(s: &str) -> (r: Vec<String>)
    ensures
        str_views(r@) == parse_recents_spec(s@),
{
    let ls = lines_of(chars_of(s).as_slice());
    let kept = crate::text::drop_empty(&ls);
    strings_of(&kept)
}

/// The file text of the recent picks: one per line.
pub fn recents_text(recents: &Vec<String>) -> (r: String)
    ensures
        r@ == join(str_views(recents@), "\n"@),
{
    join_strings(recents, "\n")
}

/// Saving the recent picks and reading them back gives the same picks, for
/// picks that are not empty, hold no line break and do not end with `\r`.
pub proof fn recents_round_trip(rs: Seq<Seq<char>>)
    requires
        forall|i: int|
            0 <= i < rs.len() ==> {
                &&& (#[trigger] rs[i]).len() > 0
                &&& !rs[i].contains('\n')
                &&& rs[i].last() != '\r'
            },
    ensures
        parse_recents_spec(join(rs, "\n"@)) == rs,
{
    reveal_strlit("\n");
    assert("\n"@ =~= seq!['\n']);
    let s = join(rs, "\n"@);
    if rs.len() == 0 {
        let e = Seq::<char>::empty();
        assert(s == e);
        assert(split_char(e, '\n') =~= seq![e]);
        assert(lines(s) =~= Seq::<Seq<char>>::empty());
    } else {
        lemma_split_join_char(rs, '\n');
        let parts = split_char(s, '\n');
        assert(parts == rs);
        assert(strip_cr_each(rs.take(rs.len() - 1)) =~= rs.take(rs.len() - 1));
        assert(rs[rs.len() - 1].len() > 0);
        assert(rs.take(rs.len() - 1).push(rs.last()) =~= rs);
        assert(lines(s) == rs);
    }
    assert forall|i: int| 0 <= i < rs.len() implies (#[trigger] rs[i]).len() > 0 by {}
    lemma_keep_nonempty_all(rs);
}

// ───────────────────────── grid navigation ─────────────────────────

/// The selection after arrow keys on a grid of `len` cells, [`COLS`] wide:
/// right, left, down, up, each kept inside the grid.
pub open spec fn grid_move_spec(sel: int, len: int, up: bool, down: bool, left: bool, right: bool) -> int {
    let a = if right {
        if sel + 1 < len - 1 { sel + 1 } else { len - 1 }
    } else {
        sel
    };
    let b = if left {
        if a > 0 { a - 1 } else { 0 }
    } else {
        a
    };
    let c = if down {
        if b + COLS < len - 1 { b + COLS } else { len - 1 }
    } else {
        b
    };
    if up {
        if c > COLS { c - COLS } else { 0 }
    } else {
        c
    }
}

/// Arrow keys move through the grid by one cell or one row: Up goes one row
/// up when there is a row above (else to the first cell), Down one row down
/// when that cell exists (else to the last cell), Left and Right one cell
/// (kept inside the grid); Up undoes Down and Down undoes Up where both
/// fit; and several keys at once act as Right, Left, Down, Up in turn.
pub proof fn grid_moves_by_rows(sel: int, len: int, up: bool, down: bool, left: bool, right: bool)
    requires
        0 <= sel < len,
    ensures
        sel >= COLS ==> grid_move_spec(sel, len, true, false, false, false) == sel - COLS,
        sel < COLS ==> grid_move_spec(sel, len, true, false, false, false) == 0,
        sel + COLS < len ==> grid_move_spec(sel, len, false, true, false, false) == sel + COLS,
        sel + COLS >= len ==> grid_move_spec(sel, len, false, true, false, false) == len - 1,
        sel > 0 ==> grid_move_spec(sel, len, false, false, true, false) == sel - 1,
        sel == 0 ==> grid_move_spec(sel, len, false, false, true, false) == 0,
        sel + 1 < len ==> grid_move_spec(sel, len, false, false, false, true) == sel + 1,
        sel + 1 >= len ==> grid_move_spec(sel, len, false, false, false, true) == len - 1,
        sel >= COLS ==> grid_move_spec(grid_move_spec(sel, len, true, false, false, false), len, false, true, false, false) == sel,
        sel + COLS < len ==> grid_move_spec(grid_move_spec(sel, len, false, true, false, false), len, true, false, false, false) == sel,
        grid_move_spec(sel, len, up, down, left, right) == {
            let a = if right { grid_move_spec(sel, len, false, false, false, true) } else { sel };
            let b = if left { grid_move_spec(a, len, false, false, true, false) } else { a };
            let c = if down { grid_move_spec(b, len, false, true, false, false) } else { b };
            if up { grid_move_spec(c, len, true, false, false, false) } else { c }
        },
        0 <= grid_move_spec(sel, len, up, down, left, right) < len,
{
}

pub fn grid_move(sel: usize, len: usize, up: bool, down: bool, left: bool, right: bool) -> (r: usize)
    requires
        sel < len,
    ensures
        r == grid_move_spec(sel as int, len as int, up, down, left, right),
        r < len,
{
    let mut s = sel;
    if right {
        s = if s + 1 < len - 1 {
            s + 1
        } else {
            len - 1
        };
    }
    if left {
        s = if s > 0 {
            s - 1
        } else {
            0
        };
    }
    if down {
        s = if s < len - 1 && len - 1 - s > COLS {
            s + COLS
        } else {
            len - 1
        };
    }
    if up {
        s = if s > COLS {
            s - COLS
        } else {
            0
        };
    }
    s
}

} // verus!
