//! Clipboard history records: entry kinds, the entry record, timestamps and
//! the search statement run against the history database.
use vstd::prelude::*;

use crate::text::{
    append, chars_of, dec, dec_chars, lower_chars, lower_text, replace_char, replace_char_exec,
    split_whitespace, split_ws, string_of, views,
};

verus! {

/// What a history entry holds.
#[derive(Debug, Clone, Copy, PartialEq, Eq, Structural)]
pub enum EntryKind {
    Text,
    Image,
    Files,
}

impl EntryKind {
    pub open spec fn spec_as_str(self) -> Seq<char> {
        match self {
            EntryKind::Text => "text"@,
            EntryKind::Image => "image"@,
            EntryKind::Files => "files"@,
        }
    }

    /// The kind read back from its stored name; anything unknown is text.
    pub open spec fn spec_from_str(s: Seq<char>) -> EntryKind {
        if s == "image"@ {
            EntryKind::Image
        } else if s == "files"@ {
            EntryKind::Files
        } else {
            EntryKind::Text
        }
    }

    /// The name stored in the database.
    pub fn as_str(&self) -> (r: &'static str)
        ensures
            r@ == self.spec_as_str(),
    {
        match self {
            EntryKind::Text => "text",
            EntryKind::Image => "image",
            EntryKind::Files => "files",
        }
    }

    pub fn from_str(s: &str) -> (r: EntryKind)
        ensures
            r == EntryKind::spec_from_str(s@),
    {
        let v = chars_of(s);
        if crate::text::eq_str(v.as_slice(), "image") {
            EntryKind::Image
        } else if crate::text::eq_str(v.as_slice(), "files") {
            EntryKind::Files
        } else {
            EntryKind::Text
        }
    }
}

/// Reading back the stored name of a kind gives the kind.
pub proof fn entry_kind_roundtrip(k: EntryKind)
    ensures
        EntryKind::spec_from_str(k.spec_as_str()) == k,
{
    reveal_strlit("text");
    reveal_strlit("image");
    reveal_strlit("files");
    assert("text"@ != "image"@ && "text"@ != "files"@) by {
        assert("text"@.len() != "image"@.len());
    }
    assert("files"@ != "image"@) by {
        assert("files"@[0] != "image"@[0]);
    }
}

/// One clipboard history entry.
#[derive(Debug, Clone)]
pub struct Entry {
    pub id: i64,
    pub kind: EntryKind,
    /// Text content (for text/files entries).
    pub text: Option<String>,
    /// OCR'd text (for image entries), makes screenshots searchable.
    pub ocr_text: Option<String>,
    /// PNG path (for image entries).
    pub image_path: Option<String>,
    /// Short single-line preview for list display.
    pub preview: String,
    pub hash: String,
    pub created_at: i64,
    pub last_used_at: i64,
    pub use_count: i64,
}

// ───────────────────────── time ─────────────────────────

/// `SystemTime::now().duration_since(UNIX_EPOCH)`, as whole seconds and the
/// microseconds past them; `None` when the clock is before the epoch. The
/// time itself is not stated, only that the microseconds stay below a
/// second.
#[verifier::external_body]
pub(crate) fn since_epoch() -> (r: Option<(u64, u32)>)
    ensures
        r matches Some(t) ==> t.1 < 1_000_000,
{
    std::time::SystemTime::now().duration_since(std::time::UNIX_EPOCH).ok().map(
        |d| (d.as_secs(), d.subsec_micros()),
    )
}

/// The timestamp stored for a clock reading: its seconds as `i64`, or 0
/// when the clock is before the epoch.
pub open spec fn ts_of(since: Option<(u64, u32)>) -> i64 {
    match since {
        Some(t) => t.0 as i64,
        None => 0,
    }
}

pub fn ts_from(since: Option<(u64, u32)>) -> (r: i64)
    ensures
        r == ts_of(since),
{
    match since {
        Some(t) => t.0 as i64,
        None => 0,
    }
}

/// Seconds since the Unix epoch (0 when the clock is before it).
pub fn now_ts() -> (r: i64)
    ensures
        exists|since: Option<(u64, u32)>| r == ts_of(since),
{
    let since = since_epoch();
    ts_from(since)
}

// ───────────────────────── search ─────────────────────────

pub const COLS: &'static str = "id, kind, text, ocr_text, image_path, preview, hash, created_at, last_used_at, use_count";

pub const WORD_CLAUSE: &'static str = "lower(coalesce(text, '')) LIKE ? OR lower(coalesce(ocr_text, '')) LIKE ? OR lower(preview) LIKE ?)";

/// The LIKE pattern of a query word: lowercase, with `%` and `_` read as
/// spaces, between `%` wildcards.
pub open spec fn like_pattern_spec(w: Seq<char>) -> Seq<char> {
    "%"@ + replace_char(replace_char(lower_text(w), '%', " "@), '_', " "@) + "%"@
}

pub fn like_pattern(w: &[char]) -> (r: Vec<char>)
    ensures
        r@ == like_pattern_spec(w@),
{
    let l = lower_chars(w);
    let sp = chars_of(" ");
    let a = replace_char_exec(l.as_slice(), '%', sp.as_slice());
    let b = replace_char_exec(a.as_slice(), '_', sp.as_slice());
    let mut r = chars_of("%");
    append(&mut r, b.as_slice());
    append(&mut r, chars_of("%").as_slice());
    r
}

/// The `WHERE` part for `n` query words: each word adds one clause, the
/// first after ` WHERE (`, the others after ` AND (`.
pub open spec fn where_part(n: nat) -> Seq<char>
    decreases n,
{
    if n == 0 {
        Seq::empty()
    } else {
        where_part((n - 1) as nat) + (if n == 1 {
            " WHERE ("@
        } else {
            " AND ("@
        }) + WORD_CLAUSE@
    }
}

/// The clause that each query word after the first adds.
pub open spec fn and_clause() -> Seq<char> {
    " AND ("@ + WORD_CLAUSE@
}

proof fn lemma_where_part_alt(n: nat)
    requires
        n >= 1,
    ensures
        where_part(n) == " WHERE ("@ + WORD_CLAUSE@ + Seq::new((n - 1) as nat, |i: int| and_clause()).flatten_alt(),
    decreases n,
{
    let f = |i: int| and_clause();
    if n == 1 {
        assert(Seq::new(0nat, f).flatten_alt() =~= Seq::<char>::empty());
        assert(where_part(0) =~= Seq::<char>::empty());
        assert(where_part(1) =~= " WHERE ("@ + WORD_CLAUSE@ + Seq::<char>::empty());
    } else {
        lemma_where_part_alt((n - 1) as nat);
        let s = Seq::new((n - 1) as nat, f);
        assert(s.drop_last() =~= Seq::new((n - 2) as nat, f));
        assert(s.last() == and_clause());
        assert(where_part(n) =~= where_part((n - 1) as nat) + and_clause());
    }
}

/// The condition of the search: for `n` query words, ` WHERE (` and the word
/// clause, then ` AND (` and the word clause once for each further word —
/// every word must match (in the text, the OCR text or the preview), none
/// is joined by `OR`; and no condition at all for an empty query.
pub proof fn search_words_all_required(n: nat)
    ensures
        n == 0 ==> where_part(n) == Seq::<char>::empty(),
        n >= 1 ==> where_part(n) == " WHERE ("@ + WORD_CLAUSE@ + Seq::new((n - 1) as nat, |i: int| and_clause()).flatten(),
        n == 0 ==> search_sql_spec(n) == "SELECT "@ + COLS@ + " FROM entries"@ + " ORDER BY last_used_at DESC LIMIT ?"@,
        n >= 1 ==> search_sql_spec(n) == "SELECT "@ + COLS@ + " FROM entries"@ + " WHERE ("@ + WORD_CLAUSE@ + Seq::new(
            (n - 1) as nat,
            |i: int| and_clause(),
        ).flatten() + " ORDER BY last_used_at DESC LIMIT ?"@,
{
    if n >= 1 {
        lemma_where_part_alt(n);
        Seq::new((n - 1) as nat, |i: int| and_clause()).lemma_flatten_and_flatten_alt_are_equivalent();
    } else {
        assert(where_part(0) =~= Seq::<char>::empty());
    }
    let head = "SELECT "@ + COLS@ + " FROM entries"@;
    let tail = " ORDER BY last_used_at DESC LIMIT ?"@;
    if n >= 1 {
        let fl = Seq::new((n - 1) as nat, |i: int| and_clause()).flatten();
        assert(head + where_part(n) + tail =~= head + " WHERE ("@ + WORD_CLAUSE@ + fl + tail);
    } else {
        assert(head + where_part(n) + tail =~= head + tail);
    }
}

pub open spec fn search_sql_spec(n: nat) -> Seq<char> {
    "SELECT "@ + COLS@ + " FROM entries"@ + where_part(n) + " ORDER BY last_used_at DESC LIMIT ?"@
}

/// Each pattern three times (text, OCR text, preview), in word order.
pub open spec fn tripled(ps: Seq<Seq<char>>) -> Seq<Seq<char>>
    decreases ps.len(),
{
    if ps.len() == 0 {
        ps
    } else {
        tripled(ps.drop_last()) + seq![ps.last(), ps.last(), ps.last()]
    }
}

pub open spec fn patterns_of(words: Seq<Seq<char>>) -> Seq<Seq<char>> {
    Seq::new(words.len(), |i: int| like_pattern_spec(words[i]))
}

/// The decimal text of an `i64` (`to_string`).
pub open spec fn i64_text(v: i64) -> Seq<char> {
    if v < 0 {
        "-"@ + dec((-(v as int)) as nat)
    } else {
        dec(v as nat)
    }
}

pub fn i64_text_exec(v: i64) -> (r: Vec<char>)
    ensures
        r@ == i64_text(v),
{
    if v < 0 {
        let m: u64 = (-(v as i128)) as u64;
        let mut r = chars_of("-");
        append(&mut r, dec_chars(m).as_slice());
        r
    } else {
        dec_chars(v as u64)
    }
}

/// The statement and bound values that search the history newest-first:
/// every whitespace-separated query word must match the text, the OCR text
/// or the preview (case-insensitively); an empty query matches everything.
pub struct SearchStatement {
    pub sql: String,
    pub values: Vec<String>,
}

pub fn search_statement(query: &str, limit: usize) -> (r: SearchStatement)
    ensures
        r.sql@ == search_sql_spec(split_ws(query@).len()),
        crate::text::str_views(r.values@) == tripled(patterns_of(split_ws(query@))).push(
            i64_text(limit as i64),
        ),
{
    let words = split_whitespace(chars_of(query).as_slice());
    let ghost ws = views(words@);
    let mut sql = chars_of("SELECT ");
    append(&mut sql, chars_of(COLS).as_slice());
    append(&mut sql, chars_of(" FROM entries").as_slice());
    let mut values: Vec<String> = Vec::new();
    let ghost pre = "SELECT "@ + COLS@ + " FROM entries"@;
    assert(sql@ == pre);
    for i in 0..words.len()
        invariant
            ws == views(words@),
            sql@ == pre + where_part(i as nat),
            crate::text::str_views(values@) == tripled(patterns_of(ws).take(i as int)),
    {
        if i == 0 {
            append(&mut sql, chars_of(" WHERE (").as_slice());
        } else {
            append(&mut sql, chars_of(" AND (").as_slice());
        }
        append(&mut sql, chars_of(WORD_CLAUSE).as_slice());
        let p = string_of(like_pattern(words[i].as_slice()).as_slice());
        let ghost before = values@;
        values.push(p.clone());
        values.push(p.clone());
        values.push(p);
        proof {
            let pt = patterns_of(ws).take(i + 1);
            assert(pt.drop_last() == patterns_of(ws).take(i as int));
            assert(pt.last() == like_pattern_spec(ws[i as int]));
            assert(crate::text::str_views(values@) =~= crate::text::str_views(before) + seq![
                pt.last(),
                pt.last(),
                pt.last(),
            ]);
        }
    }
    assert(patterns_of(ws).take(ws.len() as int) == patterns_of(ws));
    append(&mut sql, chars_of(" ORDER BY last_used_at DESC LIMIT ?").as_slice());
    let ghost before = values@;
    values.push(string_of(i64_text_exec(limit as i64).as_slice()));
    assert(crate::text::str_views(values@) =~= crate::text::str_views(before).push(
        i64_text(limit as i64),
    ));
    SearchStatement { sql: string_of(sql.as_slice()), values }
}

} // verus!
