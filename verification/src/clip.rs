//! Clipboard content: file lists given as `file://` text, content hashes,
//! list previews and the decision of how an item is kept in the history.
use vstd::prelude::*;

use crate::storage::EntryKind;
use crate::text::{
    append, chars_of, concat, dec, dec_chars, eq_ignore_ascii_case, eq_ignore_case,
    from_utf8_lossy, hex_pad, hex_pad_chars, join, join_strings, lines, lines_of, split_whitespace,
    split_ws, starts_with, str_views, string_of, strings_of, strip_prefix, strip_prefix_exec, trim,
    trim_all, trim_each, utf8_lossy, views,
};

verus! {

/// Text blobs larger than this many bytes are not kept.
pub const MAX_TEXT_BYTES: usize = 1_000_000;

/// One clipboard item.
pub enum ClipContent {
    Text(String),
    Image { width: usize, height: usize, rgba: Vec<u8> },
    /// Paths from a file-manager copy (`text/uri-list`).
    Files(Vec<String>),
}

// ───────────────────────── percent decoding ─────────────────────────

/// The value of an ASCII hex digit.
pub open spec fn hex_value(b: u8) -> Option<u8> {
    if 48 <= b <= 57 {
        Some((b - 48) as u8)
    } else if 97 <= b <= 102 {
        Some((b - 87) as u8)
    } else if 65 <= b <= 70 {
        Some((b - 55) as u8)
    } else {
        None
    }
}

pub fn from_hex(b: u8) -> (r: Option<u8>)
    ensures
        r == hex_value(b),
{
    if b >= 48 && b <= 57 {
        Some(b - 48)
    } else if b >= 97 && b <= 102 {
        Some(b - 87)
    } else if b >= 65 && b <= 70 {
        Some(b - 55)
    } else {
        None
    }
}

/// `%XX` escapes (two hex digits) decoded to their byte; everything else,
/// including a `%` without two hex digits after it, kept.
pub open spec fn pct_decode(b: Seq<u8>) -> Seq<u8>
    decreases b.len(),
{
    if b.len() == 0 {
        b
    } else if b[0] == 37 && 2 < b.len() && hex_value(b[1]) is Some && hex_value(b[2]) is Some {
        seq![(hex_value(b[1])->0 * 16 + hex_value(b[2])->0) as u8] + pct_decode(b.skip(3))
    } else {
        seq![b[0]] + pct_decode(b.skip(1))
    }
}

/// The decoded text of a percent-encoded path.
pub open spec fn percent_decode_spec(s: Seq<char>) -> Seq<char> {
    utf8_lossy(pct_decode(vstd::utf8::encode_utf8(s)))
}

fn pct_decode_exec(b: &[u8]) -> (r: Vec<u8>)
    ensures
        r@ == pct_decode(b@),
{
    let mut out: Vec<u8> = Vec::new();
    let mut i: usize = 0;
    assert(b@.skip(0) == b@);
    while i < b.len()
        invariant
            i <= b@.len(),
            out@ + pct_decode(b@.skip(i as int)) == pct_decode(b@),
        decreases b@.len() - i,
    {
        let ghost rest = b@.skip(i as int);
        if b[i] == 37 && b.len() - i > 2 {
            let hi = from_hex(b[i + 1]);
            let lo = from_hex(b[i + 2]);
            if hi.is_some() && lo.is_some() {
                let h = hi.unwrap();
                let l = lo.unwrap();
                assert(rest[1] == b@[i + 1] && rest[2] == b@[i + 2]);
                assert(rest.skip(3) == b@.skip(i + 3));
                let ghost before = out@;
                out.push(h * 16 + l);
                assert(out@ + pct_decode(b@.skip(i + 3)) == before + pct_decode(rest));
                i = i + 3;
                continue ;
            }
        }
        assert(rest.skip(1) == b@.skip(i + 1));
        let ghost before = out@;
        out.push(b[i]);
        assert(out@ + pct_decode(b@.skip(i + 1)) == before + pct_decode(rest));
        i = i + 1;
    }
    assert(out@ + pct_decode(b@.skip(i as int)) == out@ + Seq::<u8>::empty());
    out
}

/// Decode `%XX` escapes in a `file://` path.
proof fn lemma_pct_decode_plain(b: Seq<u8>)
    requires
        !b.contains(37u8),
    ensures
        pct_decode(b) == b,
    decreases b.len(),
{
    if b.len() > 0 {
        let rest = b.skip(1);
        assert(!rest.contains(37u8)) by {
            if rest.contains(37u8) {
                let i = choose|i: int| 0 <= i < rest.len() && rest[i] == 37u8;
                assert(b[i + 1] == 37u8);
            }
        }
        assert(b[0] != 37u8) by {
            if b[0] == 37u8 {
                assert(b.contains(37u8));
            }
        }
        lemma_pct_decode_plain(rest);
        assert(seq![b[0]] + rest =~= b);
    }
}

proof fn lemma_scalar_no_percent(v: u32)
    requires
        v != 37,
    ensures
        !vstd::utf8::encode_scalar(v).contains(37u8),
{
    let e = vstd::utf8::encode_scalar(v);
    if vstd::utf8::has_width_1_encoding(v) {
        assert(vstd::utf8::leading_byte_width_1(v) != 37u8) by (bit_vector)
            requires
                v != 37,
                v <= 0x7F,
        ;
    } else {
        assert(vstd::utf8::leading_byte_width_2(v) != 37u8) by (bit_vector);
        assert(vstd::utf8::leading_byte_width_3(v) != 37u8) by (bit_vector);
        assert(vstd::utf8::leading_byte_width_4(v) != 37u8) by (bit_vector);
        assert(vstd::utf8::last_continuation_byte(v) != 37u8) by (bit_vector);
        assert(vstd::utf8::second_last_continuation_byte(v) != 37u8) by (bit_vector);
        assert(vstd::utf8::third_last_continuation_byte(v) != 37u8) by (bit_vector);
    }
    assert forall|i: int| 0 <= i < e.len() implies e[i] != 37u8 by {}
}

proof fn lemma_encode_no_percent(s: Seq<char>)
    requires
        !s.contains('%'),
    ensures
        !vstd::utf8::encode_utf8(s).contains(37u8),
    decreases s.len(),
{
    if s.len() > 0 {
        let rest = s.drop_first();
        assert(!rest.contains('%')) by {
            if rest.contains('%') {
                let i = choose|i: int| 0 <= i < rest.len() && rest[i] == '%';
                assert(s[i + 1] == '%');
            }
        }
        lemma_encode_no_percent(rest);
        assert(s[0] != '%') by {
            if s[0] == '%' {
                assert(s.contains('%'));
            }
        }
        assert((s[0] as u32) != 37u32) by {
            vstd::utf8::char_u32_cast(s[0], s[0] as u32);
            if (s[0] as u32) == 37u32 {
                assert((37u32 as char) == '%');
            }
        }
        lemma_scalar_no_percent(s[0] as u32);
        let a = vstd::utf8::encode_scalar(s[0] as u32);
        let b = vstd::utf8::encode_utf8(rest);
        let e = vstd::utf8::encode_utf8(s);
        assert(e == a + b);
        assert forall|i: int| 0 <= i < e.len() implies e[i] != 37u8 by {
            if i < a.len() {
                assert(e[i] == a[i]);
            } else {
                assert(e[i] == b[i - a.len()]);
            }
        }
    }
}

/// Decode `%XX` escapes in a path. A path with no `%` decodes to itself.
pub fn percent_decode(s: &str) -> (r: String)
    ensures
        r@ == percent_decode_spec(s@),
        !s@.contains('%') ==> r@ == s@,
{
    let bytes = s.as_bytes();
    let out = pct_decode_exec(bytes);
    proof {
        if !s@.contains('%') {
            lemma_encode_no_percent(s@);
            lemma_pct_decode_plain(bytes@);
            vstd::utf8::encode_utf8_valid_utf8(s@);
            vstd::utf8::encode_utf8_decode_utf8(s@);
        }
    }
    from_utf8_lossy(out.as_slice())
}

// ───────────────────────── file lists ─────────────────────────

/// Does `Path::new(p).exists()` hold? The answer depends on the disk and is
/// not stated.
#[verifier::external_body]
fn path_exists(p: &str) -> (r: bool) {
    std::path::Path::new(p).exists()
}

/// Reading one trimmed line of a would-be file list: blank and `#` lines are
/// skipped, `file://` lines add their decoded path, `/` lines add themselves
/// when the path exists, anything else means the text is no file list.
pub open spec fn file_list_step(acc: Option<Seq<Seq<char>>>, line: Seq<char>, exists: bool) -> Option<
    Seq<Seq<char>>,
> {
    match acc {
        None => None,
        Some(ps) => if line.len() == 0 || starts_with(line, "#"@) {
            Some(ps)
        } else {
            match strip_prefix(line, "file://"@) {
                Some(rest) => Some(ps.push(percent_decode_spec(rest))),
                None => if starts_with(line, "/"@) && exists {
                    Some(ps.push(line))
                } else {
                    None
                },
            }
        },
    }
}

pub open spec fn flag_at(flags: Seq<bool>, i: int) -> bool {
    0 <= i < flags.len() && flags[i]
}

pub open spec fn file_list_fold(ls: Seq<Seq<char>>, flags: Seq<bool>, n: int) -> Option<Seq<Seq<char>>>
    decreases n,
{
    if n <= 0 {
        Some(Seq::empty())
    } else {
        file_list_step(file_list_fold(ls, flags, n - 1), ls[n - 1], flag_at(flags, n - 1))
    }
}

/// The trimmed lines of a clipboard text.
pub open spec fn trimmed_lines(text: Seq<char>) -> Seq<Seq<char>> {
    trim_each(lines(text))
}

/// The paths of a text that lists files, one per line, where `flags[i]`
/// tells whether the path on line `i` exists; `None` when the text is no
/// file list or lists nothing.
pub open spec fn file_list_spec(text: Seq<char>, flags: Seq<bool>) -> Option<Seq<Seq<char>>> {
    let ls = trimmed_lines(text);
    match file_list_fold(ls, flags, ls.len() as int) {
        Some(ps) => if ps.len() == 0 {
            None
        } else {
            Some(ps)
        },
        None => None,
    }
}

/// A blank or `#` line, which a file list skips.
pub open spec fn skipped_line(l: Seq<char>) -> bool {
    l.len() == 0 || starts_with(l, "#"@)
}

/// A line that names a file: a `file://` URI, or an absolute path that
/// exists.
pub open spec fn line_ok(l: Seq<char>, exists: bool) -> bool {
    strip_prefix(l, "file://"@) is Some || (starts_with(l, "/"@) && exists)
}

/// The path a file-list line names.
pub open spec fn line_path(l: Seq<char>) -> Seq<char> {
    match strip_prefix(l, "file://"@) {
        Some(rest) => percent_decode_spec(rest),
        None => l,
    }
}

/// The indices of the lines among the first `n` that are not skipped.
pub open spec fn listed_lines(ls: Seq<Seq<char>>, n: int) -> Seq<int>
    decreases n,
{
    if n <= 0 {
        Seq::empty()
    } else if skipped_line(ls[n - 1]) {
        listed_lines(ls, n - 1)
    } else {
        listed_lines(ls, n - 1).push(n - 1)
    }
}

proof fn lemma_fold_explained(ls: Seq<Seq<char>>, flags: Seq<bool>, n: int)
    requires
        0 <= n <= ls.len(),
    ensures
        file_list_fold(ls, flags, n) is Some <==> forall|i: int|
            0 <= i < n ==> skipped_line(#[trigger] ls[i]) || line_ok(ls[i], flag_at(flags, i)),
        forall|k: int| 0 <= k < listed_lines(ls, n).len() ==> 0 <= #[trigger] listed_lines(ls, n)[k] < n,
        file_list_fold(ls, flags, n) matches Some(ps) ==> {
            &&& ps.len() == listed_lines(ls, n).len()
            &&& forall|k: int| 0 <= k < ps.len() ==> #[trigger] ps[k] == line_path(ls[listed_lines(ls, n)[k]])
        },
    decreases n,
{
    if n > 0 {
        lemma_fold_explained(ls, flags, n - 1);
        let l = ls[n - 1];
        let prev = file_list_fold(ls, flags, n - 1);
        let ln = listed_lines(ls, n);
        let lp = listed_lines(ls, n - 1);
        assert forall|k: int| 0 <= k < ln.len() implies 0 <= #[trigger] ln[k] < n by {
            if k < lp.len() {
                assert(ln[k] == lp[k]);
            }
        }
        if prev is None {
            assert(!(forall|i: int| 0 <= i < n ==> skipped_line(#[trigger] ls[i]) || line_ok(ls[i], flag_at(flags, i)))) by {
                let j = choose|j: int| 0 <= j < n - 1 && !(skipped_line(#[trigger] ls[j]) || line_ok(ls[j], flag_at(flags, j)));
                assert(!(skipped_line(ls[j]) || line_ok(ls[j], flag_at(flags, j))));
            }
        } else if !skipped_line(l) && !line_ok(l, flag_at(flags, n - 1)) {
            assert(!(skipped_line(ls[n - 1]) || line_ok(ls[n - 1], flag_at(flags, n - 1))));
        } else {
            let ps = prev->0;
            let li = listed_lines(ls, n - 1);
            if !skipped_line(l) {
                let q = file_list_fold(ls, flags, n)->0;
                assert(q == ps.push(line_path(l)));
                assert forall|k: int| 0 <= k < q.len() implies #[trigger] q[k] == line_path(ls[listed_lines(ls, n)[k]]) by {
                    if k < ps.len() {
                        assert(q[k] == ps[k]);
                        assert(listed_lines(ls, n)[k] == li[k]);
                    }
                }
            }
        }
    }
}

/// How a text reads as a file list, given which of its bare paths exist:
/// every line that is not blank or `#` must be a `file://` URI or an
/// existing absolute path, else the text is no file list; then each such
/// line gives one path, in order (the URI decoded), and a text with no such
/// line is no file list either.
pub proof fn file_list_reads_listed_lines(text: Seq<char>, flags: Seq<bool>)
    ensures
        ({
            let ls = trimmed_lines(text);
            let li = listed_lines(ls, ls.len() as int);
            &&& (file_list_spec(text, flags) is Some <==> li.len() > 0 && forall|i: int|
                0 <= i < ls.len() ==> skipped_line(#[trigger] ls[i]) || line_ok(ls[i], flag_at(flags, i)))
            &&& file_list_spec(text, flags) matches Some(ps) ==> {
                &&& ps.len() == li.len()
                &&& forall|k: int| 0 <= k < ps.len() ==> #[trigger] ps[k] == line_path(ls[li[k]])
            }
        }),
{
    let ls = trimmed_lines(text);
    lemma_fold_explained(ls, flags, ls.len() as int);
}

proof fn lemma_fold_stays_none(ls: Seq<Seq<char>>, flags: Seq<bool>, k: int, n: int)
    requires
        0 <= k <= n,
        file_list_fold(ls, flags, k) is None,
    ensures
        file_list_fold(ls, flags, n) is None,
    decreases n - k,
{
    if k < n {
        lemma_fold_stays_none(ls, flags, k + 1, n);
    }
}

/// The file list of `text` given which of its lines name existing paths.
pub fn file_list_from(text: &str, flags: &Vec<bool>) -> (r: Option<Vec<String>>)
    ensures
        match r {
            Some(v) => file_list_spec(text@, flags@) == Some(str_views(v@)),
            None => file_list_spec(text@, flags@) is None,
        },
{
    let raw = lines_of(chars_of(text).as_slice());
    let ls = trim_all(&raw);
    let ghost lv = views(ls@);
    let mut paths: Vec<String> = Vec::new();
    for i in 0..ls.len()
        invariant
            lv == views(ls@),
            lv == trimmed_lines(text@),
            file_list_fold(lv, flags@, i as int) == Some(str_views(paths@)),
    {
        let line = ls[i].as_slice();
        assert(lv[i as int] == line@);
        if line.len() == 0 || crate::text::starts_with_exec(line, chars_of("#").as_slice()) {
        } else {
            match strip_prefix_exec(line, "file://") {
                Some(rest) => {
                    let decoded = percent_decode(string_of(rest.as_slice()).as_str());
                    let ghost before = paths@;
                    paths.push(decoded);
                    assert(str_views(paths@) =~= str_views(before).push(decoded@));
                },
                None => {
                    let ok = i < flags.len() && flags[i];
                    if crate::text::starts_with_exec(line, chars_of("/").as_slice()) && ok {
                        let s = string_of(line);
                        let ghost before = paths@;
                        paths.push(s);
                        assert(str_views(paths@) =~= str_views(before).push(line@));
                    } else {
                        proof {
                            lemma_fold_stays_none(lv, flags@, i + 1, lv.len() as int);
                        }
                        return None;
                    }
                },
            }
        }
    }
    if paths.len() == 0 {
        None
    } else {
        Some(paths)
    }
}

/// Parse `file://…` URI lines into absolute paths. Returns `None` if the
/// text doesn't look like a file list. Bare `/…` lines count only when the
/// path exists on disk.
pub fn parse_file_uri_text(text: &str) -> (r: Option<Vec<String>>)
    ensures
        exists|flags: Seq<bool>|
            match r {
                Some(v) => file_list_spec(text@, flags) == Some(str_views(v@)),
                None => file_list_spec(text@, flags) is None,
            },
{
    let raw = lines_of(chars_of(text).as_slice());
    let ls = trim_all(&raw);
    let mut flags: Vec<bool> = Vec::new();
    for i in 0..ls.len() {
        let line = ls[i].as_slice();
        let check = line.len() > 0 && !crate::text::starts_with_exec(line, chars_of("#").as_slice())
            && strip_prefix_exec(line, "file://").is_none() && crate::text::starts_with_exec(
            line,
            chars_of("/").as_slice(),
        );
        let e = if check {
            path_exists(string_of(line).as_str())
        } else {
            false
        };
        flags.push(e);
    }
    file_list_from(text, &flags)
}

// ───────────────────────── reading ─────────────────────────

/// The item for a non-empty file list from the clipboard, if any.
pub fn content_from_files(paths: Vec<String>) -> (r: Option<ClipContent>)
    ensures
        paths@.len() == 0 ==> r is None,
        paths@.len() > 0 ==> (r matches Some(ClipContent::Files(v)) && v@ == paths@),
{
    if paths.len() == 0 {
        None
    } else {
        Some(ClipContent::Files(paths))
    }
}

/// The item for clipboard text: none when empty, a file list when the text
/// lists files (some apps paste `file://` lists as text), else the text.
pub fn content_from_text(text: String) -> (r: Option<ClipContent>)
    ensures
        text@.len() == 0 ==> r is None,
        text@.len() > 0 ==> match r {
            Some(ClipContent::Files(v)) => exists|flags: Seq<bool>|
                file_list_spec(text@, flags) == Some(str_views(v@)),
            Some(ClipContent::Text(t)) => t@ == text@ && exists|flags: Seq<bool>|
                file_list_spec(text@, flags) is None,
            _ => false,
        },
{
    if text.as_str().is_empty() {
        return None;
    }
    match parse_file_uri_text(text.as_str()) {
        Some(paths) => Some(ClipContent::Files(paths)),
        None => Some(ClipContent::Text(text)),
    }
}

// ───────────────────────── paths ─────────────────────────

/// What `Path::extension` gives for a path (as text), if anything.
pub uninterp spec fn extension_of(p: Seq<char>) -> Option<Seq<char>>;

/// `Path::extension` followed by `OsStr::to_str`: the extension is named
/// as a function of the path text.
#[verifier::external_body]
fn path_extension(p: &str) -> (r: Option<String>)
    ensures
        match r {
            Some(e) => extension_of(p@) == Some(e@),
            None => extension_of(p@) is None,
        },
{
    std::path::Path::new(p).extension().and_then(|e| e.to_str()).map(|e| e.to_string())
}

/// What `Path::file_name` gives for a path (as text), if anything.
pub uninterp spec fn file_name_of(p: Seq<char>) -> Option<Seq<char>>;

/// `Path::file_name` with `to_string_lossy`: the name is a function of the
/// path text.
#[verifier::external_body]
fn path_file_name(p: &str) -> (r: Option<String>)
    ensures
        match r {
            Some(n) => file_name_of(p@) == Some(n@),
            None => file_name_of(p@) is None,
        },
{
    std::path::Path::new(p).file_name().map(|n| n.to_string_lossy().into_owned())
}

/// Extensions of image files.
pub open spec fn image_exts() -> Seq<Seq<char>> {
    seq!["png"@, "jpg"@, "jpeg"@, "webp"@, "bmp"@, "gif"@, "tif"@, "tiff"@]
}

/// Is `ext` an image extension (ignoring ASCII case)?
pub open spec fn is_image_ext_spec(ext: Option<Seq<char>>) -> bool {
    match ext {
        Some(e) => exists|i: int| 0 <= i < image_exts().len() && eq_ignore_ascii_case(e, #[trigger] image_exts()[i]),
        None => false,
    }
}

fn is_image_ext_str(e: &str) -> (r: bool)
    ensures
        r == is_image_ext_spec(Some(e@)),
{
    let ev = chars_of(e);
    let exts: Vec<&str> = vec!["png", "jpg", "jpeg", "webp", "bmp", "gif", "tif", "tiff"];
    assert(exts@.len() == 8);
    for i in 0..exts.len()
        invariant
            ev@ == e@,
            exts@.len() == 8,
            forall|k: int| 0 <= k < 8 ==> (#[trigger] exts@[k])@ == image_exts()[k],
            forall|k: int| 0 <= k < i ==> !eq_ignore_ascii_case(e@, #[trigger] image_exts()[k]),
    {
        if eq_ignore_case(ev.as_slice(), chars_of(exts[i]).as_slice()) {
            assert(eq_ignore_ascii_case(e@, image_exts()[i as int]));
            return true;
        }
    }
    false
}

pub fn is_image_ext(ext: Option<&str>) -> (r: bool)
    ensures
        r == is_image_ext_spec(
            match ext {
                Some(e) => Some(e@),
                None => None,
            },
        ),
{
    match ext {
        None => false,
        Some(e) => is_image_ext_str(e),
    }
}

pub open spec fn is_image_path_spec(p: Seq<char>) -> bool {
    is_image_ext_spec(extension_of(p))
}

/// Does the path name an image file, by its extension?
pub fn is_image_path(path: &str) -> (r: bool)
    ensures
        r == is_image_path_spec(path@),
{
    let ext = path_extension(path);
    match ext {
        Some(e) => is_image_ext(Some(e.as_str())),
        None => is_image_ext(None),
    }
}

/// A file list as text: one path per line.
pub fn paths_as_text(paths: &Vec<String>) -> (r: String)
    ensures
        r@ == join(str_views(paths@), "\n"@),
{
    join_strings(paths, "\n")
}

// ───────────────────────── hashing ─────────────────────────

/// The SeaHash digest of a byte string.
pub uninterp spec fn seahash_of(b: Seq<u8>) -> u64;

/// `seahash::hash`: the digest is named as a function of the bytes.
#[verifier::external_body]
fn seahash(b: &[u8]) -> (r: u64)
    ensures
        r == seahash_of(b@),
{
    seahash::hash(b)
}

/// The bytes an item is hashed by: the text, the pixels, or the path list.
pub open spec fn hash_input(c: ClipContent) -> Seq<u8> {
    match c {
        ClipContent::Text(t) => vstd::utf8::encode_utf8(t@),
        ClipContent::Image { rgba, .. } => rgba@,
        ClipContent::Files(ps) => vstd::utf8::encode_utf8(join(str_views(ps@), "\n"@)),
    }
}

/// The content key of an item with digest `d`: `t`, `i` or `f`, sixteen hex
/// digits, and for images `-<width>x<height>`.
pub open spec fn hash_key(c: ClipContent, d: u64) -> Seq<char> {
    match c {
        ClipContent::Text(_) => "t"@ + hex_pad(d as nat, 16),
        ClipContent::Image { width, height, .. } => "i"@ + hex_pad(d as nat, 16) + "-"@ + dec(
            width as nat,
        ) + "x"@ + dec(height as nat),
        ClipContent::Files(_) => "f"@ + hex_pad(d as nat, 16),
    }
}

pub open spec fn kind_tag(c: ClipContent) -> int {
    match c {
        ClipContent::Text(_) => 0,
        ClipContent::Image { .. } => 1,
        ClipContent::Files(_) => 2,
    }
}

/// Items of different kinds never share a content key, whatever their
/// digests: a text, an image and a file list are kept apart in history.
pub proof fn hash_keys_keep_kinds_apart(a: ClipContent, b: ClipContent, da: u64, db: u64)
    requires
        kind_tag(a) != kind_tag(b),
    ensures
        hash_key(a, da) != hash_key(b, db),
{
    reveal_strlit("t");
    reveal_strlit("i");
    reveal_strlit("f");
    let ka = hash_key(a, da);
    let kb = hash_key(b, db);
    assert(ka.len() > 0 && kb.len() > 0);
    assert(ka[0] != kb[0]);
}

/// The content key of an item given the digest of its bytes.
pub fn format_hash(content: &ClipContent, digest: u64) -> (r: String)
    ensures
        r@ == hash_key(*content, digest),
{
    let hx = hex_pad_chars(digest, 16);
    let r = match content {
        ClipContent::Text(_) => concat(chars_of("t").as_slice(), hx.as_slice()),
        ClipContent::Image { width, height, .. } => {
            let mut v = concat(chars_of("i").as_slice(), hx.as_slice());
            append(&mut v, chars_of("-").as_slice());
            append(&mut v, dec_chars(*width as u64).as_slice());
            append(&mut v, chars_of("x").as_slice());
            append(&mut v, dec_chars(*height as u64).as_slice());
            v
        },
        ClipContent::Files(_) => concat(chars_of("f").as_slice(), hx.as_slice()),
    };
    string_of(r.as_slice())
}

/// Content key used to dedupe history entries.
pub fn content_hash(content: &ClipContent) -> (r: String)
    ensures
        r@ == hash_key(*content, seahash_of(hash_input(*content))),
{
    let digest = match content {
        ClipContent::Text(t) => seahash(t.as_str().as_bytes()),
        ClipContent::Image { rgba, .. } => seahash(rgba.as_slice()),
        ClipContent::Files(paths) => {
            let joined = paths_as_text(paths);
            seahash(joined.as_str().as_bytes())
        },
    };
    format_hash(content, digest)
}

// ───────────────────────── previews ─────────────────────────

/// At most the first `n` characters.
pub open spec fn first_chars(s: Seq<char>, n: nat) -> Seq<char> {
    if s.len() <= n {
        s
    } else {
        s.take(n as int)
    }
}

/// Preview of text: whitespace runs collapsed to single spaces, at most 120
/// characters.
pub open spec fn text_preview_spec(t: Seq<char>) -> Seq<char> {
    first_chars(join(split_ws(t), " "@), 120)
}

pub fn text_preview(t: &str) -> (r: String)
    ensures
        r@ == text_preview_spec(t@),
{
    let words = split_whitespace(chars_of(t).as_slice());
    let one_line = crate::text::join_chars(&words, chars_of(" ").as_slice());
    if one_line.len() <= 120 {
        string_of(one_line.as_slice())
    } else {
        string_of(crate::text::copy_range(one_line.as_slice(), 0, 120).as_slice())
    }
}

pub open spec fn image_preview_spec(width: usize, height: usize) -> Seq<char> {
    "Image "@ + dec(width as nat) + "x"@ + dec(height as nat)
}

pub fn image_preview(width: usize, height: usize) -> (r: String)
    ensures
        r@ == image_preview_spec(width, height),
{
    let mut v = chars_of("Image ");
    append(&mut v, dec_chars(width as u64).as_slice());
    append(&mut v, chars_of("x").as_slice());
    append(&mut v, dec_chars(height as u64).as_slice());
    string_of(v.as_slice())
}

pub open spec fn opt_views(v: Seq<Option<String>>) -> Seq<Option<Seq<char>>> {
    Seq::new(
        v.len(),
        |i: int|
            match v[i] {
                Some(s) => Some(s@),
                None => None,
            },
    )
}

/// The file name known for path `i`, if any.
pub open spec fn name_at(names: Seq<Option<Seq<char>>>, i: int) -> Option<Seq<char>> {
    if 0 <= i < names.len() {
        names[i]
    } else {
        None
    }
}

/// The known names among the first `n` paths, in order.
pub open spec fn known_names(names: Seq<Option<Seq<char>>>, n: int) -> Seq<Seq<char>>
    decreases n,
{
    if n <= 0 {
        Seq::empty()
    } else {
        match name_at(names, n - 1) {
            Some(x) => known_names(names, n - 1).push(x),
            None => known_names(names, n - 1),
        }
    }
}

pub open spec fn min3(n: nat) -> int {
    if n < 3 {
        n as int
    } else {
        3
    }
}

/// Preview of a file list, where `names[i]` is the file name of path `i`:
/// a single path shows its file name (or the path itself), several show
/// their count and the names of the first three.
pub open spec fn files_preview_spec(paths: Seq<Seq<char>>, names: Seq<Option<Seq<char>>>) -> Seq<char> {
    if paths.len() == 1 {
        match name_at(names, 0) {
            Some(n) => n,
            None => paths[0],
        }
    } else {
        dec(paths.len()) + " files: "@ + join(known_names(names, min3(paths.len())), ", "@)
    }
}

pub fn files_preview(paths: &Vec<String>, names: &Vec<Option<String>>) -> (r: String)
    ensures
        r@ == files_preview_spec(str_views(paths@), opt_views(names@)),
{
    let ghost nv = opt_views(names@);
    if paths.len() == 1 {
        if names.len() > 0 {
            match &names[0] {
                Some(n) => {
                    assert(nv[0] == Some(n@));
                    return n.clone();
                },
                None => {},
            }
        }
        return paths[0].clone();
    }
    let m: usize = if paths.len() < 3 {
        paths.len()
    } else {
        3
    };
    let mut known: Vec<String> = Vec::new();
    for i in 0..m
        invariant
            nv == opt_views(names@),
            str_views(known@) == known_names(nv, i as int),
    {
        if i < names.len() {
            match &names[i] {
                Some(n) => {
                    assert(nv[i as int] == Some(n@));
                    let ghost before = known@;
                    known.push(n.clone());
                    assert(str_views(known@) =~= str_views(before).push(n@));
                },
                None => {
                    assert(nv[i as int] is None);
                },
            }
        }
    }
    let mut v = dec_chars(paths.len() as u64);
    append(&mut v, chars_of(" files: ").as_slice());
    append(&mut v, chars_of(join_strings(&known, ", ").as_str()).as_slice());
    string_of(v.as_slice())
}

/// The file names of the first `n` paths, as `Path::file_name` gives them.
pub open spec fn file_names(paths: Seq<Seq<char>>, n: int) -> Seq<Option<Seq<char>>> {
    Seq::new(n as nat, |i: int| file_name_of(paths[i]))
}

/// The one-line preview shown for an item.
pub open spec fn preview_spec(c: ClipContent) -> Seq<char> {
    match c {
        ClipContent::Text(t) => text_preview_spec(t@),
        ClipContent::Image { width, height, .. } => image_preview_spec(width, height),
        ClipContent::Files(ps) => {
            let pv = str_views(ps@);
            files_preview_spec(pv, file_names(pv, min3(pv.len())))
        },
    }
}

pub fn preview_of(content: &ClipContent) -> (r: String)
    ensures
        r@ == preview_spec(*content),
{
    match content {
        ClipContent::Text(t) => text_preview(t.as_str()),
        ClipContent::Image { width, height, .. } => image_preview(*width, *height),
        ClipContent::Files(paths) => {
            let ghost pv = str_views(paths@);
            let m: usize = if paths.len() < 3 {
                paths.len()
            } else {
                3
            };
            let mut names: Vec<Option<String>> = Vec::new();
            for i in 0..m
                invariant
                    pv == str_views(paths@),
                    m <= paths@.len(),
                    opt_views(names@) == file_names(pv, i as int),
            {
                let n = path_file_name(paths[i].as_str());
                let ghost before = names@;
                names.push(n);
                assert(opt_views(names@) =~= opt_views(before).push(file_name_of(pv[i as int])));
                assert(file_names(pv, i + 1) =~= file_names(pv, i as int).push(file_name_of(pv[i as int])));
            }
            files_preview(paths, &names)
        },
    }
}

// ───────────────────────── keeping an item ─────────────────────────

/// How a clipboard item is kept in the history.
pub enum IngestPlan {
    /// Too large to keep.
    Skip,
    /// Keep the text as an entry of this kind.
    Store { kind: EntryKind, text: String },
    /// Save the pixels as the PNG `png_name` in the images directory, keep an
    /// image entry for it and read its text by OCR.
    Pixels { png_name: String },
    /// Copy the single image file `src` to the PNG `png_name` and keep an
    /// image entry with the path list `text`; should the copy fail, keep a
    /// file-list entry and read `src` by OCR instead.
    ImageFile { text: String, src: String, png_name: String },
    /// Keep a file-list entry and read the listed image files `ocr` by OCR.
    Files { text: String, ocr: Vec<String> },
}

/// Byte length of the UTF-8 text beyond `max`?
fn utf8_len_exceeds(v: &[char], max: usize) -> (r: bool)
    requires
        max <= MAX_TEXT_BYTES,
    ensures
        r == (crate::text::utf8_len(v@) > max),
{
    let mut n: usize = 0;
    for i in 0..v.len()
        invariant
            n == crate::text::utf8_len(v@.take(i as int)),
            n <= max,
            max <= MAX_TEXT_BYTES,
    {
        let c = v[i];
        let w: usize = if (c as u32) < 0x80 {
            1
        } else if (c as u32) < 0x800 {
            2
        } else if (c as u32) < 0x10000 {
            3
        } else {
            4
        };
        assert(v@.take(i + 1).drop_last() == v@.take(i as int));
        n = n + w;
        if n > max {
            proof {
                lemma_utf8_len_prefix(v@, i + 1);
            }
            return true;
        }
    }
    assert(v@.take(v@.len() as int) == v@);
    false
}

proof fn lemma_utf8_len_prefix(s: Seq<char>, k: int)
    requires
        0 <= k <= s.len(),
    ensures
        crate::text::utf8_len(s.take(k)) <= crate::text::utf8_len(s),
    decreases s.len() - k,
{
    if k < s.len() {
        lemma_utf8_len_prefix(s, k + 1);
        assert(s.take(k + 1).drop_last() == s.take(k));
    } else {
        assert(s.take(k) == s);
    }
}

/// Text whose lines include a `file://` URI is kept as a file list.
pub open spec fn text_kind(t: Seq<char>) -> EntryKind {
    if exists|i: int| 0 <= i < lines(t).len() && starts_with(trim(#[trigger] lines(t)[i]), "file://"@) {
        EntryKind::Files
    } else {
        EntryKind::Text
    }
}

/// The PNG file name of an item with digest `d`.
pub open spec fn png_name_spec(d: u64) -> Seq<char> {
    hex_pad(d as nat, 16) + ".png"@
}

/// The listed image files that exist as files (`is_file[i]` for path `i`).
pub open spec fn image_files(ps: Seq<Seq<char>>, is_file: Seq<bool>, n: int) -> Seq<Seq<char>>
    decreases n,
{
    if n <= 0 {
        Seq::empty()
    } else if is_image_path_spec(ps[n - 1]) && flag_at(is_file, n - 1) {
        image_files(ps, is_file, n - 1).push(ps[n - 1])
    } else {
        image_files(ps, is_file, n - 1)
    }
}

/// `p` is how `content` with digest `d` is kept, where `is_file[i]` tells
/// whether listed path `i` is a regular file.
pub open spec fn plan_of(p: IngestPlan, content: ClipContent, d: u64, is_file: Seq<bool>) -> bool {
    match content {
        ClipContent::Text(t) => if crate::text::utf8_len(t@) > MAX_TEXT_BYTES {
            p is Skip
        } else {
            p matches IngestPlan::Store { kind, text } && kind == text_kind(t@) && text@ == t@
        },
        ClipContent::Image { .. } => p matches IngestPlan::Pixels { png_name } && png_name@
            == png_name_spec(d),
        ClipContent::Files(ps) => {
            let pv = str_views(ps@);
            let text = join(pv, "\n"@);
            if crate::text::utf8_len(text) > MAX_TEXT_BYTES {
                p is Skip
            } else if pv.len() == 1 && is_image_path_spec(pv[0]) && flag_at(is_file, 0) {
                p matches IngestPlan::ImageFile { text: t, src, png_name } && t@ == text && src@
                    == pv[0] && png_name@ == png_name_spec(d)
            } else {
                p matches IngestPlan::Files { text: t, ocr } && t@ == text && str_views(ocr@)
                    == image_files(pv, is_file, pv.len() as int)
            }
        },
    }
}

fn has_file_uri_line(t: &str) -> (r: bool)
    ensures
        r == (exists|i: int|
            0 <= i < lines(t@).len() && starts_with(trim(#[trigger] lines(t@)[i]), "file://"@)),
{
    let ls = lines_of(chars_of(t).as_slice());
    let ghost lv = views(ls@);
    let pre = chars_of("file://");
    for i in 0..ls.len()
        invariant
            lv == views(ls@),
            lv == lines(t@),
            pre@ == "file://"@,
            forall|k: int| 0 <= k < i ==> !starts_with(trim(#[trigger] lv[k]), "file://"@),
    {
        let tl = crate::text::trim_chars(ls[i].as_slice());
        if crate::text::starts_with_exec(tl.as_slice(), pre.as_slice()) {
            assert(starts_with(trim(lv[i as int]), "file://"@));
            return true;
        }
    }
    false
}

fn png_name(digest: u64) -> (r: String)
    ensures
        r@ == png_name_spec(digest),
{
    let mut v = hex_pad_chars(digest, 16);
    append(&mut v, chars_of(".png").as_slice());
    string_of(v.as_slice())
}

/// How to keep `content`, given the digest of its bytes and which listed
/// paths are regular files.
pub fn plan_ingest_with(content: ClipContent, digest: u64, is_file: &Vec<bool>) -> (r: IngestPlan)
    ensures
        plan_of(r, content, digest, is_file@),
{
    match content {
        ClipContent::Text(t) => {
            if utf8_len_exceeds(chars_of(t.as_str()).as_slice(), MAX_TEXT_BYTES) {
                return IngestPlan::Skip;
            }
            let kind = if has_file_uri_line(t.as_str()) {
                EntryKind::Files
            } else {
                EntryKind::Text
            };
            IngestPlan::Store { kind, text: t }
        },
        ClipContent::Image { .. } => IngestPlan::Pixels { png_name: png_name(digest) },
        ClipContent::Files(paths) => {
            let ghost pv = str_views(paths@);
            let text = paths_as_text(&paths);
            if utf8_len_exceeds(chars_of(text.as_str()).as_slice(), MAX_TEXT_BYTES) {
                return IngestPlan::Skip;
            }
            if paths.len() == 1 && is_image_path(paths[0].as_str()) && is_file.len() > 0
                && is_file[0] {
                let src = paths[0].clone();
                return IngestPlan::ImageFile { text, src, png_name: png_name(digest) };
            }
            let mut ocr: Vec<String> = Vec::new();
            for i in 0..paths.len()
                invariant
                    pv == str_views(paths@),
                    str_views(ocr@) == image_files(pv, is_file@, i as int),
            {
                if is_image_path(paths[i].as_str()) && i < is_file.len() && is_file[i] {
                    let ghost before = ocr@;
                    ocr.push(paths[i].clone());
                    assert(str_views(ocr@) =~= str_views(before).push(pv[i as int]));
                }
            }
            IngestPlan::Files { text, ocr }
        },
    }
}

/// The plan for an item as `ingest` makes it: the digest of its bytes is
/// taken here.
pub fn plan_ingest(content: ClipContent, is_file: &Vec<bool>) -> (r: IngestPlan)
    ensures
        plan_of(r, content, seahash_of(hash_input(content)), is_file@),
{
    let digest = match &content {
        ClipContent::Text(t) => seahash(t.as_str().as_bytes()),
        ClipContent::Image { rgba, .. } => seahash(rgba.as_slice()),
        ClipContent::Files(paths) => {
            let joined = paths_as_text(paths);
            seahash(joined.as_str().as_bytes())
        },
    };
    plan_ingest_with(content, digest, is_file)
}

/// The paths of a staged file list: its non-blank lines, trimmed.
pub fn staged_file_paths(text: &str) -> (r: Vec<String>)
    ensures
        str_views(r@) == crate::text::keep_nonempty(trimmed_lines(text@)),
{
    let raw = lines_of(chars_of(text).as_slice());
    let ls = trim_all(&raw);
    let kept = crate::text::drop_empty(&ls);
    strings_of(&kept)
}

} // verus!
