//! Reading the text that the `tesseract` command prints for an image.
use vstd::prelude::*;

use crate::text::{chars_of, from_utf8_lossy, string_of, trim, trim_chars, utf8_lossy};

verus! {

/// The OCR text of an image from what `tesseract <image> stdout` printed:
/// the output trimmed, or `None` when nothing is left.
pub fn ocr_text_from(stdout: &[u8]) -> (r: Option<String>)
    ensures
        ({
            let t = trim(utf8_lossy(stdout@));
            match r {
                Some(s) => t.len() > 0 && s@ == t,
                None => t.len() == 0,
            }
        }),
{
    let raw = from_utf8_lossy(stdout);
    let t = trim_chars(chars_of(raw.as_str()).as_slice());
    if t.len() == 0 {
        None
    } else {
        Some(string_of(t.as_slice()))
    }
}

} // verus!
