//! Naming of the workspace's files.

use vstd::prelude::*;
use crate::text::{chars_of, extend_str, string_of};

verus! {

/// `library/<id>_refactored.epub`, the name of a rebuilt package.
pub fn get_refactored_epub_path(epub_id: &str) -> (r: String)
    ensures
        r@ == "library/"@ + epub_id@ + "_refactored.epub"@,
{
    let mut out = chars_of("library/");
    extend_str(&mut out, epub_id);
    extend_str(&mut out, "_refactored.epub");
    string_of(out.as_slice())
}

} // verus!
