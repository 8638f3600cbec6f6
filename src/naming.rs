//! The name of the enriched document.
use vstd::prelude::*;

verus! {

/// The file name that marks a document as enriched at `timestamp`.
pub open spec fn enriched_name(stem: Seq<char>, ext: Seq<char>, timestamp: Seq<char>) -> Seq<char> {
    stem + "-with-favicons--"@ + timestamp + "."@ + ext
}

/// The path of the enriched copy of a document: in the same directory `dir`
/// (none if empty), named `<stem>-with-favicons--<timestamp>.<ext>`.
pub fn generate_output_filename(dir: &str, stem: &str, ext: &str, timestamp: &str) -> (r: String)
    ensures
        dir@.len() == 0 ==> r@ == enriched_name(stem@, ext@, timestamp@),
        dir@.len() != 0 ==> r@ == dir@ + "/"@ + enriched_name(stem@, ext@, timestamp@),
{
    let mut r = String::new();
    if dir.unicode_len() != 0 {
        r.append(dir);
        r.append("/");
    }
    r.append(stem);
    r.append("-with-favicons--");
    r.append(timestamp);
    r.append(".");
    r.append(ext);
    r
}

} // verus!
