//! What a capture of the pasteboard yields: every flavor it held, and the
//! plain-text and HTML flavors picked out of them.
use crate::sse::{decode_lossy, utf8_lossy};
use crate::text::str_eq;
use vstd::prelude::*;

verus! {

/// Pasteboard type of UTF-8 plain text.
pub const PLAIN_TEXT_FLAVOR: &'static str = "public.utf8-plain-text";

/// Pasteboard type of HTML.
pub const HTML_FLAVOR: &'static str = "public.html";

/// Whether the capture copied a fresh selection or fell back to what the
/// clipboard already held.
#[derive(PartialEq, Eq, Structural, Debug, Clone, Copy)]
pub enum CaptureSource {
    Selection,
    Clipboard,
}

/// One pasteboard flavor and its content as text.
pub struct CaptureFlavor {
    pub flavor: String,
    pub content: String,
}

/// A pasteboard capture.
pub struct CaptureResult {
    pub source: CaptureSource,
    pub plain_text: Option<String>,
    pub html: Option<String>,
    pub flavors: Vec<CaptureFlavor>,
}

/// A flavor read from the pasteboard: its bytes decoded as UTF-8, invalid
/// sequences replaced.
pub fn flavor_from_bytes(flavor: String, bytes: &[u8]) -> (f: CaptureFlavor)
    ensures
        f.flavor == flavor,
        f.content@ == utf8_lossy(bytes@),
{
    CaptureFlavor { flavor, content: decode_lossy(bytes) }
}

/// The content of the first flavor of the given type.
pub open spec fn first_flavor(fs: Seq<CaptureFlavor>, name: Seq<char>) -> Option<Seq<char>>
    decreases fs.len(),
{
    if fs.len() == 0 {
        None
    } else if fs[0].flavor@ == name {
        Some(fs[0].content@)
    } else {
        first_flavor(fs.drop_first(), name)
    }
}

fn find_flavor(fs: &Vec<CaptureFlavor>, name: &str) -> (r: Option<String>)
    ensures
        crate::engine::openai::opt_string_view(r) == first_flavor(fs@, name@),
{
    let mut i: usize = 0;
    assert(fs@.skip(0) =~= fs@);
    while i < fs.len()
        invariant
            i <= fs@.len(),
            first_flavor(fs@, name@) == first_flavor(fs@.skip(i as int), name@),
        decreases fs.len() - i,
    {
        assert(fs@.skip(i as int)[0] == fs@[i as int]);
        assert(fs@.skip(i as int).drop_first() =~= fs@.skip(i + 1));
        if str_eq(fs[i].flavor.as_str(), name) {
            return Some(fs[i].content.clone());
        }
        i += 1;
    }
    None
}

/// A capture of the given flavors: the plain text and the HTML are the
/// contents of the first flavor of each type.
pub fn build_result(flavors: Vec<CaptureFlavor>, source: CaptureSource) -> (r: CaptureResult)
    ensures
        r.source == source,
        r.flavors == flavors,
        crate::engine::openai::opt_string_view(r.plain_text) == first_flavor(flavors@, PLAIN_TEXT_FLAVOR@),
        crate::engine::openai::opt_string_view(r.html) == first_flavor(flavors@, HTML_FLAVOR@),
{
    let plain_text = find_flavor(&flavors, PLAIN_TEXT_FLAVOR);
    let html = find_flavor(&flavors, HTML_FLAVOR);
    CaptureResult { source, plain_text, html, flavors }
}

/// A copy changed the pasteboard (its change count moved) exactly when a
/// selection was copied.
pub fn capture_source(change_count_before: isize, change_count_after: isize) -> (s: CaptureSource)
    ensures
        s == (if change_count_before != change_count_after {
            CaptureSource::Selection
        } else {
            CaptureSource::Clipboard
        }),
{
    if change_count_before != change_count_after {
        CaptureSource::Selection
    } else {
        CaptureSource::Clipboard
    }
}

/// Accepts a capture only when it holds plain text: a capture without
/// (or with empty) plain text is the error `clipboard_empty`; a failed
/// capture keeps its error.
pub fn capture_selection(captured: Result<CaptureResult, String>) -> (r: Result<CaptureResult, String>)
    ensures
        captured matches Err(e) ==> r == Err::<CaptureResult, String>(e),
        captured matches Ok(c) ==> (match c.plain_text {
            Some(t) if t@.len() > 0 => r == Ok::<CaptureResult, String>(c),
            _ => r matches Err(e) && e@ == "clipboard_empty"@,
        }),
{
    let result = match captured {
        Ok(c) => c,
        Err(e) => return Err(e),
    };
    let empty = match &result.plain_text {
        Some(t) => t.as_str().is_empty(),
        None => true,
    };
    if empty {
        return Err("clipboard_empty".to_owned());
    }
    Ok(result)
}

} // verus!
