//! Cleaning translated HTML before it is shown.
use vstd::prelude::*;

verus! {

/// What `ammonia`'s default cleaner makes of an HTML fragment.
pub uninterp spec fn ammonia_clean(html: Seq<char>) -> Seq<char>;

/// `ammonia::Builder::default().clean(html).to_string()`: removes scripts,
/// event handlers and other unsafe markup, keeping lists, code and
/// emphasis.  Claimed: the result is the named function of the input.
pub fn sanitize_translation_html(html: &str) -> (s: String)
    ensures
        s@ == ammonia_clean(html@),
{
    clean_html(html)
}

#[verifier::external_body]
fn clean_html(html: &str) -> (s: String)
    ensures
        s@ == ammonia_clean(html@),
{
    ammonia::Builder::default().clean(html).to_string()
}

} // verus!
