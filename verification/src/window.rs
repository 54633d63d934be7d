//! Panel window naming and the deep link that opens a translation panel.
use crate::text::{dec, radix_string, starts_with, starts_with_str, str_eq};
use vstd::prelude::*;

verus! {

/// URL scheme of the app's deep links.
pub const SCHEME: &'static str = "trapop";

/// Deep-link host that asks for a new panel.
pub const NEW_PANEL_HOST: &'static str = "new";

/// Label prefix of panel windows.
pub const PANEL_LABEL_PREFIX: &'static str = "panel-";

/// A deep-link path that names nothing beyond the host: empty or `/`.
pub open spec fn is_bare_path(path: Seq<char>) -> bool {
    path.len() == 0 || path == "/"@
}

/// Only `trapop://new` asks for a panel; other schemes, hosts and paths are
/// ignored.
pub fn is_new_panel_url(scheme: &str, host: Option<&str>, path: &str) -> (b: bool)
    ensures
        b == (scheme@ == SCHEME@ && crate::engine::opt_view(host) == Some(NEW_PANEL_HOST@) && is_bare_path(path@)),
{
    if !str_eq(scheme, SCHEME) {
        return false;
    }
    let host_ok = match host {
        Some(h) => str_eq(h, NEW_PANEL_HOST),
        None => false,
    };
    host_ok && (path.is_empty() || str_eq(path, "/"))
}

/// Whether a window is a panel (only panels are hidden on close).
pub fn is_panel_label(label: &str) -> (b: bool)
    ensures
        b == starts_with(label@, PANEL_LABEL_PREFIX@),
{
    starts_with_str(label, PANEL_LABEL_PREFIX)
}

/// The label of the `n`-th window with the given prefix.
pub fn numbered_label(prefix: &str, n: u32) -> (label: String)
    ensures
        label@ == prefix@ + dec(n as nat),
{
    let mut label = prefix.to_owned();
    let digits = radix_string(n as u64, 10);
    label.append(digits.as_str());
    label
}

} // verus!
