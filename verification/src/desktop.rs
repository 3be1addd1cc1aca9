//! What the control panel's window shows, and what goes to the browser.
use vstd::prelude::*;

use crate::json::{read_text, text_at};
use crate::text::{same, starts_with, strip_prefix, without_prefix, Text};

verus! {

broadcast use vstd::string::group_string_axioms;

/// What the window is told from outside.
#[derive(Clone, Copy, Debug, PartialEq, Eq, Structural)]
pub enum UserEvent {
    /// A second launch asked this one to come forward.
    Focus,
}

/// The name by which a running instance tells itself from other programs.
pub const INSTANCE_MARKER: &'static str = "tinyinference";

/// Whether the answer of whatever holds the address comes from an instance that
/// already runs there.
pub open spec fn is_instance(status: u16, body: Text) -> bool {
    status == 200 && text_at(body, "/app"@) == Some(INSTANCE_MARKER@)
}

/// Whether the answer of whatever holds the address comes from an instance that
/// already runs there.
pub fn is_running_instance(status: u16, body: &str) -> (r: bool)
    ensures
        r == is_instance(status, body@),
{
    if status != 200 {
        return false;
    }
    match read_text(body, "/app") {
        Some(name) => same(name.as_str(), INSTANCE_MARKER),
        None => false,
    }
}

/// Whether an address is the control panel itself: its root, with a fragment or
/// a query at most.
pub open spec fn control_panel(url: Text, base: Text) -> bool {
    match without_prefix(url, base) {
        Some(rest) => rest.len() == 0 || rest == "/"@ || "/#"@.is_prefix_of(rest)
            || "/?"@.is_prefix_of(rest),
        None => false,
    }
}

/// Whether an address is the control panel itself.
pub fn is_control_panel(url: &str, base: &str) -> (r: bool)
    ensures
        r == control_panel(url@, base@),
{
    match strip_prefix(url, base) {
        Some(rest) => {
            let t: &str = rest.as_str();
            t.unicode_len() == 0 || same(t, "/") || starts_with(t, "/#")
                || starts_with(t, "/?")
        },
        None => false,
    }
}

/// What is done with an address that the window is to show.
#[derive(Clone, Copy, Debug, PartialEq, Eq, Structural)]
pub enum Navigation {
    /// It is shown in the window.
    Stay,
    /// The browser opens it.
    HandOff,
    /// Nothing: it is no address of the web.
    Ignore,
}

/// What is done with an address that the window is to show.
pub open spec fn navigation(url: Text, base: Text) -> Navigation {
    if control_panel(url, base) {
        Navigation::Stay
    } else if "http://"@.is_prefix_of(url) || "https://"@.is_prefix_of(url) {
        Navigation::HandOff
    } else {
        Navigation::Ignore
    }
}

/// Whether the browser may be handed an address: only one of the web.
pub fn hand_off(url: &str) -> (r: bool)
    ensures
        r == ("http://"@.is_prefix_of(url@) || "https://"@.is_prefix_of(url@)),
{
    starts_with(url, "http://") || starts_with(url, "https://")
}

/// What is done with an address that the window is to show.
pub fn navigate(url: &str, base: &str) -> (r: Navigation)
    ensures
        r == navigation(url@, base@),
{
    if is_control_panel(url, base) {
        Navigation::Stay
    } else if hand_off(url) {
        Navigation::HandOff
    } else {
        Navigation::Ignore
    }
}

/// An address that only begins like the control panel's never stays in the
/// window: what follows the base starts at its root.
pub proof fn law_lookalikes_leave_the_window(base: Text, rest: Text)
    requires
        rest.len() > 0,
        rest[0] != '/',
    ensures
        navigation(base + rest, base) != Navigation::Stay,
{
    let url = base + rest;
    reveal_strlit("/");
    reveal_strlit("/#");
    reveal_strlit("/?");
    assert(url.skip(base.len() as int) =~= rest);
    assert("/"@[0] == '/');
    assert("/#"@[0] == '/');
    assert("/?"@[0] == '/');
}

/// Nothing of the same server but the root stays in the window.
pub proof fn law_only_the_root_stays(base: Text, path: Text)
    requires
        path.len() > 1,
        path[0] == '/',
        path[1] != '#',
        path[1] != '?',
    ensures
        navigation(base + path, base) != Navigation::Stay,
{
    let url = base + path;
    reveal_strlit("/");
    reveal_strlit("/#");
    reveal_strlit("/?");
    assert(url.skip(base.len() as int) =~= path);
    assert("/#"@[1] == '#');
    assert("/?"@[1] == '?');
}

} // verus!
