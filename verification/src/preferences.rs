//! How the signed-in person likes the UI, and which of it the Portal checks.

use vstd::prelude::*;
use crate::json::JsonValue;
use crate::projects::{dns1123, is_dns1123};
use crate::text::{append_chars, append_str, chars_of, decimal, decimal_of, str_eq, string_of};

verus! {

/// The largest saved dashboard state, in bytes of its JSON: a saved layout is small, anything
/// bigger is not a layout.
pub const MAX_LAYOUTS_BYTES: usize = 65536;

/// The preferences of one person.
pub struct Preferences {
    /// `light`, `dark` or `system`.
    pub theme: Option<String>,
    /// ISO 639-1 language code.
    pub locale: Option<String>,
    /// The project the shell opens on.
    pub default_project: Option<String>,
    /// Free JSON per dashboard name, in name order: the browser's own saved state.
    pub dashboard_layouts: Vec<(String, JsonValue)>,
}

impl Default for Preferences {
    fn default() -> (p: Self)
        ensures
            p.theme is None && p.locale is None && p.default_project is None,
            p.dashboard_layouts@.len() == 0,
    {
        Preferences { theme: None, locale: None, default_project: None, dashboard_layouts: Vec::new() }
    }
}

pub open spec fn is_theme(t: Seq<char>) -> bool {
    t == "light"@ || t == "dark"@ || t == "system"@
}

/// The first dashboard name that is not a DNS-1123 name, if any.
pub open spec fn first_bad_layout(names: Seq<(String, JsonValue)>) -> Option<Seq<char>>
    decreases names.len(),
{
    if names.len() == 0 {
        None
    } else if !dns1123(names[0].0@) {
        Some(names[0].0@)
    } else {
        first_bad_layout(names.drop_first())
    }
}

/// Why a set of preferences is refused, checked in this order: the theme, the locale (whose
/// verdict `locale_verdict` the language-code rules give), the default project, the dashboard
/// names, and the size of the saved layouts (`layouts_len` bytes of their JSON).
pub open spec fn refusal_of(
    p: Preferences,
    locale_verdict: Result<(), String>,
    layouts_len: usize,
) -> Option<Seq<char>> {
    if p.theme is Some && !is_theme(p.theme->0@) {
        Some("theme '"@ + p.theme->0@ + "' is not light, dark or system"@)
    } else if p.locale is Some && locale_verdict is Err {
        Some(locale_verdict->Err_0@)
    } else if p.default_project is Some && !dns1123(p.default_project->0@) {
        Some("defaultProject '"@ + p.default_project->0@ + "' is not a DNS-1123 name"@)
    } else if first_bad_layout(p.dashboard_layouts@) is Some {
        Some("dashboardLayouts key '"@ + first_bad_layout(p.dashboard_layouts@)->0
            + "' is not a dashboard name"@)
    } else if layouts_len > MAX_LAYOUTS_BYTES {
        Some("dashboardLayouts is "@ + decimal(layouts_len as nat) + " bytes, the limit is "@
            + decimal(MAX_LAYOUTS_BYTES as nat))
    } else {
        None
    }
}

fn bad_layout(names: &Vec<(String, JsonValue)>) -> (r: Option<&String>)
    ensures
        match r {
            Some(n) => first_bad_layout(names@) == Some(n@),
            None => first_bad_layout(names@) is None,
        },
{
    let mut i: usize = 0;
    assert(names@.subrange(0, names@.len() as int) =~= names@);
    while i < names.len()
        invariant
            i <= names@.len(),
            first_bad_layout(names@) == first_bad_layout(names@.subrange(i as int, names@.len() as int)),
        decreases names.len() - i,
    {
        let ghost rest = names@.subrange(i as int, names@.len() as int);
        assert(rest.drop_first() =~= names@.subrange(i + 1, names@.len() as int));
        assert(rest[0] == names@[i as int]);
        if !is_dns1123(names[i].0.as_str()) {
            return Some(&names[i].0);
        }
        i = i + 1;
    }
    None
}

fn quoted(head: &str, middle: &str, tail: &str) -> (s: String)
    ensures
        s@ == head@ + middle@ + tail@,
{
    let mut m: Vec<char> = chars_of(head);
    append_str(&mut m, middle);
    append_str(&mut m, tail);
    string_of(m.as_slice())
}

impl Preferences {
    /// The few fields the Portal understands are checked; the rest is only bounded.
    /// `locale_verdict` is what the language-code rules say of the locale, and `layouts_len`
    /// the length of the dashboard layouts written as JSON.
    pub fn validate(&self, locale_verdict: Result<(), String>, layouts_len: usize) -> (r: Result<(), String>)
        ensures
            match refusal_of(*self, locale_verdict, layouts_len) {
                None => r is Ok,
                Some(m) => r matches Err(e) && e@ == m,
            },
    {
        if let Some(theme) = &self.theme {
            let ok = str_eq(theme.as_str(), "light") || str_eq(theme.as_str(), "dark") || str_eq(
                theme.as_str(),
                "system",
            );
            if !ok {
                return Err(quoted("theme '", theme.as_str(), "' is not light, dark or system"));
            }
        }
        if self.locale.is_some() {
            if let Err(e) = locale_verdict {
                return Err(e);
            }
        }
        if let Some(project) = &self.default_project {
            if !is_dns1123(project.as_str()) {
                return Err(quoted("defaultProject '", project.as_str(), "' is not a DNS-1123 name"));
            }
        }
        if let Some(name) = bad_layout(&self.dashboard_layouts) {
            return Err(quoted("dashboardLayouts key '", name.as_str(), "' is not a dashboard name"));
        }
        if layouts_len > MAX_LAYOUTS_BYTES {
            let mut m: Vec<char> = chars_of("dashboardLayouts is ");
            let n = decimal_of(layouts_len as u64);
            append_chars(&mut m, n.as_slice());
            append_str(&mut m, " bytes, the limit is ");
            let cap = decimal_of(MAX_LAYOUTS_BYTES as u64);
            append_chars(&mut m, cap.as_slice());
            return Err(string_of(m.as_slice()));
        }
        Ok(())
    }
}

} // verus!
