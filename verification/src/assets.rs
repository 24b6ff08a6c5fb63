//! Names under which the static assets are served.

use vstd::prelude::*;

verus! {

/// The combined theme stylesheet.
pub struct ThemesCss;

impl ThemesCss {
    pub fn resource_name() -> (name: &'static str)
        ensures
            name@ == "themes.css"@,
    {
        "themes.css"
    }
}

/// The site stylesheet.
pub struct StyleCss;

impl StyleCss {
    pub fn resource_name() -> (name: &'static str)
        ensures
            name@ == "style.css"@,
    {
        "style.css"
    }
}

/// The editor script.
pub struct ScriptJs;

impl ScriptJs {
    pub fn resource_name() -> (name: &'static str)
        ensures
            name@ == "script.js"@,
    {
        "script.js"
    }
}

/// The search script.
pub struct SearchJs;

impl SearchJs {
    pub fn resource_name() -> (name: &'static str)
        ensures
            name@ == "search.js"@,
    {
        "search.js"
    }
}

} // verus!
