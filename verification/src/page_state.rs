//! Shared page state: the last loaded page's address and raw text, a
//! textual rendering of its tree, and the framework detected in it.

use vstd::prelude::*;

use crate::node::FrameworkType;

verus! {

/// The state of the page a window shows.
#[derive(Clone, Debug)]
pub struct PageState {
    /// The page's address.
    pub url: String,
    /// The page's raw text.
    pub html: String,
    /// A textual rendering of the parsed tree.
    pub dom: String,
    /// The framework detection answered with, if any.
    pub detected_framework: Option<FrameworkType>,
}

/// The framework tag a name denotes, if any.
pub open spec fn framework_named(s: Seq<char>) -> Option<FrameworkType> {
    if s == "ReactNext"@ {
        Some(FrameworkType::ReactNext)
    } else if s == "Angular"@ {
        Some(FrameworkType::Angular)
    } else if s == "VueNuxt"@ {
        Some(FrameworkType::VueNuxt)
    } else if s == "SvelteKit"@ {
        Some(FrameworkType::SvelteKit)
    } else if s == "WasmModule"@ {
        Some(FrameworkType::WasmModule)
    } else {
        None
    }
}

impl Default for PageState {
    /// An empty page: no address, no text, no tree, nothing detected.
    fn default() -> (r: PageState)
        ensures
            r.url@ == Seq::<char>::empty(),
            r.html@ == Seq::<char>::empty(),
            r.dom@ == Seq::<char>::empty(),
            r.detected_framework is None,
    {
        PageState {
            url: String::new(),
            html: String::new(),
            dom: String::new(),
            detected_framework: None,
        }
    }
}

impl PageState {
    /// The framework tag a name denotes, if any.
    pub fn parse_framework_type(name: &str) -> (r: Option<FrameworkType>)
        ensures
            r == framework_named(name@),
    {
        if crate::text::str_eq(name, "ReactNext") {
            Some(FrameworkType::ReactNext)
        } else if crate::text::str_eq(name, "Angular") {
            Some(FrameworkType::Angular)
        } else if crate::text::str_eq(name, "VueNuxt") {
            Some(FrameworkType::VueNuxt)
        } else if crate::text::str_eq(name, "SvelteKit") {
            Some(FrameworkType::SvelteKit)
        } else if crate::text::str_eq(name, "WasmModule") {
            Some(FrameworkType::WasmModule)
        } else {
            None
        }
    }
}

} // verus!
