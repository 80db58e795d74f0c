//! Named toggles used to filter the displayed tag list.

use vstd::prelude::*;

verus! {

/// A named on/off filter.
pub struct Filter {
    pub name: String,
    pub enabled: bool,
}

/// The mathematical model of a filter.
pub struct FilterView {
    pub name: Seq<char>,
    pub enabled: bool,
}

impl View for Filter {
    type V = FilterView;

    open spec fn view(&self) -> FilterView {
        FilterView { name: self.name@, enabled: self.enabled }
    }
}

impl DeepView for Filter {
    type V = FilterView;

    open spec fn deep_view(&self) -> FilterView {
        self.view()
    }
}

} // verus!
