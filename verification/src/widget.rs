//! Reusable components that render into the element tree.
use vstd::prelude::*;

use crate::element::{Element, ElementView};

verus! {

/// A component that renders itself into an [`Element`].
pub trait Widget {
    /// The element tree that `render` produces.
    spec fn rendered(&self) -> ElementView;

    /// Renders the component into a fresh element tree.
    fn render(&self) -> (e: Element)
        ensures
            e@ == self.rendered(),
    ;
}

} // verus!
