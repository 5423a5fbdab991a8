//! Top-level window configuration.
use vstd::prelude::*;

use crate::element::{Element, ElementView};
use crate::widget::Widget;

verus! {

/// The mathematical form of a [`Window`].
pub struct WindowView {
    pub title: Seq<char>,
    pub width: i32,
    pub height: i32,
    pub root: ElementView,
}

/// A native window with a title, a size and a rendered root element.
pub struct Window {
    title: String,
    width: i32,
    height: i32,
    root: Element,
}

impl View for Window {
    type V = WindowView;

    closed spec fn view(&self) -> WindowView {
        WindowView { title: self.title@, width: self.width, height: self.height, root: self.root@ }
    }
}

impl Window {
    /// A window of 800 by 600 showing `root`.
    pub fn new<W: Widget>(title: &str, root: W) -> (r: Window)
        ensures
            r@ == (WindowView { title: title@, width: 800, height: 600, root: root.rendered() }),
    {
        Window { title: title.to_owned(), width: 800, height: 600, root: root.render() }
    }

    pub fn size(self, width: i32, height: i32) -> (r: Window)
        ensures
            r@ == (WindowView { width, height, ..self@ }),
    {
        Window { width, height, ..self }
    }

    pub fn title(&self) -> (r: &str)
        ensures
            r@ == self@.title,
    {
        self.title.as_str()
    }

    pub fn width(&self) -> (r: i32)
        ensures
            r == self@.width,
    {
        self.width
    }

    pub fn height(&self) -> (r: i32)
        ensures
            r == self@.height,
    {
        self.height
    }

    pub fn root(&self) -> (r: &Element)
        ensures
            r@ == self@.root,
    {
        &self.root
    }

    /// The title, size and root element, for the native backend.
    pub fn into_parts(self) -> (r: (String, i32, i32, Element))
        ensures
            r.0@ == self@.title,
            r.1 == self@.width,
            r.2 == self@.height,
            r.3@ == self@.root,
    {
        (self.title, self.width, self.height, self.root)
    }
}

} // verus!
