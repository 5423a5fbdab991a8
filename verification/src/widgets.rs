//! Starter widgets: text, buttons and columns.
use vstd::prelude::*;

use crate::element::{bare_element, Element, ElementView};
use crate::widget::Widget;

verus! {

/// A run of plain text.
#[derive(Debug, PartialEq, Eq)]
pub struct Text {
    value: String,
}

impl Text {
    pub fn new(value: &str) -> (r: Text)
        ensures
            r.value_view() == value@,
            r.rendered() == bare_element("text"@).with_text(value@),
    {
        Text { value: value.to_owned() }
    }

    /// The text the widget shows.
    pub closed spec fn value_view(self) -> Seq<char> {
        self.value@
    }
}

impl Clone for Text {
    /// A text widget with the same value.
    fn clone(&self) -> (r: Text)
        ensures
            r.value_view() == self.value_view(),
    {
        Text { value: self.value.clone() }
    }
}

impl Widget for Text {
    closed spec fn rendered(&self) -> ElementView {
        bare_element("text"@).with_text(self.value@)
    }

    fn render(&self) -> (e: Element)
        ensures
            e@ == bare_element("text"@).with_text(self.value_view()),
    {
        Element::text(self.value.as_str())
    }
}

/// A push button with a label and an optional click action.
#[derive(Debug, PartialEq, Eq)]
pub struct Button {
    label: String,
    action: Option<String>,
}

/// The element a button with `label` and `action` renders to: a `button`
/// holding the label, with an `on_click` attribute when there is an action.
pub open spec fn button_element(label: Seq<char>, action: Option<Seq<char>>) -> ElementView {
    let e = bare_element("button"@).with_text(label);
    match action {
        Some(a) => e.with_attribute("on_click"@, a),
        None => e,
    }
}

impl Button {
    pub fn new(label: &str) -> (r: Button)
        ensures
            r.label_view() == label@,
            r.action_view() is None,
            r.rendered() == button_element(label@, None),
    {
        Button { label: label.to_owned(), action: None }
    }

    /// Sets the action that a click reports.
    pub fn on_click(self, action: &str) -> (r: Button)
        ensures
            r.label_view() == self.label_view(),
            r.action_view() == Some(action@),
            r.rendered() == button_element(self.label_view(), Some(action@)),
    {
        Button { label: self.label, action: Some(action.to_owned()) }
    }

    /// The label of the button.
    pub closed spec fn label_view(self) -> Seq<char> {
        self.label@
    }

    /// The action that a click reports, if any.
    pub closed spec fn action_view(self) -> Option<Seq<char>> {
        match self.action {
            Some(a) => Some(a@),
            None => None,
        }
    }
}

impl Clone for Button {
    /// A button with the same label and action.
    fn clone(&self) -> (r: Button)
        ensures
            r.label_view() == self.label_view(),
            r.action_view() == self.action_view(),
    {
        let action = match &self.action {
            Some(a) => Some(a.clone()),
            None => None,
        };
        Button { label: self.label.clone(), action }
    }
}

impl Widget for Button {
    closed spec fn rendered(&self) -> ElementView {
        button_element(self.label_view(), self.action_view())
    }

    fn render(&self) -> (e: Element)
        ensures
            e@ == button_element(self.label_view(), self.action_view()),
    {
        let element = Element::new("button").with_text(self.label.as_str());
        match &self.action {
            Some(action) => element.with_attribute("on_click", action.as_str()),
            None => element,
        }
    }
}

/// A vertical stack of rendered children.
#[derive(Debug, PartialEq, Eq)]
pub struct Column {
    children: Vec<Element>,
}

/// The element a column with `children` renders to.
pub open spec fn column_element(children: Seq<ElementView>) -> ElementView {
    ElementView { children, ..bare_element("column"@) }
}

impl Default for Column {
    fn default() -> (r: Column)
        ensures
            r.children_view() == Seq::<ElementView>::empty(),
            r.rendered() == column_element(seq![]),
    {
        let r = Column { children: Vec::new() };
        assert(r.children_view() =~= seq![]);
        r
    }
}

impl Column {
    pub fn new() -> (r: Column)
        ensures
            r.children_view() == Seq::<ElementView>::empty(),
            r.rendered() == column_element(seq![]),
    {
        Column::default()
    }

    /// Renders `child` and appends it.
    pub fn child<W: Widget>(self, child: W) -> (r: Column)
        ensures
            r.children_view() == self.children_view().push(child.rendered()),
            r.rendered() == column_element(self.children_view().push(child.rendered())),
    {
        let mut c = self;
        let e = child.render();
        c.children.push(e);
        proof {
            assert(c.children_view() =~= self.children_view().push(child.rendered())) by {
                assert(c.children@[c.children@.len() - 1]@ == child.rendered());
            }
        }
        c
    }

    /// The rendered children, in order.
    pub closed spec fn children_view(self) -> Seq<ElementView> {
        self.children@.map_values(|e: Element| e@)
    }
}

impl Clone for Column {
    /// A column with the same rendered children.
    fn clone(&self) -> (r: Column)
        ensures
            r.children_view() == self.children_view(),
    {
        let mut children: Vec<Element> = Vec::new();
        let n = self.children.len();
        let mut i: usize = 0;
        while i < n
            invariant
                n == self.children@.len(),
                i <= n,
                children@.len() == i,
                forall|k: int| 0 <= k < i ==> #[trigger] children@[k]@ == self.children@[k]@,
            decreases n - i,
        {
            children.push(self.children[i].duplicate());
            i = i + 1;
        }
        let r = Column { children };
        assert(r.children_view() =~= self.children_view());
        r
    }
}

impl Widget for Column {
    closed spec fn rendered(&self) -> ElementView {
        column_element(self.children_view())
    }

    fn render(&self) -> (e: Element)
        ensures
            e@ == column_element(self.children_view()),
    {
        let mut e = Element::new("column");
        assert(self.children_view().take(0) =~= Seq::<ElementView>::empty());
        assert(e@ =~= column_element(self.children_view().take(0)));
        let n = self.children.len();
        let mut i: usize = 0;
        while i < n
            invariant
                n == self.children@.len(),
                i <= n,
                e@ == column_element(self.children_view().take(i as int)),
            decreases n - i,
        {
            let c = self.children[i].duplicate();
            e = e.with_child(c);
            assert(self.children_view().take(i + 1) =~= self.children_view().take(i as int).push(
                c@,
            ));
            i = i + 1;
        }
        assert(self.children_view().take(n as int) =~= self.children_view());
        e
    }
}

} // verus!
