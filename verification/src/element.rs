//! The virtual UI tree: elements with a name, attributes, text and children.
use vstd::prelude::*;

verus! {

/// The mathematical form of an [`Attribute`].
pub struct AttributeView {
    pub name: Seq<char>,
    pub value: Seq<char>,
}

/// The mathematical form of an [`Element`]: its whole subtree.
pub struct ElementView {
    pub name: Seq<char>,
    pub attributes: Seq<AttributeView>,
    pub children: Seq<ElementView>,
    pub text: Option<Seq<char>>,
}

/// A named string attribute of an element.
#[derive(Clone, Debug, PartialEq, Eq)]
pub struct Attribute {
    name: String,
    value: String,
}

impl View for Attribute {
    type V = AttributeView;

    closed spec fn view(&self) -> AttributeView {
        AttributeView { name: self.name@, value: self.value@ }
    }
}

/// A node of the UI tree.
#[derive(Debug, PartialEq, Eq)]
pub struct Element {
    name: String,
    attributes: Vec<Attribute>,
    children: Vec<Element>,
    text: Option<String>,
}

/// The views of a sequence of attributes.
pub open spec fn attribute_views(attrs: Seq<Attribute>) -> Seq<AttributeView> {
    attrs.map_values(|a: Attribute| a@)
}

/// The view of an optional string.
pub open spec fn opt_string_view(s: Option<String>) -> Option<Seq<char>> {
    match s {
        Some(t) => Some(t@),
        None => None,
    }
}

closed spec fn element_view(e: Element) -> ElementView
    decreases e,
{
    ElementView {
        name: e.name@,
        attributes: attribute_views(e.attributes@),
        children: elements_view(e.children@),
        text: opt_string_view(e.text),
    }
}

closed spec fn elements_view(cs: Seq<Element>) -> Seq<ElementView>
    decreases cs,
{
    if cs.len() == 0 {
        seq![]
    } else {
        elements_view(cs.drop_last()).push(element_view(cs.last()))
    }
}

impl View for Element {
    type V = ElementView;

    closed spec fn view(&self) -> ElementView {
        element_view(*self)
    }
}

/// Whether the views of `cs` are, in order, the elements of `vs`.
pub open spec fn views_match(cs: Seq<Element>, vs: Seq<ElementView>) -> bool {
    &&& cs.len() == vs.len()
    &&& forall|i: int| 0 <= i < cs.len() ==> #[trigger] cs[i]@ == vs[i]
}

proof fn lemma_elements_view(cs: Seq<Element>)
    ensures
        views_match(cs, elements_view(cs)),
    decreases cs.len(),
{
    if cs.len() > 0 {
        let p = cs.drop_last();
        lemma_elements_view(p);
        let vs = elements_view(cs);
        assert(vs == elements_view(p).push(element_view(cs.last())));
        assert forall|i: int| 0 <= i < cs.len() implies #[trigger] cs[i]@ == vs[i] by {
            if i < cs.len() - 1 {
                assert(p[i] == cs[i]);
            }
        }
    }
}

/// An element with `name` and nothing else.
pub open spec fn bare_element(name: Seq<char>) -> ElementView {
    ElementView { name, attributes: seq![], children: seq![], text: None }
}

/// The index of the first attribute called `name`, if there is one.
pub open spec fn first_attribute(attrs: Seq<AttributeView>, name: Seq<char>) -> Option<int>
    decreases attrs.len(),
{
    if attrs.len() == 0 {
        None
    } else {
        match first_attribute(attrs.drop_last(), name) {
            Some(i) => Some(i),
            None => if attrs.last().name == name {
                Some(attrs.len() - 1)
            } else {
                None
            },
        }
    }
}

/// The value of the first attribute called `name`, if there is one.
pub open spec fn attribute_lookup(attrs: Seq<AttributeView>, name: Seq<char>) -> Option<Seq<char>> {
    match first_attribute(attrs, name) {
        Some(i) => Some(attrs[i].value),
        None => None,
    }
}

/// `attrs` with the first attribute called `name` given `value`, or with a
/// new attribute appended when there is none.
pub open spec fn set_attribute(attrs: Seq<AttributeView>, name: Seq<char>, value: Seq<char>) -> Seq<
    AttributeView,
> {
    match first_attribute(attrs, name) {
        Some(i) => attrs.update(i, AttributeView { name, value }),
        None => attrs.push(AttributeView { name, value }),
    }
}

/// Whether no two attributes share a name.
pub open spec fn names_distinct(attrs: Seq<AttributeView>) -> bool {
    forall|i: int, j: int|
        0 <= i < attrs.len() && 0 <= j < attrs.len() && i != j ==> #[trigger] attrs[i].name
            != #[trigger] attrs[j].name
}

/// The text of the attributes as the element markup writes them.
pub open spec fn attributes_markup(attrs: Seq<AttributeView>) -> Seq<char>
    decreases attrs.len(),
{
    if attrs.len() == 0 {
        seq![]
    } else {
        attributes_markup(attrs.drop_last()) + " "@ + attrs.last().name + "=\""@
            + attrs.last().value + "\""@
    }
}

/// The markup of an element: `<name attr="value">text children</name>`, or
/// `<name attr="value" />` when it has neither text nor children.
pub open spec fn element_markup(e: ElementView) -> Seq<char>
    decreases e,
{
    "<"@ + e.name + attributes_markup(e.attributes) + if e.children.len() == 0 && e.text is None {
        " />"@
    } else {
        ">"@ + (match e.text {
            Some(t) => t,
            None => seq![],
        }) + children_markup(e.children) + "</"@ + e.name + ">"@
    }
}

/// The concatenated markup of a sequence of elements.
pub open spec fn children_markup(cs: Seq<ElementView>) -> Seq<char>
    decreases cs,
{
    if cs.len() == 0 {
        seq![]
    } else {
        children_markup(cs.drop_last()) + element_markup(cs.last())
    }
}

impl ElementView {
    /// The value of the attribute called `name`, as the backend reads it.
    pub open spec fn attribute(self, name: Seq<char>) -> Option<Seq<char>> {
        attribute_lookup(self.attributes, name)
    }

    pub open spec fn with_attribute(self, name: Seq<char>, value: Seq<char>) -> ElementView {
        ElementView { attributes: set_attribute(self.attributes, name, value), ..self }
    }

    pub open spec fn with_child(self, child: ElementView) -> ElementView {
        ElementView { children: self.children.push(child), ..self }
    }

    pub open spec fn with_text(self, text: Seq<char>) -> ElementView {
        ElementView { text: Some(text), ..self }
    }

    pub open spec fn markup(self) -> Seq<char> {
        element_markup(self)
    }
}

/// An element with text `t`, the empty text included, is written as an
/// opening tag with its attributes, the text, the markup of its children and
/// a closing tag.
pub proof fn law_markup_with_text(e: ElementView, t: Seq<char>)
    ensures
        e.with_text(t).markup() == "<"@ + e.name + attributes_markup(e.attributes) + ">"@ + t
            + children_markup(e.children) + "</"@ + e.name + ">"@,
{
}

/// An element is written in the short form `<name attrs />` exactly when it
/// has no text and no children; otherwise as an opening tag, its text (none
/// when it has none), its children and a closing tag.
pub proof fn law_markup_forms(e: ElementView)
    ensures
        e.text is None && e.children.len() == 0 ==> e.markup() == "<"@ + e.name
            + attributes_markup(e.attributes) + " />"@,
        e.text is Some ==> e.markup() == "<"@ + e.name + attributes_markup(e.attributes) + ">"@
            + e.text->0 + children_markup(e.children) + "</"@ + e.name + ">"@,
        e.text is None && e.children.len() > 0 ==> e.markup() == "<"@ + e.name
            + attributes_markup(e.attributes) + ">"@ + children_markup(e.children) + "</"@
            + e.name + ">"@,
{
    assert(Seq::<char>::empty() + children_markup(e.children) =~= children_markup(e.children));
    assert("<"@ + e.name + attributes_markup(e.attributes) + ">"@ + Seq::<char>::empty()
        =~= "<"@ + e.name + attributes_markup(e.attributes) + ">"@);
}

/// Attributes are written in order, each as ` name="value"`; children are
/// written in order, each as its own markup.
pub proof fn law_markup_parts(
    attrs: Seq<AttributeView>,
    a: AttributeView,
    cs: Seq<ElementView>,
    c: ElementView,
)
    ensures
        attributes_markup(Seq::<AttributeView>::empty()) == Seq::<char>::empty(),
        attributes_markup(attrs.push(a)) == attributes_markup(attrs) + " "@ + a.name + "=\""@
            + a.value + "\""@,
        children_markup(Seq::<ElementView>::empty()) == Seq::<char>::empty(),
        children_markup(cs.push(c)) == children_markup(cs) + c.markup(),
{
    assert(attrs.push(a).drop_last() =~= attrs);
    assert(cs.push(c).drop_last() =~= cs);
}

/// Characterises `first_attribute`: the lowest index whose name matches.
pub proof fn lemma_first_attribute(attrs: Seq<AttributeView>, name: Seq<char>)
    ensures
        match first_attribute(attrs, name) {
            Some(i) => 0 <= i < attrs.len() && attrs[i].name == name && forall|j: int|
                0 <= j < i ==> #[trigger] attrs[j].name != name,
            None => forall|j: int| 0 <= j < attrs.len() ==> #[trigger] attrs[j].name != name,
        },
    decreases attrs.len(),
{
    if attrs.len() > 0 {
        lemma_first_attribute(attrs.drop_last(), name);
        match first_attribute(attrs.drop_last(), name) {
            Some(i) => {
                assert forall|j: int| 0 <= j < i implies #[trigger] attrs[j].name != name by {
                    assert(attrs.drop_last()[j] == attrs[j]);
                }
            },
            None => {
                assert forall|j: int| 0 <= j < attrs.len() - 1 implies #[trigger] attrs[j].name
                    != name by {
                    assert(attrs.drop_last()[j] == attrs[j]);
                }
            },
        }
    }
}

/// An index that matches `name` with no earlier match is `first_attribute`.
pub proof fn lemma_first_attribute_at(attrs: Seq<AttributeView>, name: Seq<char>, i: int)
    requires
        0 <= i < attrs.len(),
        attrs[i].name == name,
        forall|j: int| 0 <= j < i ==> #[trigger] attrs[j].name != name,
    ensures
        first_attribute(attrs, name) == Some(i),
{
    lemma_first_attribute(attrs, name);
}

/// Writes the markup of the attributes to `out`.
fn write_attributes(attrs: &Vec<Attribute>, out: &mut String)
    ensures
        final(out)@ == old(out)@ + attributes_markup(attribute_views(attrs@)),
{
    let ghost vs = attribute_views(attrs@);
    let n = attrs.len();
    let mut i: usize = 0;
    while i < n
        invariant
            vs == attribute_views(attrs@),
            n == attrs@.len(),
            i <= n,
            out@ == old(out)@ + attributes_markup(vs.take(i as int)),
        decreases n - i,
    {
        let a = &attrs[i];
        let ghost before = out@;
        out.append(" ");
        out.append(a.name.as_str());
        out.append("=\"");
        out.append(a.value.as_str());
        out.append("\"");
        proof {
            let t = vs.take(i + 1);
            assert(t.drop_last() =~= vs.take(i as int));
            assert(t.last() == a@);
            assert(out@ =~= before + " "@ + a@.name + "=\""@ + a@.value + "\""@);
            assert(out@ =~= old(out)@ + attributes_markup(t));
        }
        i = i + 1;
    }
    assert(vs.take(n as int) =~= vs);
}

pub proof fn lemma_first_attribute_none(attrs: Seq<AttributeView>, name: Seq<char>)
    requires
        forall|j: int| 0 <= j < attrs.len() ==> #[trigger] attrs[j].name != name,
    ensures
        first_attribute(attrs, name) is None,
{
    lemma_first_attribute(attrs, name);
}

/// After `set_attribute`, the first attribute called `name` sits where it sat
/// before, or at the end when there was none.
proof fn lemma_set_attribute_position(attrs: Seq<AttributeView>, name: Seq<char>, value: Seq<char>)
    ensures
        first_attribute(set_attribute(attrs, name, value), name) == Some(
            match first_attribute(attrs, name) {
                Some(i) => i,
                None => attrs.len() as int,
            },
        ),
{
    lemma_first_attribute(attrs, name);
    let after = set_attribute(attrs, name, value);
    match first_attribute(attrs, name) {
        Some(i) => {
            assert forall|j: int| 0 <= j < i implies #[trigger] after[j].name != name by {
                assert(after[j] == attrs[j]);
            }
            lemma_first_attribute_at(after, name, i);
        },
        None => {
            assert forall|j: int| 0 <= j < attrs.len() implies #[trigger] after[j].name != name by {
                assert(after[j] == attrs[j]);
            }
            lemma_first_attribute_at(after, name, attrs.len() as int);
        },
    }
}

/// Reading an attribute back after setting it gives the value that was set.
pub proof fn law_attribute_read_back(e: ElementView, name: Seq<char>, value: Seq<char>)
    ensures
        e.with_attribute(name, value).attribute(name) == Some(value),
{
    lemma_set_attribute_position(e.attributes, name, value);
    lemma_first_attribute(e.attributes, name);
    let after = set_attribute(e.attributes, name, value);
    match first_attribute(e.attributes, name) {
        Some(i) => assert(after[i] == AttributeView { name, value }),
        None => assert(after[e.attributes.len() as int] == AttributeView { name, value }),
    }
}

/// Setting one attribute leaves what every other name reads unchanged.
pub proof fn law_attribute_others_unchanged(
    e: ElementView,
    name: Seq<char>,
    value: Seq<char>,
    other: Seq<char>,
)
    requires
        other != name,
    ensures
        e.with_attribute(name, value).attribute(other) == e.attribute(other),
{
    let attrs = e.attributes;
    let after = set_attribute(attrs, name, value);
    lemma_first_attribute(attrs, name);
    lemma_first_attribute(attrs, other);
    assert forall|j: int| 0 <= j < attrs.len() implies #[trigger] after[j].name == attrs[j].name
        && (after[j].name == other ==> after[j] == attrs[j]) by {}
    match first_attribute(attrs, other) {
        Some(k) => {
            assert forall|j: int| 0 <= j < k implies #[trigger] after[j].name != other by {
                assert(after[j].name == attrs[j].name);
            }
            lemma_first_attribute_at(after, other, k);
        },
        None => {
            assert forall|j: int| 0 <= j < after.len() implies #[trigger] after[j].name != other by {
                if j < attrs.len() {
                    assert(after[j].name == attrs[j].name);
                }
            }
            lemma_first_attribute_none(after, other);
        },
    }
}

/// Setting an attribute twice is the same as setting it once to the second value.
pub proof fn law_attribute_last_write_wins(
    e: ElementView,
    name: Seq<char>,
    first: Seq<char>,
    second: Seq<char>,
)
    ensures
        e.with_attribute(name, first).with_attribute(name, second) == e.with_attribute(
            name,
            second,
        ),
{
    let attrs = e.attributes;
    lemma_set_attribute_position(attrs, name, first);
    let once = set_attribute(attrs, name, first);
    let twice = set_attribute(once, name, second);
    let direct = set_attribute(attrs, name, second);
    lemma_first_attribute(attrs, name);
    match first_attribute(attrs, name) {
        Some(i) => {
            assert(twice == once.update(i, AttributeView { name, value: second }));
            assert(twice =~= direct);
        },
        None => {
            assert(twice == once.update(attrs.len() as int, AttributeView { name, value: second }));
            assert(twice =~= direct);
        },
    }
    assert(e.with_attribute(name, first).with_attribute(name, second) =~= e.with_attribute(
        name,
        second,
    ));
}

/// Setting an attribute keeps the attribute names of an element distinct.
pub proof fn law_attribute_names_stay_distinct(e: ElementView, name: Seq<char>, value: Seq<char>)
    requires
        names_distinct(e.attributes),
    ensures
        names_distinct(e.with_attribute(name, value).attributes),
        e.with_attribute(name, value).attributes.len() == e.attributes.len() + if e.attribute(
            name,
        ) is Some {
            0int
        } else {
            1int
        },
{
    let attrs = e.attributes;
    let after = set_attribute(attrs, name, value);
    lemma_first_attribute(attrs, name);
    match first_attribute(attrs, name) {
        Some(i) => {
            assert forall|j: int| 0 <= j < attrs.len() implies #[trigger] after[j].name
                == attrs[j].name by {}
        },
        None => {
            assert forall|j: int| 0 <= j < attrs.len() implies #[trigger] after[j].name
                == attrs[j].name by {}
            assert(after[attrs.len() as int].name == name);
        },
    }
}

impl Clone for Element {
    /// A copy of the element and its whole subtree.
    fn clone(&self) -> (r: Element)
        ensures
            r@ == self@,
    {
        self.duplicate()
    }
}

impl Attribute {
    /// An attribute called `name` with `value`.
    pub fn new(name: &str, value: &str) -> (r: Attribute)
        ensures
            r@ == (AttributeView { name: name@, value: value@ }),
    {
        Attribute { name: name.to_owned(), value: value.to_owned() }
    }

    pub fn name(&self) -> (r: &str)
        ensures
            r@ == self@.name,
    {
        self.name.as_str()
    }

    pub fn value(&self) -> (r: &str)
        ensures
            r@ == self@.value,
    {
        self.value.as_str()
    }
}

impl Element {
    /// An element called `name` with no attributes, text or children.
    pub fn new(name: &str) -> (r: Element)
        ensures
            r@ == bare_element(name@),
    {
        let r = Element { name: name.to_owned(), attributes: Vec::new(), children: Vec::new(), text: None };
        proof {
            assert(attribute_views(r.attributes@) =~= seq![]);
            assert(elements_view(r.children@) =~= seq![]);
        }
        r
    }

    /// A `text` element holding `value`.
    pub fn text(value: &str) -> (r: Element)
        ensures
            r@ == bare_element("text"@).with_text(value@),
    {
        Element::new("text").with_text(value)
    }

    pub fn name(&self) -> (r: &str)
        ensures
            r@ == self@.name,
    {
        self.name.as_str()
    }

    pub fn attributes(&self) -> (r: &[Attribute])
        ensures
            attribute_views(r@) == self@.attributes,
    {
        self.attributes.as_slice()
    }

    pub fn children(&self) -> (r: &[Element])
        ensures
            views_match(r@, self@.children),
            forall|i: int| 0 <= i < r@.len() ==> decreases_to!(*self => #[trigger] r@[i]),
    {
        proof {
            lemma_elements_view(self.children@);
        }
        self.children.as_slice()
    }

    pub fn text_content(&self) -> (r: Option<&str>)
        ensures
            r is Some <==> self@.text is Some,
            r matches Some(t) ==> self@.text == Some(t@),
    {
        match &self.text {
            Some(t) => Some(t.as_str()),
            None => None,
        }
    }

    /// Sets the attribute called `name` to `value`: the first attribute with
    /// that name has its value replaced, and when there is none the attribute
    /// is appended.
    pub fn with_attribute(self, name: &str, value: &str) -> (r: Element)
        ensures
            r@ == self@.with_attribute(name@, value@),
    {
        let mut e = self;
        let key = name.to_owned();
        let n = e.attributes.len();
        let mut i: usize = 0;
        while i < n
            invariant
                e == self,
                n == e.attributes@.len(),
                i <= n,
                key@ == name@,
                forall|j: int| 0 <= j < i ==> #[trigger] e.attributes@[j]@.name != name@,
            decreases n - i,
        {
            if e.attributes[i].name == key {
                let ghost old_attrs = e.attributes@;
                e.attributes.set(i, Attribute { name: key, value: value.to_owned() });
                proof {
                    let vs = attribute_views(old_attrs);
                    assert forall|j: int| 0 <= j < i implies #[trigger] vs[j].name != name@ by {
                        assert(vs[j] == old_attrs[j]@);
                    }
                    lemma_first_attribute_at(vs, name@, i as int);
                    assert(attribute_views(e.attributes@) =~= set_attribute(vs, name@, value@));
                }
                return e;
            }
            i = i + 1;
        }
        let ghost old_attrs = e.attributes@;
        e.attributes.push(Attribute { name: key, value: value.to_owned() });
        proof {
            let vs = attribute_views(old_attrs);
            lemma_first_attribute(vs, name@);
            if first_attribute(vs, name@) is Some {
                let k = first_attribute(vs, name@)->0;
                assert(vs[k] == old_attrs[k]@);
            }
            assert(attribute_views(e.attributes@) =~= set_attribute(vs, name@, value@));
        }
        e
    }

    /// Appends `child` to the children.
    pub fn with_child(self, child: Element) -> (r: Element)
        ensures
            r@ == self@.with_child(child@),
    {
        let mut e = self;
        let ghost old_children = e.children@;
        e.children.push(child);
        proof {
            assert(e.children@.drop_last() =~= old_children);
        }
        e
    }

    /// The markup text of the element and its subtree.
    pub fn to_string(&self) -> (r: String)
        ensures
            r@ == self@.markup(),
    {
        let mut out = String::new();
        self.write_markup(&mut out);
        assert(out@ =~= self@.markup());
        out
    }

    fn write_markup(&self, out: &mut String)
        ensures
            final(out)@ == old(out)@ + element_markup(self@),
        decreases self,
    {
        let ghost v = self@;
        out.append("<");
        out.append(self.name.as_str());
        write_attributes(&self.attributes, out);
        let ghost head = out@;
        assert(head == old(out)@ + "<"@ + v.name + attributes_markup(v.attributes));
        if self.children.len() == 0 && self.text.is_none() {
            out.append(" />");
            assert(out@ =~= old(out)@ + ("<"@ + v.name + attributes_markup(v.attributes) + " />"@));
            return ;
        }
        out.append(">");
        let ghost text_part = match v.text {
            Some(t) => t,
            None => seq![],
        };
        match &self.text {
            Some(t) => out.append(t.as_str()),
            None => {},
        }
        assert(out@ =~= head + ">"@ + text_part);
        proof {
            lemma_elements_view(self.children@);
        }
        let ghost mid = out@;
        let m = self.children.len();
        let mut k: usize = 0;
        while k < m
            invariant
                v == self@,
                m == self.children@.len(),
                views_match(self.children@, v.children),
                k <= m,
                out@ == mid + children_markup(v.children.take(k as int)),
            decreases m - k,
        {
            let c = &self.children[k];
            let ghost before = out@;
            c.write_markup(out);
            proof {
                let t = v.children.take(k + 1);
                assert(t.drop_last() =~= v.children.take(k as int));
                assert(t.last() == c@);
                assert(out@ =~= mid + children_markup(t));
            }
            k = k + 1;
        }
        assert(v.children.take(m as int) =~= v.children);
        out.append("</");
        out.append(self.name.as_str());
        out.append(">");
        proof {
            let tail = ">"@ + text_part + children_markup(v.children) + "</"@ + v.name + ">"@;
            assert(out@ =~= head + tail);
            assert(!(v.children.len() == 0 && v.text is None));
            assert(element_markup(v) == "<"@ + v.name + attributes_markup(v.attributes) + tail);
            assert(out@ =~= old(out)@ + element_markup(v));
        }
    }

    /// A copy of the element and its whole subtree.
    pub fn duplicate(&self) -> (r: Element)
        ensures
            r@ == self@,
        decreases self,
    {
        let ghost v = self@;
        let mut attributes: Vec<Attribute> = Vec::new();
        let n = self.attributes.len();
        let mut i: usize = 0;
        while i < n
            invariant
                n == self.attributes@.len(),
                i <= n,
                attributes@.len() == i,
                forall|j: int| 0 <= j < i ==> #[trigger] attributes@[j]@ == self.attributes@[j]@,
            decreases n - i,
        {
            let a = &self.attributes[i];
            attributes.push(Attribute { name: a.name.clone(), value: a.value.clone() });
            i = i + 1;
        }
        assert(attribute_views(attributes@) =~= attribute_views(self.attributes@));
        proof {
            lemma_elements_view(self.children@);
        }
        let mut children: Vec<Element> = Vec::new();
        let m = self.children.len();
        let mut k: usize = 0;
        while k < m
            invariant
                v == self@,
                m == self.children@.len(),
                views_match(self.children@, v.children),
                k <= m,
                views_match(children@, v.children.take(k as int)),
            decreases m - k,
        {
            let c = self.children[k].duplicate();
            children.push(c);
            k = k + 1;
        }
        let text = match &self.text {
            Some(t) => Some(t.clone()),
            None => None,
        };
        let r = Element { name: self.name.clone(), attributes, children, text };
        proof {
            lemma_elements_view(r.children@);
            assert(v.children.take(m as int) =~= v.children);
            assert forall|j: int| 0 <= j < m implies #[trigger] elements_view(r.children@)[j]
                == v.children[j] by {
                assert(r.children@[j]@ == v.children.take(m as int)[j]);
            }
            assert(elements_view(r.children@) =~= v.children);
        }
        r
    }

    /// Sets the text content.
    pub fn with_text(self, value: &str) -> (r: Element)
        ensures
            r@ == self@.with_text(value@),
    {
        let mut e = self;
        e.text = Some(value.to_owned());
        e
    }
}

} // verus!
