//! What applying a style does to an element: the exact text of each property
//! it sets, the attributes it leaves in place, and that applying it twice
//! changes nothing more.
use vstd::prelude::*;

use crate::element::{
    law_attribute_others_unchanged, law_attribute_read_back, lemma_first_attribute,
    AttributeView, ElementView,
};
use crate::digits::int_decimal;
use crate::style::{
    align_name, color_hex, font_weight_name, opt_align, opt_decimal, opt_font_weight, opt_hex,
    styled, with_optional, StyleView,
};

verus! {

/// The attributes a style writes, in the order it writes them: each name
/// with its text when the property is set.
pub open spec fn style_entries(s: StyleView) -> Seq<(Seq<char>, Option<Seq<char>>)> {
    seq![
        ("width"@, opt_decimal(s.width)),
        ("min_width"@, opt_decimal(s.min_width)),
        ("max_width"@, opt_decimal(s.max_width)),
        ("height"@, opt_decimal(s.height)),
        ("gap"@, opt_decimal(s.gap)),
        ("align"@, opt_align(s.align)),
        ("font_size"@, opt_decimal(s.font_size)),
        ("font_weight"@, opt_font_weight(s.font_weight)),
        ("color"@, opt_hex(s.color)),
        ("background"@, opt_hex(s.background)),
    ]
}

/// Whether the style sets a property written under `name`.
pub open spec fn style_sets(s: StyleView, name: Seq<char>) -> bool {
    exists|k: int|
        0 <= k < style_entries(s).len() && (#[trigger] style_entries(s)[k]).0 == name
            && style_entries(s)[k].1 is Some
}

/// `e` with the first `n` entries of `es` written in order, each one only
/// when it has a value.
pub open spec fn with_entries(
    e: ElementView,
    es: Seq<(Seq<char>, Option<Seq<char>>)>,
    n: nat,
) -> ElementView
    decreases n,
{
    if n == 0 || n > es.len() {
        e
    } else {
        with_optional(with_entries(e, es, (n - 1) as nat), es[n - 1].0, es[n - 1].1)
    }
}

/// Whether no two entries share a name.
pub open spec fn entry_names_distinct(es: Seq<(Seq<char>, Option<Seq<char>>)>) -> bool {
    forall|i: int, j: int|
        0 <= i < es.len() && 0 <= j < es.len() && i != j ==> (#[trigger] es[i]).0 != (
        #[trigger] es[j]).0
}

/// Whether none of the first `n` entries writes a value under `name`.
pub open spec fn entries_leave(es: Seq<(Seq<char>, Option<Seq<char>>)>, n: nat, name: Seq<char>) -> bool {
    forall|k: int| 0 <= k < n && (#[trigger] es[k]).0 == name ==> es[k].1 is None
}

proof fn lemma_optional_other(e: ElementView, n: Seq<char>, v: Option<Seq<char>>, m: Seq<char>)
    requires
        m != n,
    ensures
        with_optional(e, n, v).attribute(m) == e.attribute(m),
{
    if v is Some {
        law_attribute_others_unchanged(e, n, v->0, m);
    }
}

/// Writing an attribute with the value it already reads as changes nothing.
proof fn lemma_set_same(e: ElementView, name: Seq<char>, value: Seq<char>)
    requires
        e.attribute(name) == Some(value),
    ensures
        e.with_attribute(name, value) == e,
{
    let attrs = e.attributes;
    lemma_first_attribute(attrs, name);
    let i = crate::element::first_attribute(attrs, name)->0;
    assert(attrs[i] == AttributeView { name, value });
    assert(attrs.update(i, AttributeView { name, value }) =~= attrs);
}

/// Writing an optional attribute keeps the name, text and children, keeps the
/// name of every existing attribute in place, and keeps every existing
/// attribute of another name as it was.
proof fn lemma_optional_frame(e: ElementView, n: Seq<char>, v: Option<Seq<char>>, j: int)
    requires
        0 <= j < e.attributes.len(),
    ensures
        ({
            let t = with_optional(e, n, v);
            &&& t.name == e.name
            &&& t.children == e.children
            &&& t.text == e.text
            &&& t.attributes.len() >= e.attributes.len()
            &&& t.attributes[j].name == e.attributes[j].name
            &&& (e.attributes[j].name != n || v is None) ==> t.attributes[j] == e.attributes[j]
        }),
{
    lemma_first_attribute(e.attributes, n);
}

proof fn lemma_entries_frame(
    e: ElementView,
    es: Seq<(Seq<char>, Option<Seq<char>>)>,
    n: nat,
    j: int,
)
    requires
        n <= es.len(),
        0 <= j < e.attributes.len(),
    ensures
        ({
            let t = with_entries(e, es, n);
            &&& t.name == e.name
            &&& t.children == e.children
            &&& t.text == e.text
            &&& t.attributes.len() >= e.attributes.len()
            &&& t.attributes[j].name == e.attributes[j].name
            &&& entries_leave(es, n, e.attributes[j].name) ==> t.attributes[j] == e.attributes[j]
        }),
    decreases n,
{
    if n > 0 {
        lemma_entries_frame(e, es, (n - 1) as nat, j);
        let p = with_entries(e, es, (n - 1) as nat);
        lemma_optional_frame(p, es[n - 1].0, es[n - 1].1, j);
        if entries_leave(es, n, e.attributes[j].name) {
            assert(entries_leave(es, (n - 1) as nat, e.attributes[j].name));
            assert(es[n - 1].0 == e.attributes[j].name ==> es[n - 1].1 is None);
        }
    }
}

proof fn lemma_entries_read_written(
    e: ElementView,
    es: Seq<(Seq<char>, Option<Seq<char>>)>,
    n: nat,
    k: int,
)
    requires
        entry_names_distinct(es),
        n <= es.len(),
        0 <= k < n,
        es[k].1 is Some,
    ensures
        with_entries(e, es, n).attribute(es[k].0) == es[k].1,
    decreases n,
{
    let p = with_entries(e, es, (n - 1) as nat);
    if k == n - 1 {
        law_attribute_read_back(p, es[k].0, es[k].1->0);
    } else {
        lemma_entries_read_written(e, es, (n - 1) as nat, k);
        assert(es[n - 1].0 != es[k].0);
        lemma_optional_other(p, es[n - 1].0, es[n - 1].1, es[k].0);
    }
}

proof fn lemma_entries_read_left(
    e: ElementView,
    es: Seq<(Seq<char>, Option<Seq<char>>)>,
    n: nat,
    name: Seq<char>,
)
    requires
        n <= es.len(),
        entries_leave(es, n, name),
    ensures
        with_entries(e, es, n).attribute(name) == e.attribute(name),
    decreases n,
{
    if n > 0 {
        let p = with_entries(e, es, (n - 1) as nat);
        assert(entries_leave(es, (n - 1) as nat, name));
        lemma_entries_read_left(e, es, (n - 1) as nat, name);
        if es[n - 1].0 != name {
            lemma_optional_other(p, es[n - 1].0, es[n - 1].1, name);
        }
    }
}

/// What entry `k` of distinct entries reads as after all are written: its
/// text when it has one, else what the element read before.
proof fn lemma_entry_reads(e: ElementView, es: Seq<(Seq<char>, Option<Seq<char>>)>, k: int)
    requires
        entry_names_distinct(es),
        0 <= k < es.len(),
    ensures
        with_entries(e, es, es.len()).attribute(es[k].0) == if es[k].1 is Some {
            es[k].1
        } else {
            e.attribute(es[k].0)
        },
{
    if es[k].1 is Some {
        lemma_entries_read_written(e, es, es.len(), k);
    } else {
        assert forall|i: int| 0 <= i < es.len() && (#[trigger] es[i]).0 == es[k].0 implies es[
            i].1 is None by {
            if i != k {
                assert(es[i].0 != es[k].0);
            }
        }
        lemma_entries_read_left(e, es, es.len(), es[k].0);
    }
}

proof fn lemma_entries_identity(e: ElementView, es: Seq<(Seq<char>, Option<Seq<char>>)>, n: nat)
    requires
        n <= es.len(),
        forall|k: int| 0 <= k < n && (#[trigger] es[k]).1 is Some ==> e.attribute(es[k].0) == es[k].1,
    ensures
        with_entries(e, es, n) == e,
    decreases n,
{
    if n > 0 {
        lemma_entries_identity(e, es, (n - 1) as nat);
        let last = es[n - 1];
        if last.1 is Some {
            lemma_set_same(e, last.0, last.1->0);
        }
    }
}

proof fn lemma_style_names_distinct()
    ensures
        "width"@ != "min_width"@,
        "width"@ != "max_width"@,
        "width"@ != "height"@,
        "width"@ != "gap"@,
        "width"@ != "align"@,
        "width"@ != "font_size"@,
        "width"@ != "font_weight"@,
        "width"@ != "color"@,
        "width"@ != "background"@,
        "min_width"@ != "max_width"@,
        "min_width"@ != "height"@,
        "min_width"@ != "gap"@,
        "min_width"@ != "align"@,
        "min_width"@ != "font_size"@,
        "min_width"@ != "font_weight"@,
        "min_width"@ != "color"@,
        "min_width"@ != "background"@,
        "max_width"@ != "height"@,
        "max_width"@ != "gap"@,
        "max_width"@ != "align"@,
        "max_width"@ != "font_size"@,
        "max_width"@ != "font_weight"@,
        "max_width"@ != "color"@,
        "max_width"@ != "background"@,
        "height"@ != "gap"@,
        "height"@ != "align"@,
        "height"@ != "font_size"@,
        "height"@ != "font_weight"@,
        "height"@ != "color"@,
        "height"@ != "background"@,
        "gap"@ != "align"@,
        "gap"@ != "font_size"@,
        "gap"@ != "font_weight"@,
        "gap"@ != "color"@,
        "gap"@ != "background"@,
        "align"@ != "font_size"@,
        "align"@ != "font_weight"@,
        "align"@ != "color"@,
        "align"@ != "background"@,
        "font_size"@ != "font_weight"@,
        "font_size"@ != "color"@,
        "font_size"@ != "background"@,
        "font_weight"@ != "color"@,
        "font_weight"@ != "background"@,
        "color"@ != "background"@,
{
    reveal_strlit("width");
    reveal_strlit("min_width");
    reveal_strlit("max_width");
    reveal_strlit("height");
    reveal_strlit("gap");
    reveal_strlit("align");
    reveal_strlit("font_size");
    reveal_strlit("font_weight");
    reveal_strlit("color");
    reveal_strlit("background");
    assert("width"@.len() != "min_width"@.len());
    assert("width"@.len() != "max_width"@.len());
    assert("width"@.len() != "height"@.len());
    assert("width"@.len() != "gap"@.len());
    assert("width"@[0] != "align"@[0]);
    assert("width"@.len() != "font_size"@.len());
    assert("width"@.len() != "font_weight"@.len());
    assert("width"@[0] != "color"@[0]);
    assert("width"@.len() != "background"@.len());
    assert("min_width"@[1] != "max_width"@[1]);
    assert("min_width"@.len() != "height"@.len());
    assert("min_width"@.len() != "gap"@.len());
    assert("min_width"@.len() != "align"@.len());
    assert("min_width"@[0] != "font_size"@[0]);
    assert("min_width"@.len() != "font_weight"@.len());
    assert("min_width"@.len() != "color"@.len());
    assert("min_width"@.len() != "background"@.len());
    assert("max_width"@.len() != "height"@.len());
    assert("max_width"@.len() != "gap"@.len());
    assert("max_width"@.len() != "align"@.len());
    assert("max_width"@[0] != "font_size"@[0]);
    assert("max_width"@.len() != "font_weight"@.len());
    assert("max_width"@.len() != "color"@.len());
    assert("max_width"@.len() != "background"@.len());
    assert("height"@.len() != "gap"@.len());
    assert("height"@.len() != "align"@.len());
    assert("height"@.len() != "font_size"@.len());
    assert("height"@.len() != "font_weight"@.len());
    assert("height"@.len() != "color"@.len());
    assert("height"@.len() != "background"@.len());
    assert("gap"@.len() != "align"@.len());
    assert("gap"@.len() != "font_size"@.len());
    assert("gap"@.len() != "font_weight"@.len());
    assert("gap"@.len() != "color"@.len());
    assert("gap"@.len() != "background"@.len());
    assert("align"@.len() != "font_size"@.len());
    assert("align"@.len() != "font_weight"@.len());
    assert("align"@[0] != "color"@[0]);
    assert("align"@.len() != "background"@.len());
    assert("font_size"@.len() != "font_weight"@.len());
    assert("font_size"@.len() != "color"@.len());
    assert("font_size"@.len() != "background"@.len());
    assert("font_weight"@.len() != "color"@.len());
    assert("font_weight"@.len() != "background"@.len());
    assert("color"@.len() != "background"@.len());
}

/// The entries of a style have distinct names, and writing them in order is
/// what applying the style does.
proof fn lemma_style_entries(s: StyleView, e: ElementView)
    ensures
        style_entries(s).len() == 10,
        entry_names_distinct(style_entries(s)),
        styled(s, e) == with_entries(e, style_entries(s), 10),
{
    lemma_style_names_distinct();
    let es = style_entries(s);
    assert forall|i: int, j: int|
        0 <= i < es.len() && 0 <= j < es.len() && i != j implies (#[trigger] es[i]).0 != (
        #[trigger] es[j]).0 by {
        assert(i == 0 || i == 1 || i == 2 || i == 3 || i == 4 || i == 5 || i == 6 || i == 7 || i
            == 8 || i == 9);
        assert(j == 0 || j == 1 || j == 2 || j == 3 || j == 4 || j == 5 || j == 6 || j == 7 || j
            == 8 || j == 9);
    }
    reveal_with_fuel(with_entries, 11);
}

/// Applying a style keeps the element's name, text and children. Each
/// property the style sets reads back as exactly the text written for it: a
/// number in decimal, an alignment or weight by its name, a colour as
/// `#rrggbb`. Each property it leaves unset reads as it did before.
pub proof fn law_style_attribute_text(s: StyleView, e: ElementView)
    ensures
        ({
            let t = styled(s, e);
            &&& t.name == e.name
            &&& t.children == e.children
            &&& t.text == e.text
            &&& t.attribute("width"@) == match s.width {
                Some(v) => Some(int_decimal(v as int)),
                None => e.attribute("width"@),
            }
            &&& t.attribute("min_width"@) == match s.min_width {
                Some(v) => Some(int_decimal(v as int)),
                None => e.attribute("min_width"@),
            }
            &&& t.attribute("max_width"@) == match s.max_width {
                Some(v) => Some(int_decimal(v as int)),
                None => e.attribute("max_width"@),
            }
            &&& t.attribute("height"@) == match s.height {
                Some(v) => Some(int_decimal(v as int)),
                None => e.attribute("height"@),
            }
            &&& t.attribute("gap"@) == match s.gap {
                Some(v) => Some(int_decimal(v as int)),
                None => e.attribute("gap"@),
            }
            &&& t.attribute("align"@) == match s.align {
                Some(a) => Some(align_name(a)),
                None => e.attribute("align"@),
            }
            &&& t.attribute("font_size"@) == match s.font_size {
                Some(v) => Some(int_decimal(v as int)),
                None => e.attribute("font_size"@),
            }
            &&& t.attribute("font_weight"@) == match s.font_weight {
                Some(w) => Some(font_weight_name(w)),
                None => e.attribute("font_weight"@),
            }
            &&& t.attribute("color"@) == match s.color {
                Some(c) => Some(color_hex(c)),
                None => e.attribute("color"@),
            }
            &&& t.attribute("background"@) == match s.background {
                Some(c) => Some(color_hex(c)),
                None => e.attribute("background"@),
            }
        }),
{
    lemma_style_entries(s, e);
    let es = style_entries(s);
    assert forall|k: int| 0 <= k < 10 implies with_entries(e, es, 10).attribute((#[trigger] es[k]).0)
        == if es[k].1 is Some {
        es[k].1
    } else {
        e.attribute(es[k].0)
    } by {
        lemma_entry_reads(e, es, k);
    }
    assert(es[0].0 == "width"@);
    assert(es[1].0 == "min_width"@);
    assert(es[2].0 == "max_width"@);
    assert(es[3].0 == "height"@);
    assert(es[4].0 == "gap"@);
    assert(es[5].0 == "align"@);
    assert(es[6].0 == "font_size"@);
    assert(es[7].0 == "font_weight"@);
    assert(es[8].0 == "color"@);
    assert(es[9].0 == "background"@);
    if e.attributes.len() > 0 {
        lemma_entries_frame(e, es, 10, 0);
    } else {
        reveal_with_fuel(with_entries, 11);
    }
}

/// Applying a style keeps every attribute the element had at its position
/// and under its name, and keeps the value of each whose name the style does
/// not set; attributes the style adds come after them.
pub proof fn law_style_keeps_other_attributes(s: StyleView, e: ElementView, j: int)
    requires
        0 <= j < e.attributes.len(),
    ensures
        styled(s, e).attributes.len() >= e.attributes.len(),
        styled(s, e).attributes[j].name == e.attributes[j].name,
        !style_sets(s, e.attributes[j].name) ==> styled(s, e).attributes[j] == e.attributes[j],
{
    lemma_style_entries(s, e);
    lemma_entries_frame(e, style_entries(s), 10, j);
}

/// Applying the same style a second time changes nothing.
pub proof fn law_style_idempotent(s: StyleView, e: ElementView)
    ensures
        styled(s, styled(s, e)) == styled(s, e),
{
    let t = styled(s, e);
    let es = style_entries(s);
    lemma_style_entries(s, e);
    lemma_style_entries(s, t);
    assert forall|k: int| 0 <= k < 10 && (#[trigger] es[k]).1 is Some implies t.attribute(es[k].0)
        == es[k].1 by {
        lemma_entries_read_written(e, es, 10, k);
    }
    lemma_entries_identity(t, es, 10);
}

} // verus!
