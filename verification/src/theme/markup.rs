//! A component's markup: the first element of the parsed document that is not
//! `html`, `head` or `body`, turned into a theme node tree of tags, classes, text
//! and child elements.
use vstd::prelude::*;
use html5ever::tendril::TendrilSink;
use super::ThemeNode;
use crate::pipeline::dom::{DomDocument, DomNode, DomNodeKind, ElementData};
use crate::text::{chars_of, split_words, str_eq, string_from_chars, trim, trim_bounds, words, push_range};

verus! {

#[verifier::external_type_specification]
#[verifier::external_body]
pub struct ExRcDomNode(markup5ever_rcdom::Node);

/// The document tree html5ever builds for an HTML text, as plain values.
pub uninterp spec fn html_tree(input: Seq<char>) -> DomNode;

/// Parses an HTML document with `html5ever::parse_document` into a
/// `markup5ever_rcdom::RcDom` and returns its document node as plain values.
/// Claimed: the result depends on the input text alone.
#[verifier::external_body]
fn parse_html(input: &str) -> (r: DomNode)
    ensures
        r == html_tree(input@),
{
    let dom = html5ever::parse_document(markup5ever_rcdom::RcDom::default(), Default::default()).one(input);
    dom_of(&dom.document)
}

/// The conversion half of `parse_html`: an rcdom node and all below it as plain
/// values (element tag and attributes by local name, text, anything else as a node
/// with children only). Nothing is claimed of it; `parse_html` alone is called.
#[verifier::external_body]
fn dom_of(node: &markup5ever_rcdom::Node) -> DomNode {
    let kind = match &node.data {
        markup5ever_rcdom::NodeData::Element { name, attrs, .. } => DomNodeKind::Element(ElementData {
            tag_name: name.local.to_string(),
            attributes: attrs.borrow().iter().map(|a| (a.name.local.to_string(), a.value.to_string())).collect(),
        }),
        markup5ever_rcdom::NodeData::Text { contents } => DomNodeKind::Text(contents.borrow().to_string()),
        _ => DomNodeKind::Other,
    };
    DomNode { kind, children: node.children.borrow().iter().map(|c| dom_of(c)).collect() }
}

/// An element that a component can be drawn from: not `html`, `head` or `body`.
pub open spec fn renderable(n: DomNode) -> bool {
    match n.kind {
        DomNodeKind::Element(el) => el.tag_name@ != "html"@ && el.tag_name@ != "head"@ && el.tag_name@ != "body"@,
        _ => false,
    }
}

/// The first renderable node in document order (the node, then its children's
/// subtrees in order).
pub open spec fn first_renderable(n: DomNode) -> Option<DomNode>
    decreases n, n.children@.len() + 1,
{
    if renderable(n) {
        Some(n)
    } else {
        first_renderable_from(n, 0)
    }
}

/// The first renderable node in the subtrees of the children of `n` from `i` on.
pub open spec fn first_renderable_from(n: DomNode, i: int) -> Option<DomNode>
    decreases n, n.children@.len() - i,
{
    if i < 0 || i >= n.children@.len() {
        None
    } else {
        match first_renderable(n.children@[i]) {
            Some(f) => Some(f),
            None => first_renderable_from(n, i + 1),
        }
    }
}

/// The element a component is drawn from is never `html`, `head` or `body`.
pub proof fn lemma_first_renderable_is(n: DomNode)
    ensures
        first_renderable(n) matches Some(f) ==> renderable(f),
    decreases n, n.children@.len() + 1,
{
    if !renderable(n) {
        lemma_first_renderable_from_is(n, 0);
    }
}

proof fn lemma_first_renderable_from_is(n: DomNode, i: int)
    ensures
        first_renderable_from(n, i) matches Some(f) ==> renderable(f),
    decreases n, n.children@.len() - i,
{
    if 0 <= i < n.children@.len() {
        lemma_first_renderable_is(n.children@[i]);
        lemma_first_renderable_from_is(n, i + 1);
    }
}

/// Finds the first renderable node; see `first_renderable`.
pub fn find_first_renderable_element(node: &DomNode) -> (r: Option<&DomNode>)
    ensures
        match r {
            Some(f) => first_renderable(*node) == Some(*f),
            None => first_renderable(*node) is None,
        },
    decreases node,
{
    match &node.kind {
        DomNodeKind::Element(el) => {
            let t = el.tag_name.as_str();
            if !str_eq(t, "html") && !str_eq(t, "head") && !str_eq(t, "body") {
                return Some(node);
            }
        },
        _ => {},
    }
    let mut i: usize = 0;
    while i < node.children.len()
        invariant
            i <= node.children@.len(),
            !renderable(*node),
            first_renderable(*node) == first_renderable_from(*node, i as int),
        decreases node.children.len() - i,
    {
        match find_first_renderable_element(&node.children[i]) {
            Some(f) => {
                return Some(f);
            },
            None => {},
        }
        i = i + 1;
    }
    None
}

/// The class names of an element: the words of each `class` attribute, in order.
pub open spec fn class_words(attrs: Seq<(String, String)>) -> Seq<Seq<char>>
    decreases attrs.len(),
{
    if attrs.len() == 0 {
        seq![]
    } else {
        class_words(attrs.drop_last()) + if attrs.last().0@ == "class"@ {
            words(attrs.last().1@)
        } else {
            seq![]
        }
    }
}

/// The text of a node: the trimmed text of its text children, the non-empty ones
/// joined by single spaces.
pub open spec fn joined_text(cs: Seq<DomNode>) -> Seq<char>
    decreases cs.len(),
{
    if cs.len() == 0 {
        seq![]
    } else {
        let prev = joined_text(cs.drop_last());
        match cs.last().kind {
            DomNodeKind::Text(c) => {
                let t = trim(c@);
                if t.len() == 0 {
                    prev
                } else if prev.len() == 0 {
                    t
                } else {
                    prev + seq![' '] + t
                }
            },
            _ => prev,
        }
    }
}

/// How many of the nodes are elements.
pub open spec fn elem_count(cs: Seq<DomNode>) -> nat
    decreases cs.len(),
{
    if cs.len() == 0 {
        0
    } else {
        elem_count(cs.drop_last()) + if cs.last().kind is Element { 1nat } else { 0nat }
    }
}

/// `t` is the theme node of the element `n`: its tag, class names and text, and
/// one child for each child element, in order.
pub open spec fn built_as(t: ThemeNode, n: DomNode) -> bool
    decreases n,
{
    match n.kind {
        DomNodeKind::Element(el) => {
            &&& t.tag@ == el.tag_name@
            &&& t.classes@.len() == class_words(el.attributes@).len()
            &&& forall|i: int| 0 <= i < t.classes@.len() ==> (#[trigger] t.classes@[i])@ == class_words(el.attributes@)[i]
            &&& t.text@ == joined_text(n.children@)
            &&& t.children@.len() == elem_count(n.children@)
            &&& forall|j: int|
                0 <= j < n.children@.len() && (#[trigger] n.children@[j]).kind is Element ==> built_as(
                    t.children@[elem_count(n.children@.take(j)) as int],
                    n.children@[j],
                )
        },
        _ => false,
    }
}

proof fn lemma_elem_count_bound(cs: Seq<DomNode>, j: int)
    requires
        0 <= j < cs.len(),
        cs[j].kind is Element,
    ensures
        elem_count(cs.take(j)) < elem_count(cs),
    decreases cs.len(),
{
    if j < cs.len() - 1 {
        assert(cs.drop_last().take(j) =~= cs.take(j));
        lemma_elem_count_bound(cs.drop_last(), j);
    } else {
        assert(cs.drop_last() =~= cs.take(j));
    }
}

fn push_class_words(classes: &mut Vec<String>, attrs: &Vec<(String, String)>)
    ensures
        final(classes)@.len() == old(classes)@.len() + class_words(attrs@).len(),
        forall|i: int| 0 <= i < old(classes)@.len() ==> (#[trigger] final(classes)@[i]) == old(classes)@[i],
        forall|i: int|
            0 <= i < class_words(attrs@).len() ==> (#[trigger] final(classes)@[old(classes)@.len() + i])@
                == class_words(attrs@)[i],
{
    let ghost start = classes@;
    let mut a: usize = 0;
    while a < attrs.len()
        invariant
            a <= attrs@.len(),
            classes@.len() == start.len() + class_words(attrs@.take(a as int)).len(),
            forall|i: int| 0 <= i < start.len() ==> (#[trigger] classes@[i]) == start[i],
            forall|i: int|
                0 <= i < class_words(attrs@.take(a as int)).len() ==> (#[trigger] classes@[start.len() + i])@
                    == class_words(attrs@.take(a as int))[i],
        decreases attrs.len() - a,
    {
        assert(attrs@.take(a + 1).drop_last() =~= attrs@.take(a as int));
        assert(attrs@.take(a + 1).last() == attrs@[a as int]);
        let ghost before = classes@;
        let ghost cw = class_words(attrs@.take(a as int));
        if str_eq(attrs[a].0.as_str(), "class") {
            let v = chars_of(attrs[a].1.as_str());
            assert(v@.subrange(0, v@.len() as int) =~= v@);
            let ws = split_words(v.as_slice(), 0, v.len());
            let mut k: usize = 0;
            while k < ws.len()
                invariant
                    k <= ws@.len(),
                    ws@.len() == words(attrs@[a as int].1@).len(),
                    forall|i: int| 0 <= i < ws@.len() ==> (#[trigger] ws@[i])@ == words(attrs@[a as int].1@)[i],
                    classes@.len() == before.len() + k,
                    forall|i: int| 0 <= i < before.len() ==> (#[trigger] classes@[i]) == before[i],
                    forall|i: int| 0 <= i < k ==> (#[trigger] classes@[before.len() + i])@ == words(attrs@[a as int].1@)[i],
                decreases ws.len() - k,
            {
                classes.push(ws[k].clone());
                k = k + 1;
            }
            assert(class_words(attrs@.take(a + 1)) == cw + words(attrs@[a as int].1@));
            assert forall|i: int| 0 <= i < class_words(attrs@.take(a + 1)).len() implies (#[trigger] classes@[start.len() + i])@
                == class_words(attrs@.take(a + 1))[i] by {
                if i >= cw.len() {
                    assert(classes@[before.len() + (i - cw.len())] == classes@[start.len() + i]);
                }
            }
        } else {
            assert(class_words(attrs@.take(a + 1)) =~= cw);
        }
        a = a + 1;
    }
    assert(attrs@.take(attrs@.len() as int) =~= attrs@);
}

/// The theme node of an element, `None` for any other node; see `built_as`.
pub fn build_node(node: &DomNode) -> (r: Option<ThemeNode>)
    ensures
        r is Some <==> node.kind is Element,
        r matches Some(t) ==> built_as(t, *node),
    decreases node,
{
    let el = match &node.kind {
        DomNodeKind::Element(el) => el,
        _ => {
            return None;
        },
    };
    let tag = el.tag_name.clone();
    let mut classes: Vec<String> = Vec::new();
    push_class_words(&mut classes, &el.attributes);
    let mut text: Vec<char> = Vec::new();
    let mut children: Vec<ThemeNode> = Vec::new();
    let ghost cs = node.children@;
    let mut i: usize = 0;
    while i < node.children.len()
        invariant
            i <= cs.len(),
            cs == node.children@,
            node.kind is Element,
            text@ == joined_text(cs.take(i as int)),
            children@.len() == elem_count(cs.take(i as int)),
            forall|j: int|
                0 <= j < i && (#[trigger] cs[j]).kind is Element ==> built_as(
                    children@[elem_count(cs.take(j)) as int],
                    cs[j],
                ),
        decreases node.children.len() - i,
    {
        let child = &node.children[i];
        assert(cs.take(i + 1).drop_last() =~= cs.take(i as int));
        assert(cs.take(i + 1).last() == cs[i as int]);
        match &child.kind {
            DomNodeKind::Text(contents) => {
                let v = chars_of(contents.as_str());
                assert(v@.subrange(0, v@.len() as int) =~= v@);
                let (a, b) = trim_bounds(v.as_slice(), 0, v.len());
                if a < b {
                    if text.len() > 0 {
                        text.push(' ');
                    }
                    push_range(&mut text, v.as_slice(), a, b);
                }
                proof {
                    assert(text@ =~= joined_text(cs.take(i + 1)));
                    assert(elem_count(cs.take(i + 1)) == elem_count(cs.take(i as int)));
                }
            },
            DomNodeKind::Element(_) => {
                proof {
                    lemma_elem_count_bound(cs.take(i + 1), i as int);
                    assert(cs.take(i + 1).take(i as int) =~= cs.take(i as int));
                }
                let ghost before = children@;
                match build_node(child) {
                    Some(t) => {
                        children.push(t);
                    },
                    None => {},
                }
                proof {
                    assert(elem_count(cs.take(i + 1)) == elem_count(cs.take(i as int)) + 1);
                    assert forall|j: int| 0 <= j < i + 1 && (#[trigger] cs[j]).kind is Element implies built_as(
                        children@[elem_count(cs.take(j)) as int],
                        cs[j],
                    ) by {
                        if j < i {
                            lemma_elem_count_bound(cs.take(i as int), j);
                            assert(cs.take(i as int).take(j) =~= cs.take(j));
                            assert(children@[elem_count(cs.take(j)) as int] == before[elem_count(cs.take(j)) as int]);
                        }
                    }
                }
            },
            DomNodeKind::Other => {
                assert(joined_text(cs.take(i + 1)) == joined_text(cs.take(i as int)));
                assert(elem_count(cs.take(i + 1)) == elem_count(cs.take(i as int)));
            },
        }
        i = i + 1;
    }
    assert(cs.take(cs.len() as int) =~= cs);
    let t = ThemeNode { tag, classes, text: string_from_chars(text.as_slice()), children };
    assert forall|i: int| 0 <= i < t.classes@.len() implies (#[trigger] t.classes@[i])@ == class_words(el.attributes@)[i] by {
        assert(t.classes@[0 + i] == t.classes@[i]);
    }
    Some(t)
}

/// The theme node of a component's markup: that of its first renderable element.
pub fn theme_root_of(dom: &DomNode) -> (r: Option<ThemeNode>)
    ensures
        r is Some <==> first_renderable(*dom) is Some,
        r matches Some(t) ==> built_as(t, first_renderable(*dom)->0),
{
    proof {
        lemma_first_renderable_is(*dom);
    }
    match find_first_renderable_element(dom) {
        Some(el) => build_node(el),
        None => None,
    }
}

/// Parses a component's HTML and builds the theme node of its first renderable
/// element; see `theme_root_of`.
pub fn parse_theme_root_node(input: &str) -> (r: Option<ThemeNode>)
    ensures
        r is Some <==> first_renderable(html_tree(input@)) is Some,
        r matches Some(t) ==> built_as(t, first_renderable(html_tree(input@))->0),
{
    let dom = parse_html(input);
    theme_root_of(&dom)
}

/// Parses an HTML document into the pipeline's document tree; see `html_tree`.
pub fn parse_document(input: &str) -> (d: DomDocument)
    ensures
        d.root == html_tree(input@),
{
    DomDocument { root: parse_html(input) }
}

} // verus!
