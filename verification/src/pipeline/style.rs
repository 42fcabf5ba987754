//! Style resolution: each element gets the declarations of the rules whose
//! selector names its tag (or `*`), later declarations overriding earlier ones.
use vstd::prelude::*;
use super::dom::{same_dom, DomDocument, DomNode, DomNodeKind};
use crate::keyed::{insert_entry, keyed_view, lemma_inserted_view, set_key};
use crate::text::str_eq;
use crate::theme::css::{css_decls, decl_parts, decls_view, parse_css_declarations};

verus! {

/// A style rule: a selector and its declarations `(property, value)`, in order.
#[derive(Debug, Clone)]
pub struct Rule {
    pub selector: String,
    pub declarations: Vec<(String, String)>,
}

#[derive(Debug, Clone)]
pub struct Stylesheet {
    pub rules: Vec<Rule>,
}

#[derive(Debug)]
pub struct StyledTree {
    pub root: StyledNode,
}

#[derive(Debug)]
pub struct StyledNode {
    pub node: DomNode,
    pub styles: Vec<(String, String)>,
    pub children: Vec<StyledNode>,
}

/// A selector applies to a tag when it is `*` or the tag itself.
pub open spec fn selector_applies(selector: Seq<char>, tag: Seq<char>) -> bool {
    selector == "*"@ || selector == tag
}

/// The table after applying declarations in order.
pub open spec fn apply_decls(kvs: Seq<(Seq<char>, String)>, decls: Seq<(String, String)>) -> Seq<(Seq<char>, String)>
    decreases decls.len(),
{
    if decls.len() == 0 {
        kvs
    } else {
        let prev = apply_decls(kvs, decls.drop_last());
        set_key(prev, decls.last().0@, decls.last().1)
    }
}

/// The table after applying, in order, the rules that apply to `tag`.
pub open spec fn apply_rules(kvs: Seq<(Seq<char>, String)>, rules: Seq<Rule>, tag: Seq<char>) -> Seq<(Seq<char>, String)>
    decreases rules.len(),
{
    if rules.len() == 0 {
        kvs
    } else {
        let prev = apply_rules(kvs, rules.drop_last(), tag);
        if selector_applies(rules.last().selector@, tag) {
            apply_decls(prev, rules.last().declarations@)
        } else {
            prev
        }
    }
}

/// The styles of a node: those of the matching rules for an element, none otherwise.
pub open spec fn node_styles(n: DomNode, rules: Seq<Rule>) -> Seq<(Seq<char>, String)> {
    match n.kind {
        DomNodeKind::Element(el) => apply_rules(seq![], rules, el.tag_name@),
        _ => seq![],
    }
}

/// `s` is the styled version of `n`: same node, its styles, and styled children.
pub open spec fn styled_as(s: StyledNode, n: DomNode, rules: Seq<Rule>) -> bool
    decreases n,
{
    &&& same_dom(s.node, n)
    &&& keyed_view(s.styles@) == node_styles(n, rules)
    &&& s.children@.len() == n.children@.len()
    &&& forall|i: int|
        0 <= i < n.children@.len() ==> styled_as(#[trigger] s.children@[i], n.children@[i], rules)
}

fn selector_matches(selector: &str, tag_name: &str) -> (r: bool)
    ensures
        r == selector_applies(selector@, tag_name@),
{
    str_eq(selector, "*") || str_eq(selector, tag_name)
}

fn extend_styles(styles: &mut Vec<(String, String)>, decls: &Vec<(String, String)>)
    ensures
        keyed_view(final(styles)@) == apply_decls(keyed_view(old(styles)@), decls@),
{
    let ghost start = keyed_view(styles@);
    let mut i: usize = 0;
    while i < decls.len()
        invariant
            i <= decls@.len(),
            keyed_view(styles@) == apply_decls(start, decls@.take(i as int)),
        decreases decls.len() - i,
    {
        let k = decls[i].0.clone();
        let v = decls[i].1.clone();
        proof {
            lemma_inserted_view(styles@, k, v);
        }
        insert_entry(styles, k, v);
        assert(decls@.take(i + 1).drop_last() =~= decls@.take(i as int));
        i = i + 1;
    }
    assert(decls@.take(decls@.len() as int) =~= decls@);
}

fn style_node(node: &DomNode, stylesheet: &Stylesheet) -> (s: StyledNode)
    ensures
        styled_as(s, *node, stylesheet.rules@),
    decreases node,
{
    let mut styles: Vec<(String, String)> = Vec::new();
    match &node.kind {
        DomNodeKind::Element(element) => {
            let mut r: usize = 0;
            while r < stylesheet.rules.len()
                invariant
                    r <= stylesheet.rules@.len(),
                    keyed_view(styles@) == apply_rules(seq![], stylesheet.rules@.take(r as int), element.tag_name@),
                decreases stylesheet.rules.len() - r,
            {
                let rule = &stylesheet.rules[r];
                if selector_matches(rule.selector.as_str(), element.tag_name.as_str()) {
                    extend_styles(&mut styles, &rule.declarations);
                }
                assert(stylesheet.rules@.take(r + 1).drop_last() =~= stylesheet.rules@.take(r as int));
                r = r + 1;
            }
            assert(stylesheet.rules@.take(stylesheet.rules@.len() as int) =~= stylesheet.rules@);
        },
        _ => {
            assert(keyed_view(styles@) =~= seq![]);
        },
    }
    let mut children: Vec<StyledNode> = Vec::new();
    let mut i: usize = 0;
    while i < node.children.len()
        invariant
            i <= node.children@.len(),
            children@.len() == i,
            forall|k: int| 0 <= k < i ==> styled_as(#[trigger] children@[k], node.children@[k], stylesheet.rules@),
        decreases node.children.len() - i,
    {
        children.push(style_node(&node.children[i], stylesheet));
        i = i + 1;
    }
    StyledNode { node: node.copy(), styles, children }
}

/// Styles every node of the document.
pub fn compute_styles(dom: &DomDocument, stylesheet: &Stylesheet) -> (t: StyledTree)
    ensures
        styled_as(t.root, dom.root, stylesheet.rules@),
{
    StyledTree { root: style_node(&dom.root, stylesheet) }
}

/// Rule `r` stands for the declaration `d` = `(selector, property, value)`.
pub open spec fn rule_of_decl(r: Rule, d: (Seq<char>, Seq<char>, Seq<char>)) -> bool {
    &&& r.selector@ == d.0
    &&& r.declarations@.len() == 1
    &&& r.declarations@[0].0@ == d.1
    &&& r.declarations@[0].1@ == d.2
}

/// The style sheet of a CSS text: a rule for each of its declarations, in order;
/// see `css_decls`.
pub fn stylesheet_of(css: &str) -> (s: Stylesheet)
    ensures
        s.rules@.len() == css_decls(css@).len(),
        forall|i: int| 0 <= i < s.rules@.len() ==> rule_of_decl(#[trigger] s.rules@[i], css_decls(css@)[i]),
{
    let decls = parse_css_declarations(css);
    let mut rules: Vec<Rule> = Vec::new();
    let mut i: usize = 0;
    while i < decls.len()
        invariant
            i <= decls@.len(),
            decls_view(decls@) == css_decls(css@),
            rules@.len() == i,
            forall|k: int| 0 <= k < i ==> rule_of_decl(#[trigger] rules@[k], css_decls(css@)[k]),
        decreases decls.len() - i,
    {
        let d = &decls[i];
        assert(decls_view(decls@)[i as int] == decl_parts(decls@[i as int]));
        let declarations = vec![(d.property.clone(), d.value.clone())];
        rules.push(Rule { selector: d.selector.clone(), declarations });
        i = i + 1;
    }
    Stylesheet { rules }
}

} // verus!
