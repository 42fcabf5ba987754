//! The document tree the pipeline works on: elements with attributes, text, and
//! other nodes (the document itself, comments, doctypes) that carry only children.
use vstd::prelude::*;

verus! {

#[derive(Debug, Clone)]
pub struct ElementData {
    pub tag_name: String,
    pub attributes: Vec<(String, String)>,
}

#[derive(Debug, Clone)]
pub enum DomNodeKind {
    Element(ElementData),
    Text(String),
    Other,
}

#[derive(Debug)]
pub struct DomNode {
    pub kind: DomNodeKind,
    pub children: Vec<DomNode>,
}

#[derive(Debug)]
pub struct DomDocument {
    pub root: DomNode,
}

fn copy_pairs(v: &Vec<(String, String)>) -> (r: Vec<(String, String)>)
    ensures
        r@ == v@,
{
    let mut r: Vec<(String, String)> = Vec::new();
    let mut i: usize = 0;
    while i < v.len()
        invariant
            i <= v@.len(),
            r@ == v@.take(i as int),
        decreases v.len() - i,
    {
        r.push((v[i].0.clone(), v[i].1.clone()));
        i = i + 1;
        assert(r@ =~= v@.take(i as int));
    }
    assert(v@.take(v@.len() as int) =~= v@);
    r
}

/// Two node kinds hold the same tag, attributes or text.
pub open spec fn same_kind(a: DomNodeKind, b: DomNodeKind) -> bool {
    match (a, b) {
        (DomNodeKind::Element(x), DomNodeKind::Element(y)) => x.tag_name@ == y.tag_name@
            && x.attributes@ == y.attributes@,
        (DomNodeKind::Text(x), DomNodeKind::Text(y)) => x@ == y@,
        (DomNodeKind::Other, DomNodeKind::Other) => true,
        _ => false,
    }
}

/// Two trees have the same shape and contents.
pub open spec fn same_dom(a: DomNode, b: DomNode) -> bool
    decreases a,
{
    &&& same_kind(a.kind, b.kind)
    &&& a.children@.len() == b.children@.len()
    &&& forall|i: int|
        0 <= i < a.children@.len() ==> same_dom(#[trigger] a.children@[i], b.children@[i])
}

impl DomNode {
    /// A deep copy of the node.
    pub fn copy(&self) -> (r: DomNode)
        ensures
            same_dom(r, *self),
        decreases self,
    {
        let kind = match &self.kind {
            DomNodeKind::Element(el) => DomNodeKind::Element(
                ElementData { tag_name: el.tag_name.clone(), attributes: copy_pairs(&el.attributes) },
            ),
            DomNodeKind::Text(t) => DomNodeKind::Text(t.clone()),
            DomNodeKind::Other => DomNodeKind::Other,
        };
        let mut children: Vec<DomNode> = Vec::new();
        let mut i: usize = 0;
        while i < self.children.len()
            invariant
                i <= self.children@.len(),
                children@.len() == i,
                forall|k: int| 0 <= k < i ==> same_dom(#[trigger] children@[k], self.children@[k]),
            decreases self.children.len() - i,
        {
            children.push(self.children[i].copy());
            i = i + 1;
        }
        DomNode { kind, children }
    }
}

} // verus!
