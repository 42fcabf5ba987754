//! The display list: the drawing commands of a laid-out tree, in paint order.
use vstd::prelude::*;
use super::layout::{LayoutNode, LayoutNodeKind, LayoutTree, Rect};
use crate::text::str_eq;

verus! {

#[derive(Debug)]
pub struct DisplayList {
    pub items: Vec<DisplayCommand>,
}

#[derive(Debug, Clone)]
pub enum DisplayCommand {
    FillRect { rect: Rect, color: u32 },
    DrawText { x: i32, y: i32, color: u32, text: String },
}

/// The fill colour of an element box: the page background for `body`, panels otherwise.
pub open spec fn element_color(tag: Seq<char>) -> u32 {
    if tag == "body"@ {
        0xFF202020
    } else {
        0xFF2D2D2D
    }
}

/// Two commands draw the same thing.
pub open spec fn same_command(a: DisplayCommand, b: DisplayCommand) -> bool {
    match (a, b) {
        (
            DisplayCommand::FillRect { rect: r1, color: c1 },
            DisplayCommand::FillRect { rect: r2, color: c2 },
        ) => r1 == r2 && c1 == c2,
        (
            DisplayCommand::DrawText { x: x1, y: y1, color: c1, text: t1 },
            DisplayCommand::DrawText { x: x2, y: y2, color: c2, text: t2 },
        ) => x1 == x2 && y1 == y2 && c1 == c2 && t1@ == t2@,
        _ => false,
    }
}

/// The command of a single node: a filled box for an element, white text at the
/// box's corner for a text node.
pub open spec fn node_command(n: LayoutNode) -> DisplayCommand {
    match n.kind {
        LayoutNodeKind::Element { tag_name } => DisplayCommand::FillRect {
            rect: n.rect,
            color: element_color(tag_name@),
        },
        LayoutNodeKind::Text { content } => DisplayCommand::DrawText {
            x: n.rect.x,
            y: n.rect.y,
            color: 0xFFFFFFFF,
            text: content,
        },
    }
}

/// The commands of a tree in pre-order: a node, then each child's commands in turn.
pub open spec fn preorder(n: LayoutNode) -> Seq<DisplayCommand>
    decreases n,
{
    seq![node_command(n)] + preorder_list(n.children@)
}

pub open spec fn preorder_list(ns: Seq<LayoutNode>) -> Seq<DisplayCommand>
    decreases ns,
{
    if ns.len() == 0 {
        seq![]
    } else {
        preorder_list(ns.drop_last()) + preorder(ns.last())
    }
}

/// `a` and `b` list the same commands.
pub open spec fn same_commands(a: Seq<DisplayCommand>, b: Seq<DisplayCommand>) -> bool {
    a.len() == b.len() && forall|i: int| 0 <= i < a.len() ==> same_command(#[trigger] a[i], b[i])
}

/// The display list of a laid-out tree: one command per node, in pre-order.
pub fn build(layout: &LayoutTree) -> (d: DisplayList)
    ensures
        same_commands(d.items@, preorder(layout.root)),
{
    let mut items: Vec<DisplayCommand> = Vec::new();
    build_for_node(&layout.root, &mut items);
    assert forall|i: int| 0 <= i < preorder(layout.root).len() implies same_command(
        #[trigger] items@[i],
        preorder(layout.root)[i],
    ) by {
        assert(items@[0 + i] == items@[i]);
    }
    d_list(items)
}

fn d_list(items: Vec<DisplayCommand>) -> (d: DisplayList)
    ensures
        d.items@ == items@,
{
    DisplayList { items }
}

fn build_for_node(node: &LayoutNode, out: &mut Vec<DisplayCommand>)
    ensures
        final(out)@.len() == old(out)@.len() + preorder(*node).len(),
        forall|i: int| 0 <= i < old(out)@.len() ==> #[trigger] final(out)@[i] == old(out)@[i],
        forall|i: int|
            0 <= i < preorder(*node).len() ==> same_command(
                #[trigger] final(out)@[old(out)@.len() + i],
                preorder(*node)[i],
            ),
    decreases node,
{
    let ghost start = out@;
    match &node.kind {
        LayoutNodeKind::Element { tag_name } => {
            let color = if str_eq(tag_name.as_str(), "body") { 0xFF202020u32 } else { 0xFF2D2D2Du32 };
            out.push(DisplayCommand::FillRect { rect: node.rect, color });
        },
        LayoutNodeKind::Text { content } => {
            out.push(
                DisplayCommand::DrawText {
                    x: node.rect.x,
                    y: node.rect.y,
                    color: 0xFFFFFFFF,
                    text: content.clone(),
                },
            );
        },
    }
    let mut i: usize = 0;
    while i < node.children.len()
        invariant
            i <= node.children@.len(),
            out@.len() == start.len() + 1 + preorder_list(node.children@.take(i as int)).len(),
            forall|k: int| 0 <= k < start.len() ==> #[trigger] out@[k] == start[k],
            same_command(out@[start.len() as int], node_command(*node)),
            forall|k: int|
                0 <= k < preorder_list(node.children@.take(i as int)).len() ==> same_command(
                    #[trigger] out@[start.len() + 1 + k],
                    preorder_list(node.children@.take(i as int))[k],
                ),
        decreases node.children.len() - i,
    {
        let ghost mid = out@;
        let ghost prev = preorder_list(node.children@.take(i as int));
        build_for_node(&node.children[i], out);
        assert(node.children@.take(i + 1).drop_last() =~= node.children@.take(i as int));
        assert(node.children@.take(i + 1).last() == node.children@[i as int]);
        i = i + 1;
        assert forall|k: int|
            0 <= k < preorder_list(node.children@.take(i as int)).len() implies same_command(
            #[trigger] out@[start.len() + 1 + k],
            preorder_list(node.children@.take(i as int))[k],
        ) by {
            if k >= prev.len() {
                assert(out@[start.len() + 1 + k] == out@[mid.len() + (k - prev.len())]);
            } else {
                assert(out@[start.len() + 1 + k] == mid[start.len() + 1 + k]);
            }
        }
    }
    assert(node.children@.take(node.children@.len() as int) =~= node.children@);
    assert forall|k: int| 0 <= k < preorder(*node).len() implies same_command(
        #[trigger] out@[start.len() + k],
        preorder(*node)[k],
    ) by {
        if k > 0 {
            assert(out@[start.len() + k] == out@[start.len() + 1 + (k - 1)]);
        }
    }
}

} // verus!
