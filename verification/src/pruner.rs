use crate::node::{
    attribute_views, node_views, option_view, Attribute, AttributeView, Element, HtmlNode,
    NodeView,
};
use crate::rules::{
    allowed_attrs, drops_when_done, filter_attributes, is_allowed_attribute,
    is_effectively_empty, is_element_eligible, is_removable_empty_tag, prune, prune_all,
};
use crate::text::{is_string_effectively_empty, same_text};
use vstd::prelude::*;

verus! {

/// Keeps the attributes whose name may stay on an element with this tag, in their old
/// order. `is_in_head_context` is the context of the element's children.
pub fn retain_allowed_attributes(
    attrs: Vec<Attribute>,
    tag: &str,
    is_in_head_context: bool,
) -> (kept: Vec<Attribute>)
    ensures
        attribute_views(kept@) == filter_attributes(
            attribute_views(attrs@),
            tag@,
            is_in_head_context,
        ),
{
    let ghost all = attribute_views(attrs@);
    let ghost stays = |a: AttributeView| allowed_attrs(tag@, is_in_head_context).contains(a.name);
    let mut kept: Vec<Attribute> = Vec::new();
    assert(all.take(0) =~= Seq::<AttributeView>::empty());
    assert(attribute_views(kept@) =~= all.take(0).filter(stays));
    for attr in it: attrs
        invariant
            it.seq() == attrs@,
            all == attribute_views(attrs@),
            stays == |a: AttributeView| allowed_attrs(tag@, is_in_head_context).contains(a.name),
            attribute_views(kept@) == all.take(it.index() as int).filter(stays),
    {
        let ghost n = it.index() as int;
        let ghost before = attribute_views(kept@);
        proof {
            assert(all.take(n + 1).drop_last() =~= all.take(n));
            assert(all.take(n + 1).last() == attr@);
            reveal(Seq::filter);
        }
        if is_allowed_attribute(tag, is_in_head_context, attr.name.as_str()) {
            kept.push(attr);
            assert(attribute_views(kept@) =~= before.push(attr@));
        }
    }
    assert(all.take(all.len() as int) =~= all);
    kept
}

/// Prunes sibling nodes and keeps the survivors, in their old order.
pub fn prune_children(children: Vec<HtmlNode>, is_in_head_context: bool) -> (kept: Vec<HtmlNode>)
    ensures
        node_views(kept@) == prune_all(node_views(children@), is_in_head_context),
    decreases children, 2nat,
{
    let ghost all = node_views(children@);
    let mut kept: Vec<HtmlNode> = Vec::new();
    assert(all.take(0) =~= Seq::<NodeView>::empty());
    assert(node_views(kept@) =~= prune_all(all.take(0), is_in_head_context));
    for child in it: children
        invariant
            it.seq() == children@,
            all == node_views(children@),
            node_views(kept@) == prune_all(all.take(it.index() as int), is_in_head_context),
    {
        let ghost n = it.index() as int;
        let ghost before = node_views(kept@);
        proof {
            assert(all.take(n + 1).drop_last() =~= all.take(n));
            assert(all.take(n + 1).last() == child@);
            assert(child == children@[n]);
        }
        match prune_node(child, is_in_head_context) {
            Some(left) => {
                kept.push(left);
                assert(node_views(kept@) =~= before.push(left@));
            },
            None => {},
        }
    }
    assert(all.take(all.len() as int) =~= all);
    kept
}

/// Prunes an element in the given context: `None` when it is dropped, else the element
/// with its dropped children gone and its attributes filtered.
///
/// An element that may not stay is dropped with everything below it, unread. One that
/// may stay has its children pruned first, since it is still dropped when it is a `head`
/// with no child left, or a removable tag outside the head that is then effectively
/// empty.
pub fn prune_element(element: Element, is_in_head_context: bool) -> (left: Option<Element>)
    ensures
        prune(NodeView::Element(element@), is_in_head_context) == match left {
            Some(left) => Some(NodeView::Element(left@)),
            None => None,
        },
    decreases element, 0nat,
{
    if !is_element_eligible(&element, is_in_head_context) {
        return None;
    }
    let ghost old_view = element@;
    let Element { tag, attrs, children } = element;
    let current_node_is_head = same_text(tag.as_str(), "head");
    let child_context_is_in_head = is_in_head_context || current_node_is_head;
    let children = prune_children(children, child_context_is_in_head);
    let attrs = retain_allowed_attributes(attrs, tag.as_str(), child_context_is_in_head);
    let left = Element { tag, attrs, children };
    let is_empty_head_tag = current_node_is_head && left.children.len() == 0;
    let is_removable_tag_when_empty = !child_context_is_in_head && is_removable_empty_tag(
        left.tag.as_str(),
    );
    if is_empty_head_tag || (is_removable_tag_when_empty && is_effectively_empty(&left)) {
        assert(drops_when_done(old_view.tag, is_in_head_context, left@.children));
        None
    } else {
        assert(!drops_when_done(old_view.tag, is_in_head_context, left@.children));
        Some(left)
    }
}

/// Prunes a node in the given context: `None` when it is dropped, else what is left of
/// it.
///
/// Roots and document type declarations always stay, comments and processing
/// instructions never, text unless it is blank. The children of a root are outside the
/// head.
pub fn prune_node(node: HtmlNode, is_in_head_context: bool) -> (left: Option<HtmlNode>)
    ensures
        option_view(left) == prune(node@, is_in_head_context),
    decreases node, 1nat,
{
    match node {
        HtmlNode::Document { children } => Some(
            HtmlNode::Document { children: prune_children(children, false) },
        ),
        HtmlNode::Fragment { children } => Some(
            HtmlNode::Fragment { children: prune_children(children, false) },
        ),
        HtmlNode::Doctype { name, public_id, system_id } => Some(
            HtmlNode::Doctype { name, public_id, system_id },
        ),
        HtmlNode::Comment { .. } => None,
        HtmlNode::ProcessingInstruction => None,
        HtmlNode::Text { text } => {
            if is_string_effectively_empty(text.as_str()) {
                None
            } else {
                Some(HtmlNode::Text { text })
            }
        },
        HtmlNode::Element(element) => match prune_element(element, is_in_head_context) {
            Some(left) => Some(HtmlNode::Element(left)),
            None => None,
        },
    }
}

} // verus!
