use crate::node::{AttributeView, ElementView, NodeView};
use crate::rules::{
    allowed_attrs, child_context, filter_attributes, is_eligible, keeps_meta,
    lemma_pruned_empty_iff_none, lemma_survivor_shows, prune, prune_all, removable_empty_tags,
    tags_to_remove,
};
use crate::text::is_blank;
use vstd::prelude::*;

verus! {

/// The context that the children of a node live in. The children of a root are outside
/// the head.
pub open spec fn context_below(node: NodeView, in_head: bool) -> bool {
    match node {
        NodeView::Document { .. } => false,
        NodeView::Fragment { .. } => false,
        NodeView::Element(element) => child_context(element.tag, in_head),
        _ => in_head,
    }
}

/// Whether `inner` occurs in the tree `outer`, as the tree itself or somewhere below it,
/// and lives in the context `inner_in_head` when `outer` lives in `outer_in_head`.
pub open spec fn occurs_in(
    outer: NodeView,
    outer_in_head: bool,
    inner: NodeView,
    inner_in_head: bool,
) -> bool
    decreases outer,
{
    ||| outer == inner && outer_in_head == inner_in_head
    ||| match outer {
        NodeView::Document { children } => exists|i: int|
            0 <= i < children.len() && occurs_in(
                #[trigger] children[i],
                false,
                inner,
                inner_in_head,
            ),
        NodeView::Fragment { children } => exists|i: int|
            0 <= i < children.len() && occurs_in(
                #[trigger] children[i],
                false,
                inner,
                inner_in_head,
            ),
        NodeView::Element(element) => exists|i: int|
            0 <= i < element.children.len() && occurs_in(
                #[trigger] element.children[i],
                child_context(element.tag, outer_in_head),
                inner,
                inner_in_head,
            ),
        _ => false,
    }
}

/// Every survivor among siblings is what is left of one of them.
pub proof fn lemma_survivor_source(nodes: Seq<NodeView>, in_head: bool, i: int)
    requires
        0 <= i < prune_all(nodes, in_head).len(),
    ensures
        exists|j: int|
            0 <= j < nodes.len() && prune(#[trigger] nodes[j], in_head) == Some(
                prune_all(nodes, in_head)[i],
            ),
    decreases nodes.len(),
{
    let front = nodes.drop_last();
    if i < prune_all(front, in_head).len() {
        lemma_survivor_source(front, in_head, i);
        let j = choose|j: int|
            0 <= j < front.len() && prune(#[trigger] front[j], in_head) == Some(
                prune_all(front, in_head)[i],
            );
        assert(nodes[j] == front[j]);
    } else {
        assert(prune(nodes[nodes.len() - 1], in_head) == Some(prune_all(nodes, in_head)[i]));
    }
}

/// Some sibling survives exactly when something is left of one of them.
pub proof fn lemma_some_survivor(nodes: Seq<NodeView>, in_head: bool)
    ensures
        prune_all(nodes, in_head).len() > 0 <==> exists|j: int|
            0 <= j < nodes.len() && prune(#[trigger] nodes[j], in_head) is Some,
    decreases nodes.len(),
{
    if nodes.len() > 0 {
        let front = nodes.drop_last();
        lemma_some_survivor(front, in_head);
        if prune_all(nodes, in_head).len() > 0 {
            if prune(nodes.last(), in_head) is Some {
                assert(prune(nodes[nodes.len() - 1], in_head) is Some);
            } else {
                let j = choose|j: int|
                    0 <= j < front.len() && prune(#[trigger] front[j], in_head) is Some;
                assert(nodes[j] == front[j]);
            }
        }
        if exists|j: int| 0 <= j < nodes.len() && prune(#[trigger] nodes[j], in_head) is Some {
            let j = choose|j: int|
                0 <= j < nodes.len() && prune(#[trigger] nodes[j], in_head) is Some;
            if j < front.len() {
                assert(front[j] == nodes[j]);
            }
        }
    }
}

/// Every node of a pruned tree is what is left of a node of the tree that was pruned,
/// and lives in the same context as that node.
pub proof fn lemma_left_node_has_source(
    node: NodeView,
    in_head: bool,
    found: NodeView,
    found_in_head: bool,
)
    requires
        prune(node, in_head) is Some,
        occurs_in(prune(node, in_head)->0, in_head, found, found_in_head),
    ensures
        exists|source: NodeView|
            #[trigger] occurs_in(node, in_head, source, found_in_head) && prune(
                source,
                found_in_head,
            ) == Some(found),
    decreases node,
{
    let left = prune(node, in_head)->0;
    if left == found && in_head == found_in_head {
        assert(occurs_in(node, in_head, node, found_in_head));
    } else {
        match node {
            NodeView::Document { children } => {
                let survivors = prune_all(children, false);
                assert(left == NodeView::Document { children: survivors });
                let i = choose|i: int|
                    0 <= i < survivors.len() && occurs_in(
                        #[trigger] survivors[i],
                        false,
                        found,
                        found_in_head,
                    );
                assert(occurs_in(prune_all(children, false)[i], false, found, found_in_head));
                lemma_left_child_has_source(node, in_head, children, false, found, found_in_head);
            },
            NodeView::Fragment { children } => {
                let survivors = prune_all(children, false);
                assert(left == NodeView::Fragment { children: survivors });
                let i = choose|i: int|
                    0 <= i < survivors.len() && occurs_in(
                        #[trigger] survivors[i],
                        false,
                        found,
                        found_in_head,
                    );
                assert(occurs_in(prune_all(children, false)[i], false, found, found_in_head));
                lemma_left_child_has_source(node, in_head, children, false, found, found_in_head);
            },
            NodeView::Element(element) => {
                let below = child_context(element.tag, in_head);
                let survivors = prune_all(element.children, below);
                assert(left == NodeView::Element(
                    ElementView {
                        tag: element.tag,
                        attrs: filter_attributes(element.attrs, element.tag, below),
                        children: survivors,
                    },
                ));
                let i = choose|i: int|
                    0 <= i < survivors.len() && occurs_in(
                        #[trigger] survivors[i],
                        below,
                        found,
                        found_in_head,
                    );
                assert(occurs_in(
                    prune_all(element.children, below)[i],
                    below,
                    found,
                    found_in_head,
                ));
                lemma_left_child_has_source(
                    node,
                    in_head,
                    element.children,
                    child_context(element.tag, in_head),
                    found,
                    found_in_head,
                );
            },
            _ => {},
        }
    }
}

/// The step of `lemma_left_node_has_source` through the children of a node.
proof fn lemma_left_child_has_source(
    node: NodeView,
    in_head: bool,
    children: Seq<NodeView>,
    below: bool,
    found: NodeView,
    found_in_head: bool,
)
    requires
        match node {
            NodeView::Document { children: c } => c == children && !below,
            NodeView::Fragment { children: c } => c == children && !below,
            NodeView::Element(element) => element.children == children && below == child_context(
                element.tag,
                in_head,
            ),
            _ => false,
        },
        exists|i: int|
            0 <= i < prune_all(children, below).len() && occurs_in(
                #[trigger] prune_all(children, below)[i],
                below,
                found,
                found_in_head,
            ),
    ensures
        exists|source: NodeView|
            #[trigger] occurs_in(node, in_head, source, found_in_head) && prune(
                source,
                found_in_head,
            ) == Some(found),
    decreases children,
{
    let survivors = prune_all(children, below);
    let i = choose|i: int|
        0 <= i < survivors.len() && occurs_in(#[trigger] survivors[i], below, found, found_in_head);
    lemma_survivor_source(children, below, i);
    let j = choose|j: int|
        0 <= j < children.len() && prune(#[trigger] children[j], below) == Some(survivors[i]);
    lemma_left_node_has_source(children[j], below, found, found_in_head);
    let source = choose|source: NodeView|
        #[trigger] occurs_in(children[j], below, source, found_in_head) && prune(
            source,
            found_in_head,
        ) == Some(found);
    assert(occurs_in(node, in_head, source, found_in_head));
}

/// The tag lists do not overlap: `head`, `title` and `meta` are never removed outright,
/// and a tag that is removed when empty is neither removed outright nor `head`.
pub proof fn lemma_tag_lists_apart()
    ensures
        !tags_to_remove().contains("head"@),
        !tags_to_remove().contains("title"@),
        !tags_to_remove().contains("meta"@),
        "title"@ != "head"@,
        "meta"@ != "head"@,
        forall|tag: Seq<char>|
            removable_empty_tags().contains(tag) ==> tag != "head"@ && !tags_to_remove().contains(
                tag,
            ),
{
    reveal_strlit("head");
    reveal_strlit("title");
    reveal_strlit("meta");
    reveal_strlit("script");
    reveal_strlit("link");
    reveal_strlit("style");
    reveal_strlit("svg");
    reveal_strlit("base");
    reveal_strlit("div");
    reveal_strlit("span");
    reveal_strlit("p");
    reveal_strlit("i");
    reveal_strlit("b");
    reveal_strlit("em");
    reveal_strlit("strong");
    reveal_strlit("section");
    reveal_strlit("article");
    reveal_strlit("header");
    reveal_strlit("footer");
    reveal_strlit("nav");
    reveal_strlit("aside");
    let removed = tags_to_remove();
    let removable = removable_empty_tags();
    assert forall|tag: Seq<char>| removed.contains(tag) implies tag.len() >= 3 && (tag[0] == 'l'
        || (tag[0] == 'b' && tag.len() == 4) || (tag[0] == 's' && (tag[1] == 'c' || tag[1] == 'v'
        || tag[2] == 'y'))) by {
        let k = choose|k: int| 0 <= k < removed.len() && removed[k] == tag;
        assert(k == 0 || k == 1 || k == 2 || k == 3 || k == 4);
    }
    assert("head"@[0] == 'h' && "head"@.len() == 4);
    assert("title"@[0] == 't' && "title"@.len() == 5);
    assert("meta"@[0] == 'm');
    assert forall|tag: Seq<char>| removable.contains(tag) implies tag != "head"@
        && !removed.contains(tag) by {
        let k = choose|k: int| 0 <= k < removable.len() && removable[k] == tag;
        if k == 0 {
            assert(tag[0] == 'd');
        } else if k == 1 {
            assert(tag[0] == 's' && tag[1] == 'p' && tag[2] == 'a');
        } else if k == 2 {
            assert(tag.len() == 1);
        } else if k == 3 {
            assert(tag.len() == 1);
        } else if k == 4 {
            assert(tag.len() == 1);
        } else if k == 5 {
            assert(tag.len() == 2);
        } else if k == 6 {
            assert(tag[0] == 's' && tag[1] == 't' && tag[2] == 'r');
        } else if k == 7 {
            assert(tag[0] == 's' && tag[1] == 'e' && tag[2] == 'c');
        } else if k == 8 {
            assert(tag[0] == 'a');
        } else if k == 9 {
            assert(tag[0] == 'h' && tag.len() == 6);
        } else if k == 10 {
            assert(tag[0] == 'f');
        } else if k == 11 {
            assert(tag[0] == 'n');
        } else {
            assert(k == 12);
            assert(tag[0] == 'a');
        }
    }
}

/// Nothing that is left is a comment or a processing instruction: no such node occurs
/// in a pruned tree.
pub proof fn lemma_no_comment_is_left(
    node: NodeView,
    in_head: bool,
    found: NodeView,
    found_in_head: bool,
)
    requires
        prune(node, in_head) is Some,
        occurs_in(prune(node, in_head)->0, in_head, found, found_in_head),
    ensures
        !(found is Comment),
        !(found is ProcessingInstruction),
{
    lemma_left_node_has_source(node, in_head, found, found_in_head);
    let source = choose|source: NodeView|
        #[trigger] occurs_in(node, in_head, source, found_in_head) && prune(source, found_in_head)
            == Some(found);
    lemma_survivor_shows(source, found_in_head);
}

/// No element that is left has a tag that is removed outright: no `script`, `link`,
/// `style`, `svg` or `base` element occurs in a pruned tree.
pub proof fn lemma_no_removed_tag_is_left(
    node: NodeView,
    in_head: bool,
    found: ElementView,
    found_in_head: bool,
)
    requires
        prune(node, in_head) is Some,
        occurs_in(prune(node, in_head)->0, in_head, NodeView::Element(found), found_in_head),
    ensures
        !tags_to_remove().contains(found.tag),
{
    lemma_left_node_has_source(node, in_head, NodeView::Element(found), found_in_head);
    let source = choose|source: NodeView|
        #[trigger] occurs_in(node, in_head, source, found_in_head) && prune(source, found_in_head)
            == Some(NodeView::Element(found));
    lemma_tag_lists_apart();
    match source {
        NodeView::Element(element) => {
            assert(is_eligible(element, found_in_head));
            assert(found.tag == element.tag);
        },
        _ => {},
    }
}

/// The attributes of every element that is left are exactly the allowed ones among those
/// of the element it is left of: no other attribute occurs on it, and each allowed one is
/// there with its old value, in the old order. Which names are allowed goes by the
/// element's tag and by the context of its children.
pub proof fn lemma_attributes_are_filtered(
    node: NodeView,
    in_head: bool,
    found: ElementView,
    found_in_head: bool,
)
    requires
        prune(node, in_head) is Some,
        occurs_in(prune(node, in_head)->0, in_head, NodeView::Element(found), found_in_head),
    ensures
        forall|k: int|
            0 <= k < found.attrs.len() ==> allowed_attrs(
                found.tag,
                child_context(found.tag, found_in_head),
            ).contains((#[trigger] found.attrs[k]).name),
        exists|source: ElementView|
            #[trigger] occurs_in(node, in_head, NodeView::Element(source), found_in_head)
                && source.tag == found.tag && found.attrs == filter_attributes(
                source.attrs,
                source.tag,
                child_context(source.tag, found_in_head),
            ),
{
    lemma_left_node_has_source(node, in_head, NodeView::Element(found), found_in_head);
    let source = choose|source: NodeView|
        #[trigger] occurs_in(node, in_head, source, found_in_head) && prune(source, found_in_head)
            == Some(NodeView::Element(found));
    match source {
        NodeView::Element(element) => {
            let below = child_context(element.tag, found_in_head);
            let stays = |a: AttributeView| allowed_attrs(element.tag, below).contains(a.name);
            assert(found.attrs == element.attrs.filter(stays));
            assert forall|k: int| 0 <= k < found.attrs.len() implies allowed_attrs(
                found.tag,
                child_context(found.tag, found_in_head),
            ).contains((#[trigger] found.attrs[k]).name) by {
                element.attrs.lemma_filter_pred(stays, k);
            }
            assert(occurs_in(node, in_head, NodeView::Element(element), found_in_head));
        },
        _ => {},
    }
}

/// Whether a child of the head is a `title`, or a `meta` element worth keeping.
pub open spec fn is_head_content(child: NodeView) -> bool {
    match child {
        NodeView::Element(element) => element.tag == "title"@ || keeps_meta(element),
        _ => false,
    }
}

/// A `head` element outside the head stays exactly when a `title` or a `meta` element
/// worth keeping is among its children.
///
/// This is stated of a head whose other children are comments, processing instructions,
/// blank text and elements: text that is not blank, a document type declaration or a
/// root among the children would stay and keep the head with it.
pub proof fn lemma_head_stays_iff_title_or_meta(head: ElementView)
    requires
        head.tag == "head"@,
        forall|i: int|
            0 <= i < head.children.len() ==> match #[trigger] head.children[i] {
                NodeView::Element(_) => true,
                NodeView::Comment { .. } => true,
                NodeView::ProcessingInstruction => true,
                NodeView::Text { text } => is_blank(text),
                _ => false,
            },
    ensures
        prune(NodeView::Element(head), false) is Some <==> exists|i: int|
            0 <= i < head.children.len() && is_head_content(#[trigger] head.children[i]),
{
    lemma_tag_lists_apart();
    lemma_some_survivor(head.children, true);
    lemma_pruned_empty_iff_none(head.children, true);
    assert forall|i: int| 0 <= i < head.children.len() implies (prune(
        #[trigger] head.children[i],
        true,
    ) is Some <==> is_head_content(head.children[i])) by {
        match head.children[i] {
            NodeView::Element(element) => {
                assert(child_context(element.tag, true));
            },
            _ => {},
        }
    }
}

/// Whether a node is an element or text that is not blank.
pub open spec fn is_content(node: NodeView) -> bool {
    match node {
        NodeView::Element(_) => true,
        NodeView::Text { text } => !is_blank(text),
        _ => false,
    }
}

/// An element outside the head whose tag is removed when empty stays exactly when, after
/// its children are pruned, an element or text that is not blank is left among them.
///
/// This is stated of an element without a document type declaration or a root among its
/// children: such a child would stay and keep the element with it.
pub proof fn lemma_removable_stays_iff_content(element: ElementView)
    requires
        removable_empty_tags().contains(element.tag),
        forall|i: int|
            0 <= i < element.children.len() ==> !(#[trigger] element.children[i] is Doctype)
                && !(element.children[i] is Document) && !(element.children[i] is Fragment),
    ensures
        prune(NodeView::Element(element), false) is Some <==> exists|k: int|
            0 <= k < prune_all(element.children, false).len() && is_content(
                #[trigger] prune_all(element.children, false)[k],
            ),
{
    lemma_tag_lists_apart();
    let survivors = prune_all(element.children, false);
    lemma_pruned_empty_iff_none(element.children, false);
    assert(!child_context(element.tag, false));
    assert forall|k: int| 0 <= k < survivors.len() implies is_content(#[trigger] survivors[k]) by {
        lemma_survivor_source(element.children, false, k);
        let j = choose|j: int|
            0 <= j < element.children.len() && prune(#[trigger] element.children[j], false)
                == Some(survivors[k]);
        lemma_survivor_shows(element.children[j], false);
    }
    if survivors.len() > 0 {
        assert(is_content(survivors[0]));
    }
}

} // verus!
