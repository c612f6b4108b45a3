use crate::node::{AttributeView, Element, ElementView, HtmlNode, NodeView};
use crate::text::{
    chars_of, contains_text, is_blank, is_string_effectively_empty, is_substring, lowercase,
    name_in_list, same_text, text_views, to_lowercase,
};
use vstd::prelude::*;

verus! {

/// Tags that are removed with everything below them, whatever they hold.
pub open spec fn tags_to_remove() -> Seq<Seq<char>> {
    seq!["script"@, "link"@, "style"@, "svg"@, "base"@]
}

/// Tags that are removed outside the head when nothing of their content is left.
pub open spec fn removable_empty_tags() -> Seq<Seq<char>> {
    seq![
        "div"@,
        "span"@,
        "p"@,
        "i"@,
        "b"@,
        "em"@,
        "strong"@,
        "section"@,
        "article"@,
        "header"@,
        "footer"@,
        "nav"@,
        "aside"@,
    ]
}

/// Words that make a `meta` element worth keeping when its `property` holds one of them.
pub open spec fn meta_property_keywords() -> Seq<Seq<char>> {
    seq!["title"@, "url"@, "image"@, "description"@]
}

/// Attribute names that stay on a `meta` element inside the head.
pub open spec fn allowed_meta_attrs() -> Seq<Seq<char>> {
    seq!["property"@, "content"@]
}

/// Attribute names that stay on an element outside the head.
pub open spec fn allowed_body_attrs() -> Seq<Seq<char>> {
    seq!["class"@, "aria-label"@, "href"@, "title"@, "id"@]
}

/// The context that the children of an element live in: inside the head when the element
/// is, or when it is the head itself.
pub open spec fn child_context(tag: Seq<char>, in_head: bool) -> bool {
    in_head || tag == "head"@
}

/// The attribute names that may stay on an element with this tag, where `in_head` is the
/// context of the element's children.
pub open spec fn allowed_attrs(tag: Seq<char>, in_head: bool) -> Seq<Seq<char>> {
    if in_head {
        if tag == "meta"@ {
            allowed_meta_attrs()
        } else {
            Seq::empty()
        }
    } else {
        allowed_body_attrs()
    }
}

/// The attributes that stay: those whose name is allowed, in their old order.
pub open spec fn filter_attributes(attrs: Seq<AttributeView>, tag: Seq<char>, in_head: bool) -> Seq<
    AttributeView,
> {
    attrs.filter(|a: AttributeView| allowed_attrs(tag, in_head).contains(a.name))
}

/// Whether a `property` value names a title, a url, an image or a description: its lower
/// case form holds one of the keywords somewhere.
pub open spec fn has_meta_keyword(value: Seq<char>) -> bool {
    exists|k: int|
        0 <= k < meta_property_keywords().len() && is_substring(
            #[trigger] meta_property_keywords()[k],
            lowercase(value),
        )
}

/// Whether an element is a `meta` element that is kept inside the head: it has a
/// `property` attribute whose value holds a keyword.
pub open spec fn keeps_meta(element: ElementView) -> bool {
    element.tag == "meta"@ && exists|i: int|
        0 <= i < element.attrs.len() && (#[trigger] element.attrs[i]).name == "property"@
            && has_meta_keyword(element.attrs[i].value)
}

/// Whether an element may stay, judged before its children are looked at.
pub open spec fn is_eligible(element: ElementView, in_head: bool) -> bool {
    if in_head {
        element.tag == "title"@ || keeps_meta(element)
    } else {
        !tags_to_remove().contains(element.tag)
    }
}

/// Whether a node shows nothing: it is a comment or blank text.
pub open spec fn is_hidden(node: NodeView) -> bool {
    match node {
        NodeView::Comment { .. } => true,
        NodeView::Text { text } => is_blank(text),
        _ => false,
    }
}

/// Whether nothing that would show is among these children: each is a comment or blank
/// text.
pub open spec fn effectively_empty(children: Seq<NodeView>) -> bool {
    forall|i: int| 0 <= i < children.len() ==> is_hidden(#[trigger] children[i])
}

/// Whether an element whose children were pruned to `kept` is dropped after all.
pub open spec fn drops_when_done(tag: Seq<char>, in_head: bool, kept: Seq<NodeView>) -> bool {
    ||| tag == "head"@ && kept.len() == 0
    ||| !child_context(tag, in_head) && removable_empty_tags().contains(tag)
        && effectively_empty(kept)
}

/// What is left of a node in the given context: `None` when the node is dropped.
pub open spec fn prune(node: NodeView, in_head: bool) -> Option<NodeView>
    decreases node, 0nat,
{
    match node {
        NodeView::Document { children } => Some(
            NodeView::Document { children: prune_all(children, false) },
        ),
        NodeView::Fragment { children } => Some(
            NodeView::Fragment { children: prune_all(children, false) },
        ),
        NodeView::Doctype { .. } => Some(node),
        NodeView::Comment { .. } => None,
        NodeView::ProcessingInstruction => None,
        NodeView::Text { text } => if is_blank(text) {
            None
        } else {
            Some(node)
        },
        NodeView::Element(element) => {
            let ctx = child_context(element.tag, in_head);
            let kept = prune_all(element.children, ctx);
            if !is_eligible(element, in_head) || drops_when_done(element.tag, in_head, kept) {
                None
            } else {
                Some(
                    NodeView::Element(
                        ElementView {
                            tag: element.tag,
                            attrs: filter_attributes(element.attrs, element.tag, ctx),
                            children: kept,
                        },
                    ),
                )
            }
        },
    }
}

/// What is left of a sequence of sibling nodes: the survivors, in their old order.
pub open spec fn prune_all(nodes: Seq<NodeView>, in_head: bool) -> Seq<NodeView>
    decreases nodes, nodes.len(),
{
    if nodes.len() == 0 {
        Seq::empty()
    } else {
        let before = prune_all(nodes.drop_last(), in_head);
        match prune(nodes.last(), in_head) {
            Some(node) => before.push(node),
            None => before,
        }
    }
}

/// What is left of a node is never a comment, a processing instruction or blank text.
pub proof fn lemma_survivor_shows(node: NodeView, in_head: bool)
    ensures
        match prune(node, in_head) {
            Some(kept) => !is_hidden(kept) && !(kept is ProcessingInstruction),
            None => true,
        },
{
}

/// Pruned children are effectively empty exactly when none is left, since no survivor is
/// hidden.
pub proof fn lemma_pruned_empty_iff_none(nodes: Seq<NodeView>, in_head: bool)
    ensures
        effectively_empty(prune_all(nodes, in_head)) <==> prune_all(nodes, in_head).len() == 0,
        forall|i: int|
            0 <= i < prune_all(nodes, in_head).len() ==> !is_hidden(
                #[trigger] prune_all(nodes, in_head)[i],
            ),
    decreases nodes.len(),
{
    if nodes.len() > 0 {
        lemma_pruned_empty_iff_none(nodes.drop_last(), in_head);
        lemma_survivor_shows(nodes.last(), in_head);
    }
    let kept = prune_all(nodes, in_head);
    if kept.len() > 0 {
        assert(!is_hidden(kept[0]));
    }
}

/// Checks whether a tag is removed with everything below it.
pub fn is_tag_to_remove(tag: &str) -> (found: bool)
    ensures
        found == tags_to_remove().contains(tag@),
{
    let names = ["script", "link", "style", "svg", "base"];
    assert(text_views(names@) =~= tags_to_remove());
    name_in_list(&names, tag)
}

/// Checks whether a tag is removed outside the head when nothing of its content is left.
pub fn is_removable_empty_tag(tag: &str) -> (found: bool)
    ensures
        found == removable_empty_tags().contains(tag@),
{
    let names = [
        "div",
        "span",
        "p",
        "i",
        "b",
        "em",
        "strong",
        "section",
        "article",
        "header",
        "footer",
        "nav",
        "aside",
    ];
    assert(text_views(names@) =~= removable_empty_tags());
    name_in_list(&names, tag)
}

/// Checks whether an attribute name may stay on an element with this tag, where `in_head`
/// is the context of the element's children.
pub fn is_allowed_attribute(tag: &str, in_head: bool, name: &str) -> (allowed: bool)
    ensures
        allowed == allowed_attrs(tag@, in_head).contains(name@),
{
    if in_head {
        if same_text(tag, "meta") {
            let names = ["property", "content"];
            assert(text_views(names@) =~= allowed_meta_attrs());
            name_in_list(&names, name)
        } else {
            false
        }
    } else {
        let names = ["class", "aria-label", "href", "title", "id"];
        assert(text_views(names@) =~= allowed_body_attrs());
        name_in_list(&names, name)
    }
}

/// Checks whether a `property` value names a title, a url, an image or a description.
pub fn value_has_meta_keyword(value: &str) -> (hit: bool)
    ensures
        hit == has_meta_keyword(value@),
{
    let lower = to_lowercase(value);
    let hay = chars_of(lower.as_str());
    let keywords = ["title", "url", "image", "description"];
    assert(text_views(keywords@) =~= meta_property_keywords());
    let mut k: usize = 0;
    while k < keywords.len()
        invariant
            k <= keywords.len(),
            hay@ == lowercase(value@),
            text_views(keywords@) == meta_property_keywords(),
            forall|j: int|
                0 <= j < k ==> !is_substring(#[trigger] meta_property_keywords()[j], hay@),
        decreases keywords.len() - k,
    {
        let needle = chars_of(keywords[k]);
        assert(needle@ == meta_property_keywords()[k as int]);
        if contains_text(&hay, &needle) {
            return true;
        }
        k += 1;
    }
    false
}

/// Checks whether a `meta` element is kept inside the head, by its `property` attribute.
/// An element with another tag is never kept by this rule.
pub fn should_keep_meta(element: &Element) -> (keep: bool)
    ensures
        keep == keeps_meta(element@),
{
    if !same_text(element.tag.as_str(), "meta") {
        return false;
    }
    let mut i: usize = 0;
    while i < element.attrs.len()
        invariant
            i <= element.attrs.len(),
            element@.tag == "meta"@,
            forall|j: int|
                0 <= j < i ==> !((#[trigger] element@.attrs[j]).name == "property"@
                    && has_meta_keyword(element@.attrs[j].value)),
        decreases element.attrs.len() - i,
    {
        let attr = &element.attrs[i];
        assert(element@.attrs[i as int] == attr@);
        if same_text(attr.name.as_str(), "property") && value_has_meta_keyword(
            attr.value.as_str(),
        ) {
            return true;
        }
        i += 1;
    }
    false
}

/// Checks whether an element may stay, judged before its children are looked at.
pub fn is_element_eligible(element: &Element, is_in_head_context: bool) -> (eligible: bool)
    ensures
        eligible == is_eligible(element@, is_in_head_context),
{
    let tag = element.tag.as_str();
    if is_in_head_context {
        same_text(tag, "title") || should_keep_meta(element)
    } else {
        !is_tag_to_remove(tag)
    }
}

/// Checks whether nothing that would show is among the children of an element: each is a
/// comment or blank text.
pub fn is_effectively_empty(element: &Element) -> (empty: bool)
    ensures
        empty == effectively_empty(element@.children),
{
    let mut i: usize = 0;
    while i < element.children.len()
        invariant
            i <= element.children.len(),
            forall|j: int| 0 <= j < i ==> is_hidden(#[trigger] element@.children[j]),
        decreases element.children.len() - i,
    {
        assert(element@.children[i as int] == element.children@[i as int]@);
        let hidden = match &element.children[i] {
            HtmlNode::Comment { .. } => true,
            HtmlNode::Text { text } => is_string_effectively_empty(text.as_str()),
            _ => false,
        };
        if !hidden {
            return false;
        }
        i += 1;
    }
    true
}

} // verus!
