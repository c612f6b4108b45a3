use crate::document::{parse_html, parsed_walk, tree_of};
use crate::error::Error;
use crate::lines::{compact_lines, remove_empty_lines};
use crate::markup::{
    attribute_markup, attributes_markup, element_markup, markup, markup_all, write_attribute,
    write_doctype,
};
use crate::node::{node_views, AttributeView, Element, ElementView, HtmlNode, NodeView};
use crate::rules::{
    allowed_attrs, drops_when_done, filter_attributes, is_allowed_attribute,
    is_element_eligible, is_removable_empty_tag, lemma_pruned_empty_iff_none, prune, prune_all,
};
use crate::text::{is_string_effectively_empty, same_text};
use vstd::prelude::*;
use vstd::string::StringExecFns;

verus! {

/// What a node contributes to the output in the given context: the markup of what is left
/// of it, and nothing when it is dropped.
pub open spec fn render(node: NodeView, in_head: bool) -> Seq<char> {
    match prune(node, in_head) {
        Some(kept) => markup(kept),
        None => Seq::empty(),
    }
}

/// Writes the attributes of an element that may stay, in their old order, each as a space,
/// the name, and the escaped value in double quotes. `is_in_head_context` is the context
/// of the element's children.
pub fn filter_and_write_attributes(
    element: &Element,
    is_in_head_context: bool,
    output: &mut String,
)
    ensures
        final(output)@ == old(output)@ + attributes_markup(
            filter_attributes(element@.attrs, element@.tag, is_in_head_context),
        ),
{
    let ghost stays = |a: AttributeView|
        allowed_attrs(element@.tag, is_in_head_context).contains(a.name);
    let ghost attrs = element@.attrs;
    let mut i: usize = 0;
    assert(attrs.take(0) =~= Seq::<AttributeView>::empty());
    while i < element.attrs.len()
        invariant
            i <= element.attrs.len(),
            attrs == element@.attrs,
            stays == |a: AttributeView|
                allowed_attrs(element@.tag, is_in_head_context).contains(a.name),
            output@ == old(output)@ + attributes_markup(attrs.take(i as int).filter(stays)),
        decreases element.attrs.len() - i,
    {
        let attr = &element.attrs[i];
        proof {
            assert(attrs[i as int] == attr@);
            assert(attrs.take(i + 1).drop_last() =~= attrs.take(i as int));
            assert(attrs.take(i + 1).last() == attr@);
            reveal(Seq::filter);
        }
        if is_allowed_attribute(element.tag.as_str(), is_in_head_context, attr.name.as_str()) {
            let ghost before = output@;
            write_attribute(attr, output);
            proof {
                let kept = attrs.take(i as int).filter(stays);
                assert(attrs.take(i + 1).filter(stays) == kept.push(attr@));
                assert(kept.push(attr@).drop_last() =~= kept);
                assert(output@ =~= before + attribute_markup(attr@));
            }
        }
        i += 1;
    }
    assert(attrs.take(attrs.len() as int) =~= attrs);
}

/// Walks the children of a node in document order and writes what is left of each.
/// Returns how many of them are kept.
pub fn process_children(
    children: &Vec<HtmlNode>,
    is_in_head_context: bool,
    output: &mut String,
) -> (kept: usize)
    ensures
        kept == prune_all(node_views(children@), is_in_head_context).len(),
        final(output)@ == old(output)@ + markup_all(
            prune_all(node_views(children@), is_in_head_context),
        ),
    decreases children, 2nat,
{
    let ghost views = node_views(children@);
    let mut kept: usize = 0;
    let mut i: usize = 0;
    assert(views.take(0) =~= Seq::<NodeView>::empty());
    while i < children.len()
        invariant
            i <= children.len(),
            kept <= i,
            views == node_views(children@),
            kept == prune_all(views.take(i as int), is_in_head_context).len(),
            output@ == old(output)@ + markup_all(
                prune_all(views.take(i as int), is_in_head_context),
            ),
        decreases children.len() - i,
    {
        let ghost before = prune_all(views.take(i as int), is_in_head_context);
        proof {
            assert(views.take(i + 1).drop_last() =~= views.take(i as int));
            assert(views.take(i + 1).last() == children@[i as int]@);
            if let Some(node) = prune(children@[i as int]@, is_in_head_context) {
                assert(before.push(node).drop_last() =~= before);
            }
        }
        if process_node_recursive(&children[i], is_in_head_context, output) {
            kept += 1;
        }
        i += 1;
    }
    assert(views.take(views.len() as int) =~= views);
    kept
}

/// Writes an element that stays: its start tag with the attributes that may stay, the
/// markup of its children, and its end tag. `is_in_head_context` is the context of the
/// element's children.
fn write_element(
    element: &Element,
    is_in_head_context: bool,
    children_output: &str,
    output: &mut String,
)
    ensures
        final(output)@ == old(output)@ + element_markup(
            element@.tag,
            filter_attributes(element@.attrs, element@.tag, is_in_head_context),
            children_output@,
        ),
{
    let tag = element.tag.as_str();
    output.append("<");
    output.append(tag);
    filter_and_write_attributes(element, is_in_head_context, output);
    output.append(">");
    output.append(children_output);
    output.append("</");
    output.append(tag);
    output.append(">");
    assert(output@ =~= old(output)@ + element_markup(
        element@.tag,
        filter_attributes(element@.attrs, element@.tag, is_in_head_context),
        children_output@,
    ));
}

/// Decides whether an element stays in the given context and, when it does, writes what
/// is left of it.
///
/// An element that may not stay is dropped with everything below it, unread. One that
/// may stay has its children written to a buffer first, since it is still dropped when it
/// is a `head` with nothing left in it, or a removable tag outside the head with nothing
/// left in it.
pub fn process_element(
    element: &Element,
    is_in_head_context: bool,
    output: &mut String,
) -> (kept: bool)
    ensures
        kept == (prune(NodeView::Element(element@), is_in_head_context) is Some),
        final(output)@ == old(output)@ + render(NodeView::Element(element@), is_in_head_context),
    decreases element, 0nat,
{
    let ghost node = NodeView::Element(element@);
    let tag = element.tag.as_str();
    let current_node_is_head = same_text(tag, "head");
    let child_context_is_in_head = is_in_head_context || current_node_is_head;
    let ghost survivors = prune_all(element@.children, child_context_is_in_head);
    if !is_element_eligible(element, is_in_head_context) {
        assert(prune(node, is_in_head_context) is None);
        assert(output@ =~= old(output)@ + render(node, is_in_head_context));
        return false;
    }
    let mut children_output = String::new();
    let kept_children = process_children(
        &element.children,
        child_context_is_in_head,
        &mut children_output,
    );
    assert(children_output@ =~= markup_all(survivors));
    proof {
        lemma_pruned_empty_iff_none(element@.children, child_context_is_in_head);
    }
    let is_empty_after_processing = kept_children == 0;
    let is_removable_tag_when_empty = !child_context_is_in_head && is_removable_empty_tag(tag);
    let should_remove_node = (is_removable_tag_when_empty || current_node_is_head)
        && is_empty_after_processing;
    assert(should_remove_node == drops_when_done(element@.tag, is_in_head_context, survivors));
    if should_remove_node {
        assert(prune(node, is_in_head_context) is None);
        assert(output@ =~= old(output)@ + render(node, is_in_head_context));
        return false;
    }
    write_element(element, child_context_is_in_head, children_output.as_str(), output);
    proof {
        let left = NodeView::Element(
            ElementView {
                tag: element@.tag,
                attrs: filter_attributes(element@.attrs, element@.tag, child_context_is_in_head),
                children: survivors,
            },
        );
        assert(prune(node, is_in_head_context) == Some(left));
        assert(render(node, is_in_head_context) == markup(left));
    }
    true
}

/// Decides whether a node stays in the given context and, when it does, writes what is
/// left of it: the node with its dropped children gone and its attributes filtered.
///
/// Roots and document type declarations always stay, comments and processing
/// instructions never, text unless it is blank. The children of a root are outside the
/// head.
pub fn process_node_recursive(
    node: &HtmlNode,
    is_in_head_context: bool,
    output: &mut String,
) -> (kept: bool)
    ensures
        kept == (prune(node@, is_in_head_context) is Some),
        final(output)@ == old(output)@ + render(node@, is_in_head_context),
    decreases node, 1nat,
{
    match node {
        HtmlNode::Document { children } => {
            process_children(children, false, output);
            true
        },
        HtmlNode::Fragment { children } => {
            process_children(children, false, output);
            true
        },
        HtmlNode::Doctype { name, public_id, system_id } => {
            write_doctype(name.as_str(), public_id.as_str(), system_id.as_str(), output);
            true
        },
        HtmlNode::Comment { .. } => {
            assert(output@ =~= old(output)@ + render(node@, is_in_head_context));
            false
        },
        HtmlNode::ProcessingInstruction => {
            assert(output@ =~= old(output)@ + render(node@, is_in_head_context));
            false
        },
        HtmlNode::Text { text } => {
            if is_string_effectively_empty(text.as_str()) {
                assert(output@ =~= old(output)@ + render(node@, is_in_head_context));
                false
            } else {
                output.append(text.as_str());
                true
            }
        },
        HtmlNode::Element(element) => process_element(element, is_in_head_context, output),
    }
}

/// The slim text of a document: the markup of what is left of it, without blank lines.
pub open spec fn slim_text(doc: NodeView) -> Seq<char> {
    compact_lines(render(doc, false))
}

/// Strips a parsed document of what carries no content and writes the rest as markup
/// without blank lines.
pub fn slim_document(doc: &HtmlNode) -> (result: Result<String, Error>)
    ensures
        result matches Ok(text) && text@ == slim_text(doc@),
{
    let mut output = String::new();
    process_node_recursive(doc, false, &mut output);
    assert(output@ =~= render(doc@, false));
    remove_empty_lines(output)
}

/// Strips an HTML text of what carries no content: scripts, styles, links, vector
/// graphics, comments, elements that are left empty, and attributes outside the allowed
/// few. Of the head only the title and the `meta` elements worth keeping stay.
///
/// The text is parsed first; the result is the slim text of the document that the parser
/// gives.
pub fn slim(html_content: &str) -> (result: Result<String, Error>)
    ensures
        match tree_of(parsed_walk(html_content@)) {
            Some(doc) => result matches Ok(text) && text@ == slim_text(doc),
            None => result matches Err(Error::Custom(_)),
        },
{
    match parse_html(html_content) {
        Ok(doc) => slim_document(&doc),
        Err(error) => Err(error),
    }
}

/// The text with its HTML entities decoded, as `html_escape::decode_html_entities` gives
/// it.
pub uninterp spec fn decoded_entities(content: Seq<char>) -> Seq<char>;

/// Decodes HTML entities: `&lt;` becomes `<`, and so on. Calls
/// `html_escape::decode_html_entities`; the result is, by definition, `decoded_entities`
/// of the text.
#[verifier::external_body]
pub fn decode_html_entities(content: &str) -> (decoded: String)
    ensures
        decoded@ == decoded_entities(content@),
{
    html_escape::decode_html_entities(content).to_string()
}

} // verus!
