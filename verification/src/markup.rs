use crate::node::{attribute_views, node_views, Attribute, AttributeView, HtmlNode, NodeView};
use vstd::prelude::*;
use vstd::string::StringExecFns;

verus! {

/// What stands for one character inside a double-quoted attribute value.
pub open spec fn escaped_char(c: char) -> Seq<char> {
    if c == '&' {
        "&amp;"@
    } else if c == '<' {
        "&lt;"@
    } else if c == '>' {
        "&gt;"@
    } else if c == '"' {
        "&quot;"@
    } else {
        seq![c]
    }
}

/// An attribute value as it is written between double quotes: `&`, `<`, `>` and `"` give
/// way to their entities, every other character stays.
pub open spec fn escape_attribute(value: Seq<char>) -> Seq<char> {
    value.map_values(|c: char| escaped_char(c)).flatten()
}

/// The markup of one attribute: a space, the name, and the escaped value in double quotes.
pub open spec fn attribute_markup(attr: AttributeView) -> Seq<char> {
    " "@ + attr.name + "=\""@ + escape_attribute(attr.value) + "\""@
}

/// The markup of a run of attributes, one after the other.
pub open spec fn attributes_markup(attrs: Seq<AttributeView>) -> Seq<char>
    decreases attrs.len(),
{
    if attrs.len() == 0 {
        Seq::empty()
    } else {
        attributes_markup(attrs.drop_last()) + attribute_markup(attrs.last())
    }
}

/// The markup of a document type declaration. The public identifier is written when it is
/// not empty; the system identifier likewise, after the word `SYSTEM` when no public
/// identifier precedes it.
pub open spec fn doctype_markup(name: Seq<char>, public_id: Seq<char>, system_id: Seq<char>) -> Seq<
    char,
> {
    let public_part = if public_id.len() > 0 {
        " PUBLIC \""@ + public_id + "\""@
    } else {
        Seq::empty()
    };
    let system_word = if public_id.len() > 0 {
        Seq::empty()
    } else {
        " SYSTEM"@
    };
    let system_part = if system_id.len() > 0 {
        system_word + " \""@ + system_id + "\""@
    } else {
        Seq::empty()
    };
    "<!DOCTYPE "@ + name + public_part + system_part + ">"@
}

/// The markup of an element whose children have the markup `inner`: the start tag with
/// the attributes, the children, and the end tag.
pub open spec fn element_markup(tag: Seq<char>, attrs: Seq<AttributeView>, inner: Seq<char>) -> Seq<
    char,
> {
    "<"@ + tag + attributes_markup(attrs) + ">"@ + inner + "</"@ + tag + ">"@
}

/// The markup of a pruned tree. Text is written as it is. Comments and processing
/// instructions have no markup: a pruned tree holds none.
pub open spec fn markup(node: NodeView) -> Seq<char>
    decreases node, 0nat,
{
    match node {
        NodeView::Document { children } => markup_all(children),
        NodeView::Fragment { children } => markup_all(children),
        NodeView::Doctype { name, public_id, system_id } => doctype_markup(
            name,
            public_id,
            system_id,
        ),
        NodeView::Element(element) => element_markup(
            element.tag,
            element.attrs,
            markup_all(element.children),
        ),
        NodeView::Text { text } => text,
        NodeView::Comment { .. } => Seq::empty(),
        NodeView::ProcessingInstruction => Seq::empty(),
    }
}

/// The markup of sibling nodes, one after the other.
pub open spec fn markup_all(nodes: Seq<NodeView>) -> Seq<char>
    decreases nodes, nodes.len(),
{
    if nodes.len() == 0 {
        Seq::empty()
    } else {
        markup_all(nodes.drop_last()) + markup(nodes.last())
    }
}

/// Calls `html_escape::encode_double_quoted_attribute`, which replaces each `&`, `<`, `>`
/// and `"` by `&amp;`, `&lt;`, `&gt;` and `&quot;` and leaves the rest as it is.
#[verifier::external_body]
fn encode_attribute_value(value: &str) -> (encoded: String)
    ensures
        encoded@ == escape_attribute(value@),
{
    html_escape::encode_double_quoted_attribute(value).into_owned()
}

/// Writes a document type declaration.
pub(crate) fn write_doctype(name: &str, public_id: &str, system_id: &str, output: &mut String)
    ensures
        final(output)@ == old(output)@ + doctype_markup(name@, public_id@, system_id@),
{
    output.append("<!DOCTYPE ");
    output.append(name);
    let has_public = !public_id.is_empty();
    let has_system = !system_id.is_empty();
    if has_public {
        output.append(" PUBLIC \"");
        output.append(public_id);
        output.append("\"");
    }
    if has_system {
        if !has_public {
            output.append(" SYSTEM");
        }
        output.append(" \"");
        output.append(system_id);
        output.append("\"");
    }
    output.append(">");
    assert(output@ =~= old(output)@ + doctype_markup(name@, public_id@, system_id@));
}

/// Writes one attribute: a space, the name, and the escaped value in double quotes.
pub fn write_attribute(attr: &Attribute, output: &mut String)
    ensures
        final(output)@ == old(output)@ + attribute_markup(attr@),
{
    let encoded = encode_attribute_value(attr.value.as_str());
    output.append(" ");
    output.append(attr.name.as_str());
    output.append("=\"");
    output.append(encoded.as_str());
    output.append("\"");
    assert(output@ =~= old(output)@ + attribute_markup(attr@));
}

/// Writes a run of attributes, one after the other.
pub fn write_attributes(attrs: &Vec<Attribute>, output: &mut String)
    ensures
        final(output)@ == old(output)@ + attributes_markup(attribute_views(attrs@)),
{
    let ghost views = attribute_views(attrs@);
    let mut i: usize = 0;
    assert(views.take(0) =~= Seq::<AttributeView>::empty());
    while i < attrs.len()
        invariant
            i <= attrs.len(),
            views == attribute_views(attrs@),
            output@ == old(output)@ + attributes_markup(views.take(i as int)),
        decreases attrs.len() - i,
    {
        proof {
            assert(views.take(i + 1).drop_last() =~= views.take(i as int));
            assert(views.take(i + 1).last() == attrs@[i as int]@);
        }
        write_attribute(&attrs[i], output);
        i += 1;
    }
    assert(views.take(views.len() as int) =~= views);
}

/// Writes the markup of sibling nodes, one after the other.
pub fn write_markup_all(nodes: &Vec<HtmlNode>, output: &mut String)
    ensures
        final(output)@ == old(output)@ + markup_all(node_views(nodes@)),
    decreases nodes, 1nat,
{
    let ghost views = node_views(nodes@);
    let mut i: usize = 0;
    assert(views.take(0) =~= Seq::<NodeView>::empty());
    while i < nodes.len()
        invariant
            i <= nodes.len(),
            views == node_views(nodes@),
            output@ == old(output)@ + markup_all(views.take(i as int)),
        decreases nodes.len() - i,
    {
        proof {
            assert(views.take(i + 1).drop_last() =~= views.take(i as int));
            assert(views.take(i + 1).last() == nodes@[i as int]@);
        }
        write_markup(&nodes[i], output);
        i += 1;
    }
    assert(views.take(views.len() as int) =~= views);
}

/// Writes the markup of a pruned tree. Text is written as it is; comments and processing
/// instructions are not written.
pub fn write_markup(node: &HtmlNode, output: &mut String)
    ensures
        final(output)@ == old(output)@ + markup(node@),
    decreases node, 0nat,
{
    match node {
        HtmlNode::Document { children } => write_markup_all(children, output),
        HtmlNode::Fragment { children } => write_markup_all(children, output),
        HtmlNode::Doctype { name, public_id, system_id } => write_doctype(
            name.as_str(),
            public_id.as_str(),
            system_id.as_str(),
            output,
        ),
        HtmlNode::Element(element) => {
            let tag = element.tag.as_str();
            output.append("<");
            output.append(tag);
            write_attributes(&element.attrs, output);
            output.append(">");
            write_markup_all(&element.children, output);
            output.append("</");
            output.append(tag);
            output.append(">");
            assert(output@ =~= old(output)@ + markup(node@));
        },
        HtmlNode::Text { text } => output.append(text.as_str()),
        HtmlNode::Comment { .. } => {
            assert(output@ =~= old(output)@ + markup(node@));
        },
        HtmlNode::ProcessingInstruction => {
            assert(output@ =~= old(output)@ + markup(node@));
        },
    }
}

} // verus!
