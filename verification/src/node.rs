use vstd::prelude::*;
use vstd::string::StringExecFns;

verus! {

/// One attribute of an element: its name and its value.
#[derive(Debug, PartialEq, Eq)]
pub struct Attribute {
    pub name: String,
    pub value: String,
}

/// The mathematical value of an [`Attribute`].
pub struct AttributeView {
    pub name: Seq<char>,
    pub value: Seq<char>,
}

impl View for Attribute {
    type V = AttributeView;

    open spec fn view(&self) -> AttributeView {
        AttributeView { name: self.name@, value: self.value@ }
    }
}

impl Attribute {
    /// Makes an attribute with this name and value.
    pub fn new(name: &str, value: &str) -> (attr: Attribute)
        ensures
            attr@ == (AttributeView { name: name@, value: value@ }),
    {
        Attribute { name: String::from_str(name), value: String::from_str(value) }
    }
}

/// An element: its tag, its attributes in the order the parser gave them, and its
/// children in document order.
#[derive(Debug, PartialEq, Eq)]
pub struct Element {
    pub tag: String,
    pub attrs: Vec<Attribute>,
    pub children: Vec<HtmlNode>,
}

/// A node of a parsed document, with the nodes below it.
///
/// Only roots and elements have children; their children stand in document order.
#[derive(Debug, PartialEq, Eq)]
pub enum HtmlNode {
    /// The root of a document.
    Document { children: Vec<HtmlNode> },
    /// The root of a document fragment. It is handled as a document root is.
    Fragment { children: Vec<HtmlNode> },
    /// A document type declaration.
    Doctype { name: String, public_id: String, system_id: String },
    /// An element.
    Element(Element),
    /// Character data.
    Text { text: String },
    /// A comment.
    Comment { text: String },
    /// A processing instruction.
    ProcessingInstruction,
}

/// The mathematical value of an [`Element`].
pub struct ElementView {
    pub tag: Seq<char>,
    pub attrs: Seq<AttributeView>,
    pub children: Seq<NodeView>,
}

/// The mathematical value of a [`HtmlNode`]: the same tree over sequences of characters.
pub enum NodeView {
    Document { children: Seq<NodeView> },
    Fragment { children: Seq<NodeView> },
    Doctype { name: Seq<char>, public_id: Seq<char>, system_id: Seq<char> },
    Element(ElementView),
    Text { text: Seq<char> },
    Comment { text: Seq<char> },
    ProcessingInstruction,
}

/// The views of a sequence of attributes, one for one.
pub open spec fn attribute_views(attrs: Seq<Attribute>) -> Seq<AttributeView> {
    Seq::new(attrs.len(), |i: int| attrs[i]@)
}

/// The views of a sequence of nodes, one for one.
pub open spec fn node_views(nodes: Seq<HtmlNode>) -> Seq<NodeView>
    decreases nodes,
{
    Seq::new(
        nodes.len(),
        |i: int|
            if 0 <= i < nodes.len() {
                nodes[i]@
            } else {
                NodeView::ProcessingInstruction
            },
    )
}

impl View for Element {
    type V = ElementView;

    open spec fn view(&self) -> ElementView
        decreases self,
    {
        ElementView {
            tag: self.tag@,
            attrs: attribute_views(self.attrs@),
            children: node_views(self.children@),
        }
    }
}

impl View for HtmlNode {
    type V = NodeView;

    open spec fn view(&self) -> NodeView
        decreases self,
    {
        match self {
            HtmlNode::Document { children } => NodeView::Document {
                children: node_views(children@),
            },
            HtmlNode::Fragment { children } => NodeView::Fragment {
                children: node_views(children@),
            },
            HtmlNode::Doctype { name, public_id, system_id } => NodeView::Doctype {
                name: name@,
                public_id: public_id@,
                system_id: system_id@,
            },
            HtmlNode::Element(element) => NodeView::Element(element@),
            HtmlNode::Text { text } => NodeView::Text { text: text@ },
            HtmlNode::Comment { text } => NodeView::Comment { text: text@ },
            HtmlNode::ProcessingInstruction => NodeView::ProcessingInstruction,
        }
    }
}

/// The view of a node that may be missing.
pub open spec fn option_view(node: Option<HtmlNode>) -> Option<NodeView> {
    match node {
        Some(node) => Some(node@),
        None => None,
    }
}

impl HtmlNode {
    /// Makes an element node.
    pub fn element(tag: &str, attrs: Vec<Attribute>, children: Vec<HtmlNode>) -> (node: HtmlNode)
        ensures
            node@ == NodeView::Element(
                ElementView {
                    tag: tag@,
                    attrs: attribute_views(attrs@),
                    children: node_views(children@),
                },
            ),
    {
        HtmlNode::Element(Element { tag: String::from_str(tag), attrs, children })
    }

    /// Makes a text node.
    pub fn text(text: &str) -> (node: HtmlNode)
        ensures
            node@ == (NodeView::Text { text: text@ }),
    {
        HtmlNode::Text { text: String::from_str(text) }
    }

    /// Makes a comment node.
    pub fn comment(text: &str) -> (node: HtmlNode)
        ensures
            node@ == (NodeView::Comment { text: text@ }),
    {
        HtmlNode::Comment { text: String::from_str(text) }
    }

    /// Makes a document root.
    pub fn document(children: Vec<HtmlNode>) -> (node: HtmlNode)
        ensures
            node@ == (NodeView::Document { children: node_views(children@) }),
    {
        HtmlNode::Document { children }
    }
}

} // verus!
