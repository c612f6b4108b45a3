use crate::builder::build_tree;
use crate::error::Error;
use crate::node::{attribute_views, Attribute, AttributeView, ElementView, HtmlNode, NodeView};
use scraper::Node as ParsedNode;
use vstd::prelude::*;

verus! {

/// What a node holds besides its children.
#[derive(Debug, PartialEq, Eq)]
pub enum NodeData {
    Document,
    Fragment,
    Doctype { name: String, public_id: String, system_id: String },
    Element { tag: String, attrs: Vec<Attribute> },
    Text { text: String },
    Comment { text: String },
    ProcessingInstruction,
}

/// The mathematical value of a [`NodeData`].
pub enum NodeDataView {
    Document,
    Fragment,
    Doctype { name: Seq<char>, public_id: Seq<char>, system_id: Seq<char> },
    Element { tag: Seq<char>, attrs: Seq<AttributeView> },
    Text { text: Seq<char> },
    Comment { text: Seq<char> },
    ProcessingInstruction,
}

impl View for NodeData {
    type V = NodeDataView;

    open spec fn view(&self) -> NodeDataView {
        match self {
            NodeData::Document => NodeDataView::Document,
            NodeData::Fragment => NodeDataView::Fragment,
            NodeData::Doctype { name, public_id, system_id } => NodeDataView::Doctype {
                name: name@,
                public_id: public_id@,
                system_id: system_id@,
            },
            NodeData::Element { tag, attrs } => NodeDataView::Element {
                tag: tag@,
                attrs: attribute_views(attrs@),
            },
            NodeData::Text { text } => NodeDataView::Text { text: text@ },
            NodeData::Comment { text } => NodeDataView::Comment { text: text@ },
            NodeData::ProcessingInstruction => NodeDataView::ProcessingInstruction,
        }
    }
}

/// One step of a walk through a tree: a node is entered, or the node that was entered last
/// and not yet left is left.
#[derive(Debug, PartialEq, Eq)]
pub enum Event {
    Open(NodeData),
    Close,
}

/// The mathematical value of an [`Event`].
pub enum EventView {
    Open(NodeDataView),
    Close,
}

impl View for Event {
    type V = EventView;

    open spec fn view(&self) -> EventView {
        match self {
            Event::Open(data) => EventView::Open(data@),
            Event::Close => EventView::Close,
        }
    }
}

/// The views of a sequence of events, one for one.
pub open spec fn event_views(events: Seq<Event>) -> Seq<EventView> {
    Seq::new(events.len(), |i: int| events[i]@)
}

/// What a node holds besides its children.
pub open spec fn node_data(node: NodeView) -> NodeDataView {
    match node {
        NodeView::Document { .. } => NodeDataView::Document,
        NodeView::Fragment { .. } => NodeDataView::Fragment,
        NodeView::Doctype { name, public_id, system_id } => NodeDataView::Doctype {
            name,
            public_id,
            system_id,
        },
        NodeView::Element(element) => NodeDataView::Element {
            tag: element.tag,
            attrs: element.attrs,
        },
        NodeView::Text { text } => NodeDataView::Text { text },
        NodeView::Comment { text } => NodeDataView::Comment { text },
        NodeView::ProcessingInstruction => NodeDataView::ProcessingInstruction,
    }
}

/// The children of a node. A node that is neither a root nor an element has none.
pub open spec fn children_of(node: NodeView) -> Seq<NodeView> {
    match node {
        NodeView::Document { children } => children,
        NodeView::Fragment { children } => children,
        NodeView::Element(element) => element.children,
        _ => Seq::empty(),
    }
}

/// Whether a node with this data can have children: it is a root or an element.
pub open spec fn can_have_children(data: NodeDataView) -> bool {
    data is Document || data is Fragment || data is Element
}

/// The node with this data and these children. A node that cannot have children gets
/// none.
pub open spec fn node_from(data: NodeDataView, children: Seq<NodeView>) -> NodeView {
    match data {
        NodeDataView::Document => NodeView::Document { children },
        NodeDataView::Fragment => NodeView::Fragment { children },
        NodeDataView::Doctype { name, public_id, system_id } => NodeView::Doctype {
            name,
            public_id,
            system_id,
        },
        NodeDataView::Element { tag, attrs } => NodeView::Element(
            ElementView { tag, attrs, children },
        ),
        NodeDataView::Text { text } => NodeView::Text { text },
        NodeDataView::Comment { text } => NodeView::Comment { text },
        NodeDataView::ProcessingInstruction => NodeView::ProcessingInstruction,
    }
}

/// The walk through a tree: the node is entered, its children are walked in order, and
/// the node is left.
pub open spec fn events_of(node: NodeView) -> Seq<EventView>
    decreases node, 0nat,
{
    let inner = match node {
        NodeView::Document { children } => events_of_all(children),
        NodeView::Fragment { children } => events_of_all(children),
        NodeView::Element(element) => events_of_all(element.children),
        _ => Seq::empty(),
    };
    seq![EventView::Open(node_data(node))] + inner + seq![EventView::Close]
}

/// The walks through sibling trees, one after the other.
pub open spec fn events_of_all(nodes: Seq<NodeView>) -> Seq<EventView>
    decreases nodes, nodes.len(),
{
    if nodes.len() == 0 {
        Seq::empty()
    } else {
        events_of_all(nodes.drop_last()) + events_of(nodes.last())
    }
}

/// The tree that a sequence of events is the walk of, if there is one. There is never
/// more than one: see `lemma_walk_has_one_tree`.
pub open spec fn tree_of(events: Seq<EventView>) -> Option<NodeView> {
    if exists|tree: NodeView| events_of(tree) == events {
        Some(choose|tree: NodeView| events_of(tree) == events)
    } else {
        None
    }
}

/// A parsed document of `scraper`: a tree of nodes.
#[verifier::external_type_specification]
#[verifier::external_body]
pub struct ExHtml(scraper::Html);

/// The value of one node in a parsed document of `scraper`.
#[verifier::external_type_specification]
#[verifier::external_body]
pub struct ExParsedNode(scraper::Node);

/// What a node of a parsed document holds, as plain data.
pub uninterp spec fn parsed_node_data(node: ParsedNode) -> NodeDataView;

/// One step of a walk through a parsed document, as plain data: the value of the node
/// that is entered, or nothing when a node is left.
pub open spec fn step_view(step: Option<ParsedNode>) -> EventView {
    match step {
        Some(node) => EventView::Open(parsed_node_data(node)),
        None => EventView::Close,
    }
}

/// The views of the steps of a walk, one for one.
pub open spec fn step_views(steps: Seq<Option<ParsedNode>>) -> Seq<EventView> {
    Seq::new(steps.len(), |i: int| step_view(steps[i]))
}

/// The walk through a parsed document, from its root.
pub uninterp spec fn document_walk(doc: scraper::Html) -> Seq<EventView>;

/// The document that `scraper` parses from a text.
pub uninterp spec fn parsed_document(html: Seq<char>) -> scraper::Html;

/// The walk through the document that `scraper` parses from a text.
pub open spec fn parsed_walk(html: Seq<char>) -> Seq<EventView> {
    document_walk(parsed_document(html))
}

/// Calls `scraper::Html::parse_document`, which gives a document for every text: by
/// definition, `parsed_document` of the text.
#[verifier::external_body]
pub(crate) fn parse_document(html: &str) -> (doc: scraper::Html)
    ensures
        doc == parsed_document(html@),
{
    scraper::Html::parse_document(html)
}

/// Calls `ego_tree::NodeRef::traverse` on the root of the document's tree and hands out
/// its edges in their order: for an open edge a copy of the node's value, for a close
/// edge nothing. That sequence is, by definition, `document_walk` of the document.
#[verifier::external_body]
pub(crate) fn walk_document(doc: &scraper::Html) -> (steps: Vec<Option<ParsedNode>>)
    ensures
        step_views(steps@) == document_walk(*doc),
{
    doc.tree.root().traverse().map(|edge| match edge {
        ego_tree::iter::Edge::Open(node) => Some(node.value().clone()),
        ego_tree::iter::Edge::Close(_) => None,
    }).collect()
}

/// Reads a node of a parsed document: tells the variants of `scraper::Node` apart and
/// copies the strings that each holds. Of an element it gives the local name and the
/// attributes, each with its local name and value, in the order of `Element::attrs`.
/// What it gives is, by definition, `parsed_node_data` of the node.
#[verifier::external_body]
pub(crate) fn read_node(node: &ParsedNode) -> (data: NodeData)
    ensures
        data@ == parsed_node_data(*node),
{
    match node {
        ParsedNode::Document => NodeData::Document,
        ParsedNode::Fragment => NodeData::Fragment,
        ParsedNode::Doctype(d) => NodeData::Doctype { name: d.name().into(), public_id: d.public_id().into(), system_id: d.system_id().into() },
        ParsedNode::Comment(c) => NodeData::Comment { text: c.to_string() },
        ParsedNode::Text(t) => NodeData::Text { text: t.to_string() },
        ParsedNode::Element(e) => NodeData::Element { tag: e.name().into(), attrs: e.attrs().map(|(k, v)| Attribute { name: k.into(), value: v.into() }).collect() },
        ParsedNode::ProcessingInstruction(_) => NodeData::ProcessingInstruction,
    }
}

/// Reads the steps of a walk through a parsed document into events.
pub(crate) fn read_events(steps: &Vec<Option<ParsedNode>>) -> (events: Vec<Event>)
    ensures
        event_views(events@) == step_views(steps@),
{
    let mut events: Vec<Event> = Vec::new();
    let mut i: usize = 0;
    while i < steps.len()
        invariant
            i <= steps.len(),
            events.len() == i,
            forall|j: int| 0 <= j < i ==> events@[j]@ == step_view(steps@[j]),
        decreases steps.len() - i,
    {
        let event = match &steps[i] {
            Some(node) => Event::Open(read_node(node)),
            None => Event::Close,
        };
        events.push(event);
        i += 1;
    }
    assert(event_views(events@) =~= step_views(steps@));
    events
}

/// Parses a text as an HTML document and gives the tree of its nodes.
///
/// The parser gives a document for every text. [`Error::Custom`] comes back only if the
/// walk through that document were the walk of no tree.
pub fn parse_html(html: &str) -> (result: Result<HtmlNode, Error>)
    ensures
        match tree_of(parsed_walk(html@)) {
            Some(tree) => result matches Ok(found) && found@ == tree,
            None => result matches Err(Error::Custom(_)),
        },
{
    let doc = parse_document(html);
    let steps = walk_document(&doc);
    let events = read_events(&steps);
    build_tree(events)
}

} // verus!
