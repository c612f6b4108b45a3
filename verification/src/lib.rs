pub mod builder;
pub mod document;
pub mod elem;
pub mod error;
pub mod lines;
pub mod markup;
pub mod node;
pub mod pruned;
pub mod pruner;
pub mod rules;
pub mod selector;
pub mod slimmer;
pub mod text;

pub use crate::builder::build_tree;
pub use crate::document::{parse_html, Event, NodeData};
pub use crate::elem::{Attributes, Elem, MatchedElement};
pub use crate::error::{Error, Result};
pub use crate::lines::remove_empty_lines;
pub use crate::node::{Attribute, Element, HtmlNode};
pub use crate::markup::write_markup;
pub use crate::pruner::prune_node;
pub use crate::rules::{is_effectively_empty, should_keep_meta};
pub use crate::selector::{combine_selectors, elems_from_matches, select};
pub use crate::slimmer::{
    decode_html_entities, filter_and_write_attributes, process_node_recursive, slim,
    slim_document,
};
pub use crate::text::is_string_effectively_empty;
