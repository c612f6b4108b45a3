use html_helpers::pruner::{prune_children, prune_element, retain_allowed_attributes};
use html_helpers::{
    is_effectively_empty, parse_html, process_node_recursive, prune_node, write_markup, Attribute,
    Element, HtmlNode,
};

fn el(tag: &str, attrs: Vec<Attribute>, children: Vec<HtmlNode>) -> HtmlNode {
    HtmlNode::element(tag, attrs, children)
}

fn sample_page() -> HtmlNode {
    parse_html(
        r#"<!DOCTYPE html>
<html lang="en">
<head>
  <meta charset="UTF-8">
  <meta property="og:title" content="T" name="n">
  <title id="t">Page</title>
  <style>body { color: red }</style>
  <script>let x = "<p>leak</p>";</script>
  <?pi data?>
</head>
<body class="main" onload="go()">
  <!-- comment -->
  <svg width="1"><path d="M0 0"></path></svg>
  <div><span></span><p> <!-- c --> </p></div>
  <section id="s" data-x="1"><h1 title="h">Hello</h1><i></i></section>
  <a href="https://example.org" class="k" extra="gone">Link</a>
  <main></main>
</body>
</html>"#,
    )
    .unwrap()
}

/// Calls `visit` on every node of the tree with the context it lives in.
fn walk(node: &HtmlNode, in_head: bool, visit: &mut dyn FnMut(&HtmlNode, bool)) {
    visit(node, in_head);
    match node {
        HtmlNode::Document { children } | HtmlNode::Fragment { children } => {
            for child in children {
                walk(child, false, visit);
            }
        }
        HtmlNode::Element(element) => {
            let below = in_head || element.tag == "head";
            for child in &element.children {
                walk(child, below, visit);
            }
        }
        _ => {}
    }
}

#[test]
fn no_comment_or_processing_instruction_is_left() {
    let left = prune_node(sample_page(), false).unwrap();
    let mut nodes = 0;
    walk(&left, false, &mut |node, _| {
        nodes += 1;
        assert!(!matches!(node, HtmlNode::Comment { .. } | HtmlNode::ProcessingInstruction));
        if let HtmlNode::Text { text } = node {
            assert!(!text.trim().is_empty());
        }
    });
    assert!(nodes > 5);
}

#[test]
fn no_removed_tag_is_left() {
    let left = prune_node(sample_page(), false).unwrap();
    let mut tags = Vec::new();
    walk(&left, false, &mut |node, _| {
        if let HtmlNode::Element(element) = node {
            assert!(!["script", "link", "style", "svg", "base"].contains(&element.tag.as_str()));
            tags.push(element.tag.clone());
        }
    });
    assert_eq!(tags, ["html", "head", "meta", "title", "body", "section", "h1", "a", "main"]);
}

#[test]
fn only_allowed_attributes_are_left() {
    let left = prune_node(sample_page(), false).unwrap();
    let mut seen = Vec::new();
    walk(&left, false, &mut |node, in_head| {
        if let HtmlNode::Element(element) = node {
            let below = in_head || element.tag == "head";
            for attr in &element.attrs {
                let allowed: &[&str] = if !below {
                    &["class", "aria-label", "href", "title", "id"]
                } else if element.tag == "meta" {
                    &["property", "content"]
                } else {
                    &[]
                };
                assert!(allowed.contains(&attr.name.as_str()), "{} on {}", attr.name, element.tag);
                seen.push((element.tag.clone(), attr.name.clone(), attr.value.clone()));
            }
        }
    });
    let expected = [
        ("meta", "content", "T"),
        ("meta", "property", "og:title"),
        ("body", "class", "main"),
        ("section", "id", "s"),
        ("h1", "title", "h"),
        ("a", "class", "k"),
        ("a", "href", "https://example.org"),
    ];
    let seen: Vec<(&str, &str, &str)> =
        seen.iter().map(|(t, n, v)| (t.as_str(), n.as_str(), v.as_str())).collect();
    assert_eq!(seen, expected);
}

#[test]
fn retain_allowed_attributes_keeps_values_and_order() {
    let attrs = || {
        vec![
            Attribute::new("title", "1"),
            Attribute::new("x", "2"),
            Attribute::new("id", "3"),
            Attribute::new("content", "4"),
            Attribute::new("class", "5"),
            Attribute::new("property", "6"),
        ]
    };
    assert_eq!(
        retain_allowed_attributes(attrs(), "p", false),
        vec![Attribute::new("title", "1"), Attribute::new("id", "3"), Attribute::new("class", "5")]
    );
    assert_eq!(
        retain_allowed_attributes(attrs(), "meta", true),
        vec![Attribute::new("content", "4"), Attribute::new("property", "6")]
    );
    assert_eq!(retain_allowed_attributes(attrs(), "title", true), vec![]);
    assert_eq!(retain_allowed_attributes(vec![], "p", false), vec![]);
}

#[test]
fn pruned_tree_of_a_small_document() {
    let tree = HtmlNode::document(vec![
        HtmlNode::comment("c"),
        el(
            "html",
            vec![Attribute::new("lang", "en")],
            vec![
                el("head", vec![], vec![el("link", vec![], vec![]), HtmlNode::text("\n")]),
                el(
                    "body",
                    vec![Attribute::new("id", "b"), Attribute::new("style", "s")],
                    vec![
                        el("div", vec![], vec![el("em", vec![], vec![HtmlNode::text(" ")])]),
                        el("p", vec![], vec![HtmlNode::text("x")]),
                    ],
                ),
            ],
        ),
    ]);
    let expected = HtmlNode::document(vec![el(
        "html",
        vec![],
        vec![el(
            "body",
            vec![Attribute::new("id", "b")],
            vec![el("p", vec![], vec![HtmlNode::text("x")])],
        )],
    )]);
    assert_eq!(prune_node(tree, false), Some(expected));
}

#[test]
fn dropped_nodes_give_none() {
    assert_eq!(prune_node(HtmlNode::comment("c"), false), None);
    assert_eq!(prune_node(HtmlNode::ProcessingInstruction, false), None);
    assert_eq!(prune_node(HtmlNode::text("  "), false), None);
    assert_eq!(prune_node(el("script", vec![], vec![HtmlNode::text("x")]), false), None);
    assert_eq!(prune_node(el("div", vec![], vec![HtmlNode::text(" ")]), false), None);
    assert_eq!(prune_node(el("div", vec![], vec![HtmlNode::text("x")]), true), None);
    assert_eq!(prune_node(el("head", vec![], vec![]), false), None);
    assert_eq!(
        prune_element(Element { tag: "p".to_string(), attrs: vec![], children: vec![] }, false),
        None
    );
    assert_eq!(prune_node(HtmlNode::text(" x "), true), Some(HtmlNode::text(" x ")));
    assert_eq!(prune_children(vec![HtmlNode::comment("c"), HtmlNode::text("t")], false), vec![HtmlNode::text("t")]);
}

#[test]
fn effectively_empty_is_judged_by_the_children_at_hand() {
    let element = |children: Vec<HtmlNode>| Element { tag: "div".to_string(), attrs: vec![], children };
    assert!(is_effectively_empty(&element(vec![])));
    assert!(is_effectively_empty(&element(vec![HtmlNode::text(" \n"), HtmlNode::comment("c")])));
    assert!(!is_effectively_empty(&element(vec![HtmlNode::text(" a ")])));
    // An empty element among the children still counts, as long as it is there.
    assert!(!is_effectively_empty(&element(vec![el("span", vec![], vec![])])));
    assert!(!is_effectively_empty(&element(vec![HtmlNode::comment("c"), HtmlNode::ProcessingInstruction])));
    assert!(!is_effectively_empty(&element(vec![HtmlNode::Doctype {
        name: "html".to_string(),
        public_id: String::new(),
        system_id: String::new(),
    }])));
}

#[test]
fn markup_of_a_tree() {
    let tree = HtmlNode::document(vec![
        HtmlNode::Doctype {
            name: "html".to_string(),
            public_id: String::new(),
            system_id: String::new(),
        },
        el(
            "p",
            vec![Attribute::new("title", "a\"b"), Attribute::new("x", "<")],
            vec![HtmlNode::text("1 < 2"), HtmlNode::comment("c"), el("br", vec![], vec![])],
        ),
    ]);
    let mut output = String::from("|");
    write_markup(&tree, &mut output);
    assert_eq!(output, "|<!DOCTYPE html><p title=\"a&quot;b\" x=\"&lt;\">1 < 2<br></br></p>");
}

#[test]
fn writing_while_pruning_gives_the_markup_of_the_pruned_tree() {
    let samples = [
        "",
        "<p>x</p>",
        "<head><title>T</title><meta property=\"og:url\" content=\"u\"></head><body><div> </div></body>",
        "<div><p> </p><div><span></span></div></div><section><h1>Title</h1><div> </div></section>",
        "<!DOCTYPE html><html><head></head><body><a href=\"h\" extra=\"e\">L</a><script>s</script></body></html>",
    ];
    for sample in samples {
        let mut streamed = String::new();
        assert!(process_node_recursive(&parse_html(sample).unwrap(), false, &mut streamed));
        let left = prune_node(parse_html(sample).unwrap(), false).unwrap();
        let mut written = String::new();
        write_markup(&left, &mut written);
        assert_eq!(streamed, written, "{:?}", sample);
    }
    let mut streamed = String::new();
    assert!(process_node_recursive(&sample_page(), false, &mut streamed));
    let mut written = String::new();
    write_markup(&prune_node(sample_page(), false).unwrap(), &mut written);
    assert_eq!(streamed, written);
}
