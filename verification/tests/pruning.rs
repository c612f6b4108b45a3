use html_helpers::rules::{
    is_allowed_attribute, is_element_eligible, is_removable_empty_tag, is_tag_to_remove,
    value_has_meta_keyword,
};
use html_helpers::slimmer::{process_children, process_element};
use html_helpers::{
    filter_and_write_attributes, process_node_recursive, should_keep_meta, slim, slim_document,
    Attribute, Element, HtmlNode,
};

fn el(tag: &str, attrs: Vec<Attribute>, children: Vec<HtmlNode>) -> HtmlNode {
    HtmlNode::element(tag, attrs, children)
}

fn element(tag: &str, attrs: Vec<Attribute>, children: Vec<HtmlNode>) -> Element {
    Element { tag: tag.to_string(), attrs, children }
}

fn render(node: &HtmlNode, in_head: bool) -> (bool, String) {
    let mut output = String::new();
    let kept = process_node_recursive(node, in_head, &mut output);
    (kept, output)
}

#[test]
fn comments_and_processing_instructions_never_stay() {
    assert_eq!(render(&HtmlNode::comment("note"), false), (false, String::new()));
    assert_eq!(render(&HtmlNode::comment("note"), true), (false, String::new()));
    assert_eq!(render(&HtmlNode::ProcessingInstruction, false), (false, String::new()));
    let tree = el(
        "main",
        vec![],
        vec![
            HtmlNode::comment("one"),
            HtmlNode::ProcessingInstruction,
            el("h1", vec![], vec![HtmlNode::comment("two"), HtmlNode::text("T")]),
        ],
    );
    assert_eq!(render(&tree, false), (true, "<main><h1>T</h1></main>".to_string()));
}

#[test]
fn removed_tags_go_with_all_they_hold() {
    for tag in ["script", "link", "style", "svg", "base"] {
        let node = el(tag, vec![], vec![HtmlNode::text("leak"), el("p", vec![], vec![HtmlNode::text("x")])]);
        assert_eq!(render(&node, false), (false, String::new()), "{}", tag);
        assert_eq!(render(&node, true), (false, String::new()), "{}", tag);
        assert!(is_tag_to_remove(tag));
    }
    assert!(!is_tag_to_remove("p"));
    assert!(!is_tag_to_remove("head"));
    assert!(!is_tag_to_remove("scripts"));
    let html = slim("<body><script>var leak = 1;</script><style>p { color: red }</style><p>kept</p></body>").unwrap();
    assert_eq!(html, "<html><body><p>kept</p></body></html>");
}

#[test]
fn text_stays_unless_blank() {
    assert_eq!(render(&HtmlNode::text("Hello"), false), (true, "Hello".to_string()));
    assert_eq!(render(&HtmlNode::text("  a <b> & c "), false), (true, "  a <b> & c ".to_string()));
    assert_eq!(render(&HtmlNode::text(" \n\t "), false), (false, String::new()));
    assert_eq!(render(&HtmlNode::text(""), false), (false, String::new()));
    assert_eq!(render(&HtmlNode::text("\u{a0}\u{2003}"), false), (false, String::new()));
}

#[test]
fn doctype_is_written_as_it_is() {
    let plain = HtmlNode::Doctype {
        name: "html".to_string(),
        public_id: String::new(),
        system_id: String::new(),
    };
    assert_eq!(render(&plain, false), (true, "<!DOCTYPE html>".to_string()));
    let public = HtmlNode::Doctype {
        name: "html".to_string(),
        public_id: "-//W3C//DTD HTML 4.01//EN".to_string(),
        system_id: "http://www.w3.org/TR/html4/strict.dtd".to_string(),
    };
    assert_eq!(
        render(&public, false),
        (
            true,
            "<!DOCTYPE html PUBLIC \"-//W3C//DTD HTML 4.01//EN\" \"http://www.w3.org/TR/html4/strict.dtd\">"
                .to_string()
        )
    );
    let system = HtmlNode::Doctype {
        name: "html".to_string(),
        public_id: String::new(),
        system_id: "about:legacy-compat".to_string(),
    };
    assert_eq!(
        render(&system, true),
        (true, "<!DOCTYPE html SYSTEM \"about:legacy-compat\">".to_string())
    );
    let public_only = HtmlNode::Doctype {
        name: "html".to_string(),
        public_id: "pub".to_string(),
        system_id: String::new(),
    };
    assert_eq!(render(&public_only, false), (true, "<!DOCTYPE html PUBLIC \"pub\">".to_string()));
}

#[test]
fn roots_always_stay_and_reset_the_context() {
    assert_eq!(render(&HtmlNode::document(vec![]), false), (true, String::new()));
    assert_eq!(render(&HtmlNode::Fragment { children: vec![] }, true), (true, String::new()));
    let doc = HtmlNode::document(vec![el("p", vec![], vec![HtmlNode::text("x")])]);
    assert_eq!(render(&doc, true), (true, "<p>x</p>".to_string()));
    let fragment = HtmlNode::Fragment { children: vec![HtmlNode::comment("c"), HtmlNode::text("t")] };
    assert_eq!(render(&fragment, false), (true, "t".to_string()));
}

#[test]
fn attributes_outside_head_keep_the_allowed_in_order() {
    let link = element(
        "a",
        vec![
            Attribute::new("href", "https://x"),
            Attribute::new("class", "c"),
            Attribute::new("extra", "gone"),
        ],
        vec![HtmlNode::text("L")],
    );
    let mut output = String::new();
    assert!(process_element(&link, false, &mut output));
    assert_eq!(output, "<a href=\"https://x\" class=\"c\">L</a>");

    let all = element(
        "div",
        vec![
            Attribute::new("id", "i"),
            Attribute::new("style", "s"),
            Attribute::new("title", "t"),
            Attribute::new("aria-label", "a"),
            Attribute::new("onclick", "o"),
            Attribute::new("href", "h"),
            Attribute::new("class", "c"),
            Attribute::new("property", "p"),
            Attribute::new("content", "n"),
        ],
        vec![],
    );
    let mut output = String::from("x");
    filter_and_write_attributes(&all, false, &mut output);
    assert_eq!(output, "x id=\"i\" title=\"t\" aria-label=\"a\" href=\"h\" class=\"c\"");
}

#[test]
fn attributes_inside_head_go_by_the_tag() {
    let attrs = || {
        vec![
            Attribute::new("content", "C"),
            Attribute::new("class", "k"),
            Attribute::new("property", "og:title"),
            Attribute::new("id", "i"),
        ]
    };
    let mut output = String::new();
    filter_and_write_attributes(&element("meta", attrs(), vec![]), true, &mut output);
    assert_eq!(output, " content=\"C\" property=\"og:title\"");
    let mut output = String::new();
    filter_and_write_attributes(&element("title", attrs(), vec![]), true, &mut output);
    assert_eq!(output, "");
    let mut output = String::new();
    filter_and_write_attributes(&element("head", attrs(), vec![]), true, &mut output);
    assert_eq!(output, "");
    assert!(is_allowed_attribute("meta", true, "property"));
    assert!(is_allowed_attribute("meta", true, "content"));
    assert!(!is_allowed_attribute("meta", true, "class"));
    assert!(!is_allowed_attribute("title", true, "content"));
    assert!(is_allowed_attribute("meta", false, "class"));
    assert!(!is_allowed_attribute("meta", false, "content"));
    assert!(!is_allowed_attribute("p", false, "Class"));
}

#[test]
fn attribute_values_are_escaped() {
    let node = element(
        "a",
        vec![Attribute::new("title", "a \"b\" & <c> 'd' \u{e9}"), Attribute::new("href", "")],
        vec![],
    );
    let mut output = String::new();
    filter_and_write_attributes(&node, false, &mut output);
    assert_eq!(output, " title=\"a &quot;b&quot; &amp; &lt;c&gt; 'd' \u{e9}\" href=\"\"");
}

#[test]
fn meta_is_kept_by_its_property() {
    let meta = |attrs: Vec<Attribute>| element("meta", attrs, vec![]);
    assert!(should_keep_meta(&meta(vec![Attribute::new("property", "og:title")])));
    assert!(should_keep_meta(&meta(vec![Attribute::new("property", "og:subtitle")])));
    assert!(should_keep_meta(&meta(vec![Attribute::new("property", "OG:IMAGE")])));
    assert!(should_keep_meta(&meta(vec![Attribute::new("property", "twitter:Url")])));
    assert!(should_keep_meta(&meta(vec![
        Attribute::new("content", "x"),
        Attribute::new("property", "description"),
    ])));
    assert!(!should_keep_meta(&meta(vec![Attribute::new("property", "og:type")])));
    assert!(!should_keep_meta(&meta(vec![Attribute::new("property", "")])));
    assert!(!should_keep_meta(&meta(vec![Attribute::new("name", "title")])));
    assert!(!should_keep_meta(&meta(vec![Attribute::new("content", "title")])));
    assert!(!should_keep_meta(&meta(vec![])));
    assert!(!should_keep_meta(&element("link", vec![Attribute::new("property", "og:title")], vec![])));
    assert!(value_has_meta_keyword("my-description-here"));
    assert!(value_has_meta_keyword("URL"));
    assert!(!value_has_meta_keyword("ur-l"));
    assert!(!value_has_meta_keyword("titl"));
}

#[test]
fn inside_head_only_title_and_kept_meta_are_eligible() {
    let kept_meta = element("meta", vec![Attribute::new("property", "og:url")], vec![]);
    let other_meta = element("meta", vec![Attribute::new("charset", "utf-8")], vec![]);
    assert!(is_element_eligible(&element("title", vec![], vec![]), true));
    assert!(is_element_eligible(&kept_meta, true));
    assert!(!is_element_eligible(&other_meta, true));
    assert!(!is_element_eligible(&element("div", vec![], vec![]), true));
    assert!(!is_element_eligible(&element("head", vec![], vec![]), true));
    assert!(is_element_eligible(&other_meta, false));
    assert!(is_element_eligible(&element("div", vec![], vec![]), false));
    assert!(!is_element_eligible(&element("svg", vec![], vec![]), false));
}

#[test]
fn head_stays_only_with_title_or_kept_meta() {
    let head = |children: Vec<HtmlNode>| el("head", vec![Attribute::new("class", "h")], children);
    let title = || el("title", vec![Attribute::new("id", "t")], vec![HtmlNode::text("T")]);
    let kept_meta = || {
        el(
            "meta",
            vec![Attribute::new("property", "og:image"), Attribute::new("content", "i.png")],
            vec![],
        )
    };
    let other_meta = || el("meta", vec![Attribute::new("charset", "utf-8")], vec![]);
    assert_eq!(render(&head(vec![]), false), (false, String::new()));
    assert_eq!(
        render(&head(vec![other_meta(), el("link", vec![], vec![]), HtmlNode::comment("c")]), false),
        (false, String::new())
    );
    assert_eq!(
        render(&head(vec![other_meta(), title()]), false),
        (true, "<head><title>T</title></head>".to_string())
    );
    assert_eq!(
        render(&head(vec![kept_meta()]), false),
        (true, "<head><meta property=\"og:image\" content=\"i.png\"></meta></head>".to_string())
    );
    // An empty title is still a title.
    assert_eq!(
        render(&head(vec![el("title", vec![], vec![])]), false),
        (true, "<head><title></title></head>".to_string())
    );
    // A head inside the head is not one of the two that may stay there.
    assert_eq!(render(&head(vec![title()]), true), (false, String::new()));
}

#[test]
fn removable_tags_stay_only_with_content() {
    let tags = [
        "div", "span", "p", "i", "b", "em", "strong", "section", "article", "header", "footer",
        "nav", "aside",
    ];
    for tag in tags {
        assert!(is_removable_empty_tag(tag));
        assert_eq!(render(&el(tag, vec![], vec![]), false), (false, String::new()), "{}", tag);
        let blank = el(tag, vec![Attribute::new("id", "x")], vec![HtmlNode::text("  \n"), HtmlNode::comment("c")]);
        assert_eq!(render(&blank, false), (false, String::new()), "{}", tag);
        let with_text = el(tag, vec![], vec![HtmlNode::text("t")]);
        assert_eq!(render(&with_text, false), (true, format!("<{}>t</{}>", tag, tag)), "{}", tag);
        let with_element = el(tag, vec![], vec![el("br", vec![], vec![])]);
        assert_eq!(
            render(&with_element, false),
            (true, format!("<{}><br></br></{}>", tag, tag)),
            "{}",
            tag
        );
    }
    assert!(!is_removable_empty_tag("main"));
    assert!(!is_removable_empty_tag("head"));
    assert!(!is_removable_empty_tag("td"));
}

#[test]
fn nested_empties_collapse_from_the_bottom() {
    let tree = HtmlNode::document(vec![
        el(
            "div",
            vec![],
            vec![
                el("p", vec![], vec![HtmlNode::text(" ")]),
                el("div", vec![], vec![el("span", vec![], vec![])]),
            ],
        ),
        el(
            "section",
            vec![],
            vec![
                el("h1", vec![], vec![HtmlNode::text("Title")]),
                el("div", vec![], vec![HtmlNode::text(" ")]),
            ],
        ),
    ]);
    assert_eq!(render(&tree, false), (true, "<section><h1>Title</h1></section>".to_string()));
    assert_eq!(slim_document(&tree).unwrap(), "<section><h1>Title</h1></section>");
}

#[test]
fn empty_elements_outside_the_removable_set_stay() {
    let tree = HtmlNode::document(vec![
        el("main", vec![], vec![]),
        el("table", vec![], vec![el("tr", vec![], vec![el("td", vec![], vec![])])]),
    ]);
    assert_eq!(
        render(&tree, false),
        (true, "<main></main><table><tr><td></td></tr></table>".to_string())
    );
}

#[test]
fn children_are_counted_and_written_in_order() {
    let children = vec![
        HtmlNode::text("a"),
        HtmlNode::comment("x"),
        el("b", vec![], vec![]),
        el("i", vec![], vec![HtmlNode::text("c")]),
        HtmlNode::text("  "),
        el("hr", vec![], vec![]),
    ];
    let mut output = String::from(">");
    assert_eq!(process_children(&children, false, &mut output), 3);
    assert_eq!(output, ">a<i>c</i><hr></hr>");
    let mut output = String::new();
    assert_eq!(process_children(&children, true, &mut output), 1);
    assert_eq!(output, "a");
}

#[test]
fn slim_example_head_without_content_is_gone() {
    let html = slim(
        "<head><meta charset=\"utf-8\"><link rel=\"icon\" href=\"favicon.ico\"></head><body><p>Content</p></body>",
    )
    .unwrap();
    assert_eq!(html, "<html><body><p>Content</p></body></html>");
    assert!(!html.contains("<head"));
}

#[test]
fn slim_example_head_with_title_stays() {
    let html = slim(
        "<head><title>Only Title</title><script></script></head><body><p>Content</p></body>",
    )
    .unwrap();
    assert_eq!(
        html,
        "<html><head><title>Only Title</title></head><body><p>Content</p></body></html>"
    );
}

#[test]
fn slim_example_nested_empties() {
    let html = slim(
        "<div><p> </p><div><span></span></div></div><section><h1>Title</h1><div> </div></section>",
    )
    .unwrap();
    assert_eq!(html, "<html><body><section><h1>Title</h1></section></body></html>");
}

#[test]
fn slim_example_non_removable_empties() {
    let html = slim("<main></main><table><tr><td></td></tr></table>").unwrap();
    assert_eq!(
        html,
        "<html><body><main></main><table><tbody><tr><td></td></tr></tbody></table></body></html>"
    );
}

#[test]
fn slim_example_anchor_attributes() {
    let html = slim("<a href=\"https://x\" class=\"c\" extra=\"gone\">L</a>").unwrap();
    // The parser hands the attributes out ordered by name.
    assert_eq!(html, "<html><body><a class=\"c\" href=\"https://x\">L</a></body></html>");
}

#[test]
fn slim_has_no_blank_lines() {
    let html = slim("<!DOCTYPE html>\n<html>\n<body>\n\n<p>one</p>\n   \n<p>two</p>\n\n</body>\n</html>\n").unwrap();
    assert_eq!(html, "<!DOCTYPE html><html><body><p>one</p><p>two</p></body></html>");
    let html = slim("<pre>a\n\n  \nb</pre>").unwrap();
    assert_eq!(html, "<html><body><pre>a\nb</pre></body></html>");
    for line in html.lines() {
        assert!(!line.trim().is_empty());
    }
}

#[test]
fn slim_of_nothing_is_the_bare_skeleton() {
    assert_eq!(slim("").unwrap(), "<html><body></body></html>");
}
