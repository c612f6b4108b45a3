use html_helpers::{
    combine_selectors, decode_html_entities, elems_from_matches, select, Attribute, Attributes,
    Elem, Error, MatchedElement,
};

fn matched(tag: &str, attrs: Vec<Attribute>, text: &str, inner_html: &str) -> MatchedElement {
    MatchedElement {
        tag: tag.to_string(),
        attrs,
        text: text.to_string(),
        inner_html: inner_html.to_string(),
    }
}

#[test]
fn elem_keeps_what_holds_something() {
    let elem = Elem::from_element_ref(matched(
        "a",
        vec![Attribute::new("href", "h"), Attribute::new("class", "c")],
        " Click here ",
        " Click <b>here</b> ",
    ));
    assert_eq!(elem.tag, "a");
    let attrs = elem.attrs.as_ref().expect("attributes");
    assert_eq!(attrs.len(), 2);
    assert_eq!(attrs.get("href").map(|s| s.as_str()), Some("h"));
    assert_eq!(attrs.get("class").map(|s| s.as_str()), Some("c"));
    assert_eq!(attrs.get("id"), None);
    assert_eq!(elem.text.as_deref(), Some(" Click here "));
    assert_eq!(elem.inner_html.as_deref(), Some(" Click <b>here</b> "));
}

#[test]
fn elem_has_none_for_what_holds_nothing() {
    let elem = Elem::from_element_ref(matched("button", vec![], "  \n ", ""));
    assert_eq!(elem.tag, "button");
    assert!(elem.attrs.is_none());
    assert_eq!(elem.text, None);
    assert_eq!(elem.inner_html, None);
    // An element that holds only an image has markup inside but no text.
    let elem = Elem::from_element_ref(matched("p", vec![], "", "<img>"));
    assert_eq!(elem.text, None);
    assert_eq!(elem.inner_html.as_deref(), Some("<img>"));
}

#[test]
fn attributes_keep_the_last_value_of_a_name() {
    let attrs = Attributes::from_list(vec![
        Attribute::new("href", "first"),
        Attribute::new("id", "i"),
        Attribute::new("href", "second"),
        Attribute::new("href", "third"),
    ]);
    assert_eq!(attrs.len(), 2);
    assert_eq!(attrs.get("href").map(|s| s.as_str()), Some("third"));
    assert_eq!(attrs.get("id").map(|s| s.as_str()), Some("i"));
    assert_eq!(attrs.get("HREF"), None);
    assert_eq!(
        attrs.entries(),
        &vec![Attribute::new("href", "third"), Attribute::new("id", "i")]
    );
    let none = Attributes::from_list(vec![]);
    assert_eq!(none.len(), 0);
    assert_eq!(none.get("href"), None);
}

#[test]
fn elems_from_matches_keeps_the_order() {
    let elems = elems_from_matches(vec![
        matched("h1", vec![], "A", "A"),
        matched("p", vec![Attribute::new("id", "x")], " ", " "),
        matched("h2", vec![], "B", "<i>B</i>"),
    ]);
    assert_eq!(elems.len(), 3);
    assert_eq!(elems[0].tag, "h1");
    assert_eq!(elems[1].tag, "p");
    assert_eq!(elems[1].text, None);
    assert_eq!(elems[1].attrs.as_ref().map(|a| a.len()), Some(1));
    assert_eq!(elems[2].tag, "h2");
    assert_eq!(elems[2].inner_html.as_deref(), Some("<i>B</i>"));
    assert!(elems_from_matches(vec![]).is_empty());
}

#[test]
fn selectors_are_trimmed_and_joined_with_commas() {
    assert_eq!(combine_selectors(&["p"]), "p");
    assert_eq!(combine_selectors(&["h1", "p", "h3"]), "h1,p,h3");
    assert_eq!(combine_selectors(&["  p  ", "\th1\n"]), "p,h1");
    assert_eq!(combine_selectors(&["", "p", "   ", "div > a", ""]), "p,div > a");
    assert_eq!(combine_selectors(&["", "  "]), "");
    assert_eq!(combine_selectors(&[]), "");
}

#[test]
fn select_reports_the_selector_group_and_the_cause() {
    let result = select("<p>Some content</p>", &[" p ", "h1[", "", "div"]);
    match result {
        Err(Error::SelectorParse { selector, cause }) => {
            assert_eq!(selector, "p,h1[,div");
            assert!(!cause.is_empty());
            let error = Error::SelectorParse { selector, cause: cause.clone() };
            assert_eq!(
                error.to_string(),
                format!("Selector 'p,h1[,div' is invalid.\nCause: {}", cause)
            );
        }
        other => panic!("expected a selector error, got {:?}", other),
    }
}

#[test]
fn select_with_blank_selectors_parses_nothing() {
    assert!(select("<p>x</p>", &["", " \n "]).unwrap().is_empty());
    assert!(select("<p>x</p>", &[]).unwrap().is_empty());
}

#[test]
fn select_reads_attributes_text_and_markup() {
    let elems = select(
        "<div id=\"d\"><p class=\"a b\" data-x=\"1\">One <i>two</i></p><p>  </p></div>",
        &["p"],
    )
    .unwrap();
    assert_eq!(elems.len(), 2);
    assert_eq!(elems[0].tag, "p");
    let attrs = elems[0].attrs.as_ref().expect("attributes");
    assert_eq!(attrs.len(), 2);
    assert_eq!(attrs.get("class").map(|s| s.as_str()), Some("a b"));
    assert_eq!(attrs.get("data-x").map(|s| s.as_str()), Some("1"));
    assert_eq!(elems[0].text.as_deref(), Some("One two"));
    assert_eq!(elems[0].inner_html.as_deref(), Some("One <i>two</i>"));
    assert!(elems[1].attrs.is_none());
    assert_eq!(elems[1].text, None);
    assert_eq!(elems[1].inner_html, None);
}

#[test]
fn entities_are_decoded() {
    assert_eq!(decode_html_entities("&lt;p&gt; &amp; &quot;q&quot;"), "<p> & \"q\"");
    assert_eq!(decode_html_entities("caf&eacute; &#65;&#x42;"), "caf\u{e9} AB");
    assert_eq!(decode_html_entities("no entities"), "no entities");
    assert_eq!(decode_html_entities(""), "");
}
