use crate::document::{parse_document, parsed_document};
use crate::elem::{elem_of, Elem, ElemView, MatchedElement, MatchedElementView};
use crate::error::Error;
use crate::node::Attribute;
use crate::text::{text_views, trim, trimmed};
use scraper::error::SelectorErrorKind;
use scraper::{Html, Selector};
use vstd::prelude::*;
use vstd::string::StringExecFns;

verus! {

/// A parsed group of CSS selectors of `scraper`.
#[verifier::external_type_specification]
#[verifier::external_body]
pub struct ExSelector(scraper::Selector);

/// The reason why `scraper` does not accept a selector.
#[verifier::external_type_specification]
#[verifier::external_body]
pub struct ExSelectorErrorKind(scraper::error::SelectorErrorKind);

/// What `scraper` makes of a selector text: the parsed selectors, or the reason why it
/// does not accept the text.
pub uninterp spec fn parsed_selector(selectors: Seq<char>) -> Result<Selector, SelectorErrorKind>;

/// The words in which `scraper` gives a reason.
pub uninterp spec fn selector_error_text(error: SelectorErrorKind) -> Seq<char>;

/// The elements of a document that match one of the selectors, in the order in which
/// `scraper` finds them, each as plain data.
pub uninterp spec fn document_matches(doc: Html, selector: Selector) -> Seq<MatchedElementView>;

/// Calls `scraper::Selector::parse`: by definition, `parsed_selector` of the text.
#[verifier::external_body]
fn parse_selector(selectors: &str) -> (result: Result<Selector, SelectorErrorKind>)
    ensures
        result == parsed_selector(selectors@),
{
    Selector::parse(selectors)
}

/// Calls `to_string` on a reason of `scraper`, which writes it as `Display` does: by
/// definition, `selector_error_text` of the reason.
#[verifier::external_body]
fn describe_selector_error(error: &SelectorErrorKind) -> (text: String)
    ensures
        text@ == selector_error_text(*error),
{
    error.to_string()
}

/// Calls `scraper::Html::select` and reads each element that it hands out: the local
/// name, the attributes in the order of `Element::attrs`, the text of `ElementRef::text`
/// put together, and the markup of `ElementRef::inner_html`. That is, by definition,
/// `document_matches` of the document and the selectors.
#[verifier::external_body]
fn select_all(doc: &Html, selector: &Selector) -> (found: Vec<MatchedElement>)
    ensures
        matched_views(found@) == document_matches(*doc, *selector),
{
    doc.select(selector).map(|el| MatchedElement {
        tag: el.value().name().into(),
        attrs: el.value().attrs().map(|(k, v)| Attribute { name: k.into(), value: v.into() }).collect(),
        text: el.text().collect(),
        inner_html: el.inner_html(),
    }).collect()
}

/// The views of a sequence of matched elements, one for one.
pub open spec fn matched_views(found: Seq<MatchedElement>) -> Seq<MatchedElementView> {
    Seq::new(found.len(), |i: int| found[i]@)
}

/// The views of a sequence of simplified elements, one for one.
pub open spec fn elem_views(elems: Seq<Elem>) -> Seq<ElemView> {
    Seq::new(elems.len(), |i: int| elems[i]@)
}

/// The simplified elements that matched elements give, one for one.
pub open spec fn elems_of(found: Seq<MatchedElementView>) -> Seq<ElemView> {
    Seq::new(found.len(), |i: int| elem_of(found[i]))
}

/// The selector group that a list of selectors makes: each selector without the white
/// space around it, the blank ones left out, with a comma between each two.
pub open spec fn combined_selectors(selectors: Seq<Seq<char>>) -> Seq<char>
    decreases selectors.len(),
{
    if selectors.len() == 0 {
        Seq::empty()
    } else {
        let before = combined_selectors(selectors.drop_last());
        let selector = trimmed(selectors.last());
        if selector.len() == 0 {
            before
        } else if before.len() == 0 {
            selector
        } else {
            before + seq![','] + selector
        }
    }
}

/// Puts a list of selectors together into one selector group.
pub fn combine_selectors(selectors: &[&str]) -> (combined: String)
    ensures
        combined@ == combined_selectors(text_views(selectors@)),
{
    let ghost all = text_views(selectors@);
    let mut combined = String::new();
    let mut i: usize = 0;
    assert(all.take(0) =~= Seq::<Seq<char>>::empty());
    while i < selectors.len()
        invariant
            i <= selectors.len(),
            all == text_views(selectors@),
            combined@ == combined_selectors(all.take(i as int)),
        decreases selectors.len() - i,
    {
        proof {
            assert(all.take(i + 1).drop_last() =~= all.take(i as int));
            assert(all.take(i + 1).last() == selectors@[i as int]@);
        }
        let selector = trim(selectors[i]);
        if !selector.is_empty() {
            if !combined.as_str().is_empty() {
                combined.append(",");
                proof {
                    reveal_strlit(",");
                    assert(","@ =~= seq![',']);
                }
            }
            combined.append(selector);
        }
        i += 1;
    }
    assert(all.take(all.len() as int) =~= all);
    combined
}

/// Makes the simplified elements of matched elements, one for one.
pub fn elems_from_matches(found: Vec<MatchedElement>) -> (elems: Vec<Elem>)
    ensures
        elem_views(elems@) == elems_of(matched_views(found@)),
{
    let mut elems: Vec<Elem> = Vec::new();
    for matched in it: found
        invariant
            it.seq() == found@,
            elems.len() == it.index(),
            forall|i: int| 0 <= i < elems.len() ==> (#[trigger] elems@[i])@ == elem_of(found@[i]@),
    {
        elems.push(Elem::from_element_ref(matched));
    }
    assert(elem_views(elems@) =~= elems_of(matched_views(found@)));
    elems
}

/// Selects the elements of an HTML text that match one of the selectors, and gives them
/// as simplified elements in the order in which the selector engine finds them.
///
/// Blank selectors are left out. Where none is left, the result is empty and nothing is
/// parsed. Where the selector engine does not accept the others, put together with
/// commas, the result is [`Error::SelectorParse`] with the selector group and the
/// engine's reason.
pub fn select(html_content: &str, selectors: &[&str]) -> (result: Result<Vec<Elem>, Error>)
    ensures
        ({
            let combined = combined_selectors(text_views(selectors@));
            if combined.len() == 0 {
                result matches Ok(elems) && elems.len() == 0
            } else {
                match parsed_selector(combined) {
                    Ok(selector) => {
                        &&& result matches Ok(elems)
                        &&& elem_views(result->Ok_0@) == elems_of(
                            document_matches(parsed_document(html_content@), selector),
                        )
                    },
                    Err(reason) => {
                        &&& result matches Err(Error::SelectorParse { selector, cause })
                        &&& result->Err_0->selector@ == combined
                        &&& result->Err_0->cause@ == selector_error_text(reason)
                    },
                }
            }
        }),
{
    let selectors_str = combine_selectors(selectors);
    if selectors_str.as_str().is_empty() {
        return Ok(Vec::new());
    }
    match parse_selector(selectors_str.as_str()) {
        Err(reason) => {
            let cause = describe_selector_error(&reason);
            Err(Error::SelectorParse { selector: selectors_str, cause })
        },
        Ok(css_selector) => {
            let html = parse_document(html_content);
            let found = select_all(&html, &css_selector);
            Ok(elems_from_matches(found))
        },
    }
}

} // verus!
