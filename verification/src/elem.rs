use crate::node::{attribute_views, Attribute, AttributeView};
use crate::text::{is_blank, is_string_effectively_empty, same_text};
use vstd::prelude::*;

verus! {

/// What was read of an element that a selector matched: its tag, its attributes in the
/// order the parser gave them, the text of all text nodes below it put together, and the
/// markup of what stands inside it.
#[derive(Debug, PartialEq, Eq)]
pub struct MatchedElement {
    pub tag: String,
    pub attrs: Vec<Attribute>,
    pub text: String,
    pub inner_html: String,
}

/// The mathematical value of a [`MatchedElement`].
pub struct MatchedElementView {
    pub tag: Seq<char>,
    pub attrs: Seq<AttributeView>,
    pub text: Seq<char>,
    pub inner_html: Seq<char>,
}

impl View for MatchedElement {
    type V = MatchedElementView;

    open spec fn view(&self) -> MatchedElementView {
        MatchedElementView {
            tag: self.tag@,
            attrs: attribute_views(self.attrs@),
            text: self.text@,
            inner_html: self.inner_html@,
        }
    }
}

/// A mapping from attribute names to values. No name occurs twice in it.
#[derive(Debug)]
pub struct Attributes {
    entries: Vec<Attribute>,
}

/// A simplified HTML element.
///
/// A part that holds nothing is `None`: the attributes when there are none, the text and
/// the inner markup when they are blank.
#[derive(Debug)]
pub struct Elem {
    pub tag: String,
    pub attrs: Option<Attributes>,
    pub text: Option<String>,
    pub inner_html: Option<String>,
}

/// The mathematical value of an [`Elem`].
pub struct ElemView {
    pub tag: Seq<char>,
    pub attrs: Option<Map<Seq<char>, Seq<char>>>,
    pub text: Option<Seq<char>>,
    pub inner_html: Option<Seq<char>>,
}

/// The mapping that a run of attributes makes: each name maps to the value that came
/// with it last.
pub open spec fn attribute_map(attrs: Seq<AttributeView>) -> Map<Seq<char>, Seq<char>>
    decreases attrs.len(),
{
    if attrs.len() == 0 {
        Map::empty()
    } else {
        attribute_map(attrs.drop_last()).insert(attrs.last().name, attrs.last().value)
    }
}

/// Whether no name occurs twice among the attributes.
pub open spec fn names_distinct(attrs: Seq<AttributeView>) -> bool {
    forall|i: int, j: int| 0 <= i < j < attrs.len() ==> attrs[i].name != attrs[j].name
}

/// A text, or `None` in place of a blank one.
pub open spec fn unless_blank(text: Seq<char>) -> Option<Seq<char>> {
    if is_blank(text) {
        None
    } else {
        Some(text)
    }
}

/// The view of a text that may be missing.
pub open spec fn text_view(text: Option<String>) -> Option<Seq<char>> {
    match text {
        Some(text) => Some(text@),
        None => None,
    }
}

/// The simplified element that a matched element gives. Its attributes are a mapping, in
/// which a name that came twice keeps the value that came last; where there are none, the
/// mapping is `None`. The text and the inner markup are `None` where they are blank.
pub open spec fn elem_of(matched: MatchedElementView) -> ElemView {
    ElemView {
        tag: matched.tag,
        attrs: if matched.attrs.len() == 0 {
            None
        } else {
            Some(attribute_map(matched.attrs))
        },
        text: unless_blank(matched.text),
        inner_html: unless_blank(matched.inner_html),
    }
}

impl View for Attributes {
    type V = Map<Seq<char>, Seq<char>>;

    closed spec fn view(&self) -> Map<Seq<char>, Seq<char>> {
        attribute_map(attribute_views(self.entries@))
    }
}

impl View for Elem {
    type V = ElemView;

    open spec fn view(&self) -> ElemView {
        ElemView {
            tag: self.tag@,
            attrs: match self.attrs {
                Some(attrs) => Some(attrs@),
                None => None,
            },
            text: text_view(self.text),
            inner_html: text_view(self.inner_html),
        }
    }
}

/// The names that a mapping made from attributes holds are the names of the attributes.
pub proof fn lemma_attribute_map_names(attrs: Seq<AttributeView>)
    ensures
        forall|name: Seq<char>|
            attribute_map(attrs).contains_key(name) <==> exists|i: int|
                0 <= i < attrs.len() && (#[trigger] attrs[i]).name == name,
    decreases attrs.len(),
{
    if attrs.len() > 0 {
        let front = attrs.drop_last();
        lemma_attribute_map_names(front);
        assert forall|name: Seq<char>|
            attribute_map(attrs).contains_key(name) <==> exists|i: int|
                0 <= i < attrs.len() && (#[trigger] attrs[i]).name == name by {
            if attribute_map(attrs).contains_key(name) {
                if name == attrs.last().name {
                    assert(attrs[attrs.len() - 1].name == name);
                } else {
                    assert(attribute_map(front).contains_key(name));
                    let i = choose|i: int|
                        0 <= i < front.len() && (#[trigger] front[i]).name == name;
                    assert(attrs[i].name == name);
                }
            }
            if exists|i: int| 0 <= i < attrs.len() && (#[trigger] attrs[i]).name == name {
                let i = choose|i: int| 0 <= i < attrs.len() && (#[trigger] attrs[i]).name == name;
                if i < front.len() {
                    assert(front[i].name == name);
                    assert(attribute_map(front).contains_key(name));
                }
            }
        }
    }
}

/// Where no name occurs twice, the mapping gives each attribute's name its value.
pub proof fn lemma_attribute_map_value(attrs: Seq<AttributeView>, i: int)
    requires
        names_distinct(attrs),
        0 <= i < attrs.len(),
    ensures
        attribute_map(attrs).contains_key(attrs[i].name),
        attribute_map(attrs)[attrs[i].name] == attrs[i].value,
    decreases attrs.len(),
{
    if i < attrs.len() - 1 {
        lemma_attribute_map_value(attrs.drop_last(), i);
    }
}

/// Where no name occurs twice, the mapping holds as many names as there are attributes.
pub proof fn lemma_attribute_map_len(attrs: Seq<AttributeView>)
    requires
        names_distinct(attrs),
    ensures
        attribute_map(attrs).dom().finite(),
        attribute_map(attrs).len() == attrs.len(),
    decreases attrs.len(),
{
    if attrs.len() > 0 {
        let front = attrs.drop_last();
        lemma_attribute_map_len(front);
        lemma_attribute_map_names(front);
        if attribute_map(front).contains_key(attrs.last().name) {
            let i = choose|i: int|
                0 <= i < front.len() && (#[trigger] front[i]).name == attrs.last().name;
            assert(attrs[i].name != attrs[attrs.len() - 1].name);
        }
    }
}

impl Attributes {
    #[verifier::type_invariant]
    spec fn names_are_distinct(self) -> bool {
        names_distinct(attribute_views(self.entries@))
    }

    /// Makes the mapping that a run of attributes gives: each name maps to the value
    /// that came with it last.
    pub fn from_list(attrs: Vec<Attribute>) -> (mapping: Attributes)
        ensures
            mapping@ == attribute_map(attribute_views(attrs@)),
    {
        Attributes { entries: attributes_by_name(attrs) }
    }

    /// The value of the attribute with this name, if there is one.
    pub fn get(&self, name: &str) -> (value: Option<&String>)
        ensures
            match value {
                Some(value) => self@.contains_key(name@) && self@[name@] == value@,
                None => !self@.contains_key(name@),
            },
    {
        proof {
            use_type_invariant(self);
            lemma_attribute_map_names(attribute_views(self.entries@));
        }
        match position_of_name(&self.entries, name) {
            Some(at) => {
                proof {
                    lemma_attribute_map_value(attribute_views(self.entries@), at as int);
                }
                Some(&self.entries[at].value)
            },
            None => None,
        }
    }

    /// How many names the mapping holds.
    pub fn len(&self) -> (count: usize)
        ensures
            count == self@.len(),
    {
        proof {
            use_type_invariant(self);
            lemma_attribute_map_len(attribute_views(self.entries@));
        }
        self.entries.len()
    }

    /// The attributes of the mapping, each name once.
    pub fn entries(&self) -> (entries: &Vec<Attribute>)
        ensures
            names_distinct(attribute_views(entries@)),
            attribute_map(attribute_views(entries@)) == self@,
    {
        proof {
            use_type_invariant(self);
        }
        &self.entries
    }
}

impl Elem {
    /// Makes an `Elem` from what was read of a matched element.
    pub fn from_element_ref(el_ref: MatchedElement) -> (elem: Elem)
        ensures
            elem@ == elem_of(el_ref@),
    {
        let MatchedElement { tag, attrs, text, inner_html } = el_ref;
        let attrs = if attrs.len() > 0 {
            Some(Attributes::from_list(attrs))
        } else {
            None
        };
        let text = if is_string_effectively_empty(text.as_str()) {
            None
        } else {
            Some(text)
        };
        let inner_html = if is_string_effectively_empty(inner_html.as_str()) {
            None
        } else {
            Some(inner_html)
        };
        Elem { tag, attrs, text, inner_html }
    }
}

/// Finds an attribute with this name.
fn position_of_name(attrs: &Vec<Attribute>, name: &str) -> (found: Option<usize>)
    ensures
        match found {
            Some(i) => i < attrs.len() && attrs@[i as int]@.name == name@,
            None => forall|j: int| 0 <= j < attrs.len() ==> attrs@[j]@.name != name@,
        },
{
    let mut i: usize = 0;
    while i < attrs.len()
        invariant
            i <= attrs.len(),
            forall|j: int| 0 <= j < i ==> attrs@[j]@.name != name@,
        decreases attrs.len() - i,
    {
        if same_text(attrs[i].name.as_str(), name) {
            return Some(i);
        }
        i += 1;
    }
    None
}

/// Turns a run of attributes into a mapping: no name occurs twice in the result, and each
/// name has the value that came with it last.
fn attributes_by_name(attrs: Vec<Attribute>) -> (unique: Vec<Attribute>)
    ensures
        names_distinct(attribute_views(unique@)),
        attribute_map(attribute_views(unique@)) == attribute_map(attribute_views(attrs@)),
{
    let ghost all = attribute_views(attrs@);
    let mut unique: Vec<Attribute> = Vec::new();
    assert(all.take(0) =~= Seq::<AttributeView>::empty());
    assert(attribute_views(unique@) =~= Seq::<AttributeView>::empty());
    for attr in it: attrs
        invariant
            it.seq() == attrs@,
            all == attribute_views(attrs@),
            names_distinct(attribute_views(unique@)),
            attribute_map(attribute_views(unique@)) == attribute_map(all.take(it.index() as int)),
    {
        let ghost n = it.index() as int;
        let ghost old_views = attribute_views(unique@);
        proof {
            assert(all.take(n + 1).drop_last() =~= all.take(n));
            assert(all.take(n + 1).last() == attr@);
        }
        match position_of_name(&unique, attr.name.as_str()) {
            Some(at) => {
                unique.set(at, attr);
                proof {
                    let new_views = attribute_views(unique@);
                    assert(new_views =~= old_views.update(at as int, attr@));
                    assert(old_views[at as int].name == attr@.name);
                    assert forall|i: int, j: int|
                        0 <= i < j < new_views.len() implies new_views[i].name
                        != new_views[j].name by {
                        assert(old_views[i].name != old_views[j].name);
                    }
                    lemma_attribute_map_names(old_views);
                    lemma_attribute_map_names(new_views);
                    let target = attribute_map(old_views).insert(attr@.name, attr@.value);
                    assert forall|name: Seq<char>|
                        attribute_map(new_views).contains_key(name) <==> target.contains_key(
                            name,
                        ) by {
                        if attribute_map(new_views).contains_key(name) {
                            let i = choose|i: int|
                                0 <= i < new_views.len() && (#[trigger] new_views[i]).name == name;
                            assert(old_views[i].name == name);
                        }
                        if attribute_map(old_views).contains_key(name) {
                            let i = choose|i: int|
                                0 <= i < old_views.len() && (#[trigger] old_views[i]).name == name;
                            assert(new_views[i].name == name);
                        }
                        if name == attr@.name {
                            assert(new_views[at as int].name == name);
                        }
                    }
                    assert forall|name: Seq<char>|
                        attribute_map(new_views).contains_key(name) implies attribute_map(
                        new_views,
                    )[name] == target[name] by {
                        let i = choose|i: int|
                            0 <= i < new_views.len() && (#[trigger] new_views[i]).name == name;
                        lemma_attribute_map_value(new_views, i);
                        if i != at {
                            assert(new_views[i] == old_views[i]);
                            if i < at {
                                assert(old_views[i].name != old_views[at as int].name);
                            } else {
                                assert(old_views[at as int].name != old_views[i].name);
                            }
                            lemma_attribute_map_value(old_views, i);
                        }
                    }
                    assert(attribute_map(new_views) =~= target);
                }
            },
            None => {
                unique.push(attr);
                proof {
                    let new_views = attribute_views(unique@);
                    assert(new_views =~= old_views.push(attr@));
                    assert(new_views.drop_last() =~= old_views);
                }
            },
        }
    }
    assert(all.take(all.len() as int) =~= all);
    unique
}

} // verus!
