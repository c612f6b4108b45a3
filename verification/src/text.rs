use vstd::prelude::*;

verus! {

/// Whether `c` has the Unicode property `White_Space`, as `char::is_whitespace` reports
/// it.
pub uninterp spec fn is_white_space(c: char) -> bool;

/// Whether every character of a text is white space. The empty text is blank.
pub open spec fn is_blank(s: Seq<char>) -> bool {
    forall|i: int| 0 <= i < s.len() ==> is_white_space(#[trigger] s[i])
}

/// Calls `char::is_whitespace` of std. The result is, by definition, `is_white_space(c)`.
#[verifier::external_body]
pub(crate) fn char_is_whitespace(c: char) -> (b: bool)
    ensures
        b == is_white_space(c),
{
    c.is_whitespace()
}

/// The lower case form of a string, as `str::to_lowercase` gives it.
pub uninterp spec fn lowercase(s: Seq<char>) -> Seq<char>;

/// Calls `str::to_lowercase` of std. The result is, by definition, `lowercase` of the
/// argument.
#[verifier::external_body]
pub(crate) fn to_lowercase(s: &str) -> (lower: String)
    ensures
        lower@ == lowercase(s@),
{
    s.to_lowercase()
}

/// Whether `needle` stands somewhere in `hay` as a run of neighbouring characters.
pub open spec fn is_substring(needle: Seq<char>, hay: Seq<char>) -> bool {
    exists|i: int|
        0 <= i && i + needle.len() <= hay.len() && #[trigger] hay.subrange(
            i,
            i + needle.len(),
        ) == needle
}

/// Checks whether a string contains only white space.
pub fn is_string_effectively_empty(s: &str) -> (b: bool)
    ensures
        b == is_blank(s@),
{
    let mut blank = true;
    for c in it: s.chars()
        invariant
            it.seq() == s@,
            blank == is_blank(s@.take(it.index())),
    {
        proof {
            let n = it.index();
            assert(s@.take(n + 1) =~= s@.take(n).push(c));
            assert(s@.take(n + 1)[n] == c);
        }
        if !char_is_whitespace(c) {
            blank = false;
        }
    }
    assert(s@.take(s@.len() as int) =~= s@);
    blank
}

/// A text without the white space at its start.
pub open spec fn trimmed_start(s: Seq<char>) -> Seq<char>
    decreases s.len(),
{
    if s.len() > 0 && is_white_space(s.first()) {
        trimmed_start(s.drop_first())
    } else {
        s
    }
}

/// A text without the white space at its end.
pub open spec fn trimmed_end(s: Seq<char>) -> Seq<char>
    decreases s.len(),
{
    if s.len() > 0 && is_white_space(s.last()) {
        trimmed_end(s.drop_last())
    } else {
        s
    }
}

/// A text without the white space at its start and at its end.
pub open spec fn trimmed(s: Seq<char>) -> Seq<char> {
    trimmed_end(trimmed_start(s))
}

/// Calls `str::trim` of std, which gives the text without its leading and trailing white
/// space.
#[verifier::external_body]
pub(crate) fn trim(s: &str) -> (inner: &str)
    ensures
        inner@ == trimmed(s@),
{
    s.trim()
}

/// Calls `==` of std on two string slices, which holds exactly when they have the same
/// characters.
#[verifier::external_body]
pub(crate) fn same_text(a: &str, b: &str) -> (same: bool)
    ensures
        same == (a@ == b@),
{
    a == b
}

/// Calls `String::push` of std, which appends one character.
#[verifier::external_body]
pub(crate) fn push_char(s: &mut String, c: char)
    ensures
        final(s)@ == old(s)@.push(c),
{
    s.push(c)
}

/// The views of a sequence of string slices, one for one.
pub open spec fn text_views(names: Seq<&str>) -> Seq<Seq<char>> {
    names.map_values(|s: &str| s@)
}

/// Checks whether `name` is one of `names`.
pub fn name_in_list(names: &[&str], name: &str) -> (found: bool)
    ensures
        found == text_views(names@).contains(name@),
{
    let mut i: usize = 0;
    while i < names.len()
        invariant
            i <= names.len(),
            forall|j: int| 0 <= j < i ==> text_views(names@)[j] != name@,
        decreases names.len() - i,
    {
        if same_text(names[i], name) {
            assert(text_views(names@)[i as int] == name@);
            return true;
        }
        i += 1;
    }
    false
}

/// The characters of a string, one by one.
pub fn chars_of(s: &str) -> (chars: Vec<char>)
    ensures
        chars@ == s@,
{
    let mut chars: Vec<char> = Vec::new();
    for c in it: s.chars()
        invariant
            it.seq() == s@,
            chars@ == s@.take(it.index()),
    {
        proof {
            let n = it.index();
            assert(s@.take(n + 1) =~= s@.take(n).push(c));
        }
        chars.push(c);
    }
    assert(s@.take(s@.len() as int) =~= s@);
    chars
}

/// Checks whether `needle` stands in `hay` at position `at`.
fn matches_at(hay: &Vec<char>, needle: &Vec<char>, at: usize) -> (same: bool)
    requires
        at + needle.len() <= hay.len(),
    ensures
        same == (hay@.subrange(at as int, at + needle.len()) == needle@),
{
    let mut j: usize = 0;
    while j < needle.len()
        invariant
            j <= needle.len(),
            at + needle.len() <= hay.len(),
            forall|k: int| 0 <= k < j ==> hay@[at + k] == needle@[k],
        decreases needle.len() - j,
    {
        if hay[at + j] != needle[j] {
            assert(hay@.subrange(at as int, at + needle.len())[j as int] != needle@[j as int]);
            return false;
        }
        j += 1;
    }
    assert(hay@.subrange(at as int, at + needle.len()) =~= needle@);
    true
}

/// Checks whether `needle` stands somewhere in `hay`.
pub fn contains_text(hay: &Vec<char>, needle: &Vec<char>) -> (found: bool)
    ensures
        found == is_substring(needle@, hay@),
{
    if needle.len() > hay.len() {
        return false;
    }
    let last: usize = hay.len() - needle.len();
    let mut at: usize = 0;
    while at < last
        invariant
            at <= last,
            last == hay.len() - needle.len(),
            needle.len() <= hay.len(),
            forall|i: int| 0 <= i < at ==> #[trigger] hay@.subrange(i, i + needle.len()) != needle@,
        decreases last - at,
    {
        if matches_at(hay, needle, at) {
            return true;
        }
        at += 1;
    }
    matches_at(hay, needle, last)
}

} // verus!
