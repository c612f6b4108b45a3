use crate::error::Error;
use crate::text::{char_is_whitespace, chars_of, is_blank, is_white_space, push_char};
use vstd::prelude::*;

verus! {

/// How many characters stand before the first line feed of `s`, or in all of `s` when it
/// holds no line feed.
pub open spec fn first_line_len(s: Seq<char>) -> nat
    decreases s.len(),
{
    if s.len() == 0 || s[0] == '\n' {
        0
    } else {
        1 + first_line_len(s.drop_first())
    }
}

/// A line without the carriage return that stood before its line feed, if one did.
pub open spec fn without_carriage_return(line: Seq<char>) -> Seq<char> {
    if line.len() > 0 && line.last() == '\r' {
        line.drop_last()
    } else {
        line
    }
}

/// The lines of a text. A line ends at a line feed, or at a carriage return followed by a
/// line feed; the ending is not part of the line. The last line needs no ending, and a
/// text that ends in a line ending has no empty line after it.
pub open spec fn lines(s: Seq<char>) -> Seq<Seq<char>>
    decreases s.len(),
{
    let n = first_line_len(s);
    if s.len() == 0 {
        Seq::empty()
    } else if n >= s.len() {
        seq![s]
    } else {
        seq![without_carriage_return(s.take(n as int))] + lines(s.skip(n as int + 1))
    }
}

/// The lines put together again, with one line feed between each two.
pub open spec fn join_lines(lines: Seq<Seq<char>>) -> Seq<char>
    decreases lines.len(),
{
    if lines.len() == 0 {
        Seq::empty()
    } else if lines.len() == 1 {
        lines[0]
    } else {
        join_lines(lines.drop_last()) + seq!['\n'] + lines.last()
    }
}

/// The lines that hold something besides white space, in their old order.
pub open spec fn kept_lines(lines: Seq<Seq<char>>) -> Seq<Seq<char>> {
    lines.filter(|line: Seq<char>| !is_blank(line))
}

/// A text without its blank lines: the lines that hold something besides white space, in
/// their old order and unchanged, with one line feed between each two.
pub open spec fn compact_lines(s: Seq<char>) -> Seq<char> {
    join_lines(kept_lines(lines(s)))
}

/// Where no line feed stands among the first `n` characters of `s`, and the text ends or
/// a line feed stands right after them, the first line of `s` has `n` characters.
pub proof fn lemma_first_line_len(s: Seq<char>, n: nat)
    requires
        n <= s.len(),
        forall|j: int| 0 <= j < n ==> s[j] != '\n',
        n == s.len() || s[n as int] == '\n',
    ensures
        first_line_len(s) == n,
    decreases n,
{
    if n > 0 {
        lemma_first_line_len(s.drop_first(), (n - 1) as nat);
    }
}

/// Checks whether the first `n` characters of `line` are all white space.
fn is_blank_prefix(line: &Vec<char>, n: usize) -> (blank: bool)
    requires
        n <= line.len(),
    ensures
        blank == is_blank(line@.take(n as int)),
{
    let mut i: usize = 0;
    while i < n
        invariant
            i <= n <= line.len(),
            forall|j: int| 0 <= j < i ==> is_white_space(line@[j]),
        decreases n - i,
    {
        if !char_is_whitespace(line[i]) {
            assert(line@.take(n as int)[i as int] == line@[i as int]);
            return false;
        }
        i += 1;
    }
    true
}

/// Ends a line: where its first `n` characters are not blank, they are written to `output`
/// after a line feed, or without one when they are the first line there.
fn write_line(line: &Vec<char>, n: usize, output: &mut String, Ghost(kept): Ghost<Seq<Seq<char>>>)
    requires
        n <= line.len(),
        old(output)@ == join_lines(kept),
        forall|k: int| 0 <= k < kept.len() ==> (#[trigger] kept[k]).len() > 0,
    ensures
        final(output)@ == join_lines(
            if is_blank(line@.take(n as int)) {
                kept
            } else {
                kept.push(line@.take(n as int))
            },
        ),
{
    if is_blank_prefix(line, n) {
        return ;
    }
    let ghost text = line@.take(n as int);
    proof {
        lemma_joined_is_empty(kept);
        assert(kept.push(text).drop_last() =~= kept);
    }
    if !output.as_str().is_empty() {
        push_char(output, '\n');
    }
    let ghost start = output@;
    let mut i: usize = 0;
    while i < n
        invariant
            i <= n <= line.len(),
            output@ == start + line@.take(i as int),
        decreases n - i,
    {
        push_char(output, line[i]);
        assert(line@.take(i + 1) =~= line@.take(i as int).push(line@[i as int]));
        i += 1;
    }
}

/// Lines that all hold something join to the empty text only when there is none.
pub proof fn lemma_joined_is_empty(kept: Seq<Seq<char>>)
    requires
        forall|k: int| 0 <= k < kept.len() ==> (#[trigger] kept[k]).len() > 0,
    ensures
        join_lines(kept).len() == 0 <==> kept.len() == 0,
{
}

/// Removes the blank lines of a text and joins the others with single line feeds.
pub fn remove_empty_lines(content: String) -> (result: Result<String, Error>)
    ensures
        result matches Ok(text) && text@ == compact_lines(content@),
{
    let chars = chars_of(content.as_str());
    let ghost s = chars@;
    let mut output = String::new();
    let mut line: Vec<char> = Vec::new();
    let ghost mut done: Seq<Seq<char>> = Seq::empty();
    let ghost mut start: int = 0;
    let mut i: usize = 0;
    assert(s.skip(0) =~= s);
    while i < chars.len()
        invariant
            i <= chars.len(),
            s == chars@,
            0 <= start <= i,
            line@ == s.subrange(start, i as int),
            forall|j: int| start <= j < i ==> s[j] != '\n',
            lines(s) == done + lines(s.skip(start)),
            output@ == join_lines(kept_lines(done)),
        decreases chars.len() - i,
    {
        let c = chars[i];
        if c == '\n' {
            let n = if line.len() > 0 && line[line.len() - 1] == '\r' {
                line.len() - 1
            } else {
                line.len()
            };
            proof {
                let rest = s.skip(start);
                lemma_first_line_len(rest, (i - start) as nat);
                assert(rest.take(i - start) =~= line@);
                assert(rest.skip(i - start + 1) =~= s.skip(i + 1));
                assert(line@.take(n as int) =~= without_carriage_return(line@));
                let ended = line@.take(n as int);
                assert(lines(rest) == seq![ended] + lines(s.skip(i + 1)));
                assert(done + (seq![ended] + lines(s.skip(i + 1))) =~= done.push(ended) + lines(
                    s.skip(i + 1),
                ));
                lemma_filter_push(done, ended);
                lemma_kept_lines_hold_something(done);
            }
            write_line(&line, n, &mut output, Ghost(kept_lines(done)));
            proof {
                done = done.push(line@.take(n as int));
                start = i + 1;
            }
            line = Vec::new();
            assert(line@ =~= s.subrange(start, i + 1));
        } else {
            line.push(c);
            assert(line@ =~= s.subrange(start, i + 1));
        }
        i += 1;
    }
    proof {
        let rest = s.skip(start);
        lemma_first_line_len(rest, rest.len());
        assert(rest =~= line@);
        assert(line@.take(line@.len() as int) =~= line@);
        lemma_kept_lines_hold_something(done);
        if rest.len() == 0 {
            assert(done + lines(rest) =~= done);
            assert(is_blank(line@));
        } else {
            assert(done + lines(rest) =~= done.push(rest));
            lemma_filter_push(done, rest);
        }
    }
    write_line(&line, line.len(), &mut output, Ghost(kept_lines(done)));
    Ok(output)
}

/// The kept lines after one more line: the line joins them exactly when it is not blank.
pub proof fn lemma_filter_push(done: Seq<Seq<char>>, line: Seq<char>)
    ensures
        kept_lines(done.push(line)) == if is_blank(line) {
            kept_lines(done)
        } else {
            kept_lines(done).push(line)
        },
{
    reveal(Seq::filter);
    assert(done.push(line).drop_last() =~= done);
}

/// A line that is not blank holds at least one character.
pub proof fn lemma_kept_lines_hold_something(done: Seq<Seq<char>>)
    ensures
        forall|k: int|
            0 <= k < kept_lines(done).len() ==> (#[trigger] kept_lines(done)[k]).len() > 0,
{
    let kept = kept_lines(done);
    assert forall|k: int| 0 <= k < kept.len() implies (#[trigger] kept[k]).len() > 0 by {
        done.lemma_filter_pred(|l: Seq<char>| !is_blank(l), k);
    }
}

} // verus!
