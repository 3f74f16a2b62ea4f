//! Lines of text.

use crate::model::Text;
use crate::rows::rows;
use crate::text::chars_of;
use vstd::prelude::*;
use vstd::string::*;

verus! {

/// Texts, each on a line of its own.
pub open spec fn joined(v: Seq<Text>) -> Text
    decreases v.len(),
{
    if v.len() == 0 {
        Seq::empty()
    } else {
        v[0] + seq!['\n'] + joined(v.skip(1))
    }
}

/// How many characters stand before the first line break from `i` on, or before the end.
pub open spec fn break_from(s: Text, i: int) -> int
    decreases s.len() - i,
{
    if i < 0 || i >= s.len() || s[i] == '\n' {
        i
    } else {
        break_from(s, i + 1)
    }
}

/// A line without a carriage return at its end.
pub open spec fn trimmed(s: Text) -> Text {
    if s.len() > 0 && s.last() == '\r' {
        s.drop_last()
    } else {
        s
    }
}

/// The lines of a text from `i` on. A line break ends a line; what follows the last one
/// is a line where it is not empty.
pub open spec fn lines_from(s: Text, i: int) -> Seq<Text>
    decreases s.len() - i,
    when 0 <= i
{
    if i >= s.len() {
        Seq::empty()
    } else {
        let b = break_from(s, i);
        if i <= b < s.len() {
            seq![trimmed(s.subrange(i, b))] + lines_from(s, b + 1)
        } else {
            seq![trimmed(s.subrange(i, s.len() as int))]
        }
    }
}

/// The lines of a text.
pub open spec fn text_lines(s: Text) -> Seq<Text> {
    lines_from(s, 0)
}

/// Splits a text into its lines.
pub fn split_lines(text: &str) -> (r: Vec<String>)
    ensures
        rows(r@) == text_lines(text@),
{
    let cs = chars_of(text);
    let ghost s = text@;
    let mut out: Vec<String> = Vec::new();
    let mut at: usize = 0;
    assert(rows(out@) + lines_from(s, 0) =~= lines_from(s, 0));
    while at < cs.len()
        invariant
            at <= cs@.len(),
            cs@ == s,
            rows(out@) + lines_from(s, at as int) == text_lines(s),
        decreases cs@.len() - at,
    {
        let mut b: usize = at;
        while b < cs.len() && cs[b] != '\n'
            invariant
                at <= b <= cs@.len(),
                cs@ == s,
                break_from(s, at as int) == break_from(s, b as int),
            ensures
                b == break_from(s, at as int),
            decreases cs@.len() - b,
        {
            b += 1;
        }
        let end: usize = if b > at && cs[b - 1] == '\r' {
            b - 1
        } else {
            b
        };
        let line = text_between(&cs, at, end);
        let ghost had = rows(out@);
        let ghost rest = lines_from(s, at as int);
        proof {
            let whole = s.subrange(at as int, b as int);
            if b > at {
                assert(whole.last() == s[b - 1]);
                assert(whole.drop_last() =~= s.subrange(at as int, b - 1));
            }
            assert(line@ == trimmed(whole));
            assert(rest.len() > 0 && rest[0] == trimmed(whole));
            assert(rest =~= seq![trimmed(whole)] + rest.skip(1));
        }
        out.push(line);
        at = if b < cs.len() {
            b + 1
        } else {
            b
        };
        proof {
            assert(rows(out@) =~= had.push(line@));
            assert(lines_from(s, at as int) =~= rest.skip(1));
            assert(rows(out@) + lines_from(s, at as int) =~= had + rest);
        }
    }
    assert(rows(out@) =~= rows(out@) + lines_from(s, at as int));
    out
}

/// Trusted: `std::string::String::push` appends the given character to the end.
pub assume_specification[ std::string::String::push ](s: &mut String, ch: char)
    ensures
        final(s)@ == old(s)@.push(ch),
;

fn text_between(cs: &Vec<char>, from: usize, to: usize) -> (r: String)
    requires
        from <= to <= cs@.len(),
    ensures
        r@ == cs@.subrange(from as int, to as int),
{
    let mut out = String::new();
    let mut i: usize = from;
    assert(out@ =~= cs@.subrange(from as int, from as int));
    while i < to
        invariant
            from <= i <= to <= cs@.len(),
            out@ == cs@.subrange(from as int, i as int),
        decreases to - i,
    {
        out.push(cs[i]);
        i += 1;
        assert(out@ =~= cs@.subrange(from as int, i as int));
    }
    out
}

/// A text on one line.
pub open spec fn one_line(s: Text) -> bool {
    !s.contains('\n') && !s.contains('\r')
}

proof fn lemma_break_behind(front: Text, line: Text, rest: Text, i: int)
    requires
        front.len() <= i <= front.len() + line.len(),
        one_line(line),
    ensures
        break_from(front + line + seq!['\n'] + rest, i) == front.len() + line.len(),
    decreases front.len() + line.len() - i,
{
    let s = front + line + seq!['\n'] + rest;
    if i < front.len() + line.len() {
        assert(s[i] == line[i - front.len()]);
        assert(line.contains(s[i]));
        lemma_break_behind(front, line, rest, i + 1);
    } else {
        assert(s[i] == '\n');
    }
}

proof fn lemma_lines_behind(front: Text, v: Seq<Text>)
    requires
        forall|i: int| 0 <= i < v.len() ==> one_line(#[trigger] v[i]),
    ensures
        lines_from(front + joined(v), front.len() as int) == v,
    decreases v.len(),
{
    let s = front + joined(v);
    if v.len() > 0 {
        let line = v[0];
        let rest = v.skip(1);
        let next = front + line + seq!['\n'];
        assert forall|i: int| 0 <= i < rest.len() implies one_line(#[trigger] rest[i]) by {
            assert(rest[i] == v[i + 1]);
        }
        assert(s =~= front + line + seq!['\n'] + joined(rest));
        lemma_break_behind(front, line, joined(rest), front.len() as int);
        let b = front.len() + line.len();
        assert(s.subrange(front.len() as int, b as int) =~= line);
        assert(trimmed(line) == line) by {
            if line.len() > 0 && line.last() == '\r' {
                assert(line.contains(line[line.len() - 1]));
            }
        }
        lemma_lines_behind(next, rest);
        assert(v =~= seq![line] + rest);
    } else {
        assert(s =~= front);
    }
}

/// Splitting texts that were written line by line gives them back.
pub proof fn law_lines_read_back(v: Seq<Text>)
    requires
        forall|i: int| 0 <= i < v.len() ==> one_line(#[trigger] v[i]),
    ensures
        text_lines(joined(v)) == v,
{
    assert(Seq::<char>::empty() + joined(v) =~= joined(v));
    lemma_lines_behind(Seq::empty(), v);
}

/// One more line behind others.
pub proof fn lemma_joined_push(v: Seq<Text>, line: Text)
    ensures
        joined(v.push(line)) == joined(v) + line + seq!['\n'],
    decreases v.len(),
{
    if v.len() == 0 {
        assert(v.push(line).skip(1) =~= Seq::<Text>::empty());
        assert(joined(v.push(line).skip(1)) =~= Seq::<char>::empty());
        assert(v.push(line)[0] == line);
        assert(joined(v.push(line)) =~= joined(v) + line + seq!['\n']);
    } else {
        lemma_joined_push(v.skip(1), line);
        assert(v.push(line).skip(1) =~= v.skip(1).push(line));
        assert(joined(v.push(line)) =~= joined(v) + line + seq!['\n']);
    }
}

} // verus!
