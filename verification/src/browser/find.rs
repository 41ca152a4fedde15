//! Lines of a text, and finding a text in them.

use crate::content::texts;
use crate::text::{head, index_of, lemma_index_of, split_first, strip_last, tail, without_last};
use vstd::prelude::*;
use vstd::string::*;

verus! {

/// The text in lower case, as `str::to_lowercase` makes it.
pub uninterp spec fn lowered(s: Seq<char>) -> Seq<char>;

/// `str::to_lowercase`: the text in lower case; it depends on the text alone.
#[verifier::external_body]
pub(crate) fn lowercase(s: &str) -> (out: String)
    ensures
        out@ == lowered(s@),
{
    s.to_lowercase()
}

/// The lines of a text: each newline ends one, with a carriage return before
/// it; what stands behind the last newline is a line where there is anything.
pub open spec fn lines_of(s: Seq<char>) -> Seq<Seq<char>>
    decreases s.len(),
{
    if s.len() == 0 {
        Seq::empty()
    } else if index_of(s, '\n') >= s.len() {
        seq![s]
    } else {
        seq![strip_last(head(s, '\n'), '\r')] + lines_of(tail(s, '\n'))
    }
}

/// The lines of a text.
pub fn split_lines(s: &str) -> (out: Vec<String>)
    ensures
        texts(out@) == lines_of(s@),
{
    let mut out: Vec<String> = Vec::new();
    let mut rest: &str = s;
    assert(texts(out@) =~= Seq::empty());
    while rest.unicode_len() > 0
        invariant
            texts(out@) + lines_of(rest@) == lines_of(s@),
        decreases rest@.len(),
    {
        let n = rest.unicode_len();
        let (first, later) = split_first(rest, '\n');
        let ghost before = texts(out@);
        proof {
            lemma_index_of(rest@, '\n');
        }
        if first.unicode_len() == n {
            proof {
                assert(rest@.take(n as int) =~= rest@);
            }
            out.push(rest.to_owned());
            proof {
                assert(texts(out@) =~= before.push(rest@));
                assert(texts(out@) =~= before + seq![rest@]);
            }
            return out;
        }
        out.push(without_last(first, '\r').to_owned());
        proof {
            let line = strip_last(first@, '\r');
            assert(texts(out@) =~= before.push(line));
            assert(before.push(line) + lines_of(later@) =~= before + (seq![line] + lines_of(later@)));
        }
        rest = later;
    }
    assert(texts(out@) + Seq::<Seq<char>>::empty() =~= texts(out@));
    out
}

/// A text stands in another.
pub open spec fn stands_in(part: Seq<char>, s: Seq<char>) -> bool {
    exists|i: int|
        0 <= i <= s.len() - part.len() && #[trigger] s.subrange(i, i + part.len()) == part
}

/// Whether a text stands in another.
pub fn holds_text(s: &Vec<char>, part: &Vec<char>) -> (yes: bool)
    ensures
        yes == stands_in(part@, s@),
{
    if part.len() > s.len() {
        return false;
    }
    let total: usize = s.len();
    let last = total - part.len();
    let mut i: usize = 0;
    while i <= last
        invariant
            i <= last + 1,
            total == s@.len(),
            last == total - part@.len(),
            forall|j: int|
                0 <= j < i ==> #[trigger] s@.subrange(j, j + part@.len()) != part@,
        decreases last + 1 - i,
    {
        let mut k: usize = 0;
        while k < part.len() && s[i + k] == part[k]
            invariant
                k <= part@.len(),
                i <= last,
                total == s@.len(),
                last == total - part@.len(),
                forall|j: int| 0 <= j < k ==> s@[i + j] == #[trigger] part@[j],
            decreases part@.len() - k,
        {
            k = k + 1;
        }
        if k == part.len() {
            assert(s@.subrange(i as int, i + part@.len()) =~= part@);
            return true;
        }
        assert(s@.subrange(i as int, i + part@.len())[k as int] != part@[k as int]);
        if i == last {
            return false;
        }
        i = i + 1;
    }
    false
}

/// The positions of the lines in which a query stands, whatever its case;
/// none for an empty query.
pub open spec fn matching(lines: Seq<Seq<char>>, query: Seq<char>) -> Seq<usize>
    decreases lines.len(),
{
    if query.len() == 0 || lowered(query).len() == 0 || lines.len() == 0 {
        Seq::empty()
    } else {
        let before = matching(lines.drop_last(), query);
        if stands_in(lowered(query), lowered(lines.last())) {
            before.push((lines.len() - 1) as usize)
        } else {
            before
        }
    }
}

/// The positions of the lines in which a query stands.
pub fn find_lines(lines: &Vec<String>, query: &str) -> (out: Vec<usize>)
    ensures
        out@ == matching(texts(lines@), query@),
{
    let mut out: Vec<usize> = Vec::new();
    let ghost all = texts(lines@);
    if query.unicode_len() == 0 {
        return out;
    }
    let q = crate::text::chars_of(lowercase(query).as_str());
    if q.len() == 0 {
        return out;
    }
    let mut i: usize = 0;
    assert(all.take(0) =~= Seq::empty());
    while i < lines.len()
        invariant
            i <= lines@.len(),
            all == texts(lines@),
            query@.len() > 0,
            q@ == lowered(query@),
            q@.len() > 0,
            out@ == matching(all.take(i as int), query@),
        decreases lines@.len() - i,
    {
        proof {
            assert(all.take(i + 1).drop_last() =~= all.take(i as int));
            assert(all.take(i + 1).last() == lines@[i as int]@);
        }
        let line = crate::text::chars_of(lowercase(lines[i].as_str()).as_str());
        if holds_text(&line, &q) {
            out.push(i);
        }
        i = i + 1;
    }
    assert(all.take(i as int) =~= all);
    out
}

/// The positions that a query matches go up, and each is that of a line.
pub proof fn law_matches_are_lines(lines: Seq<Seq<char>>, query: Seq<char>)
    requires
        lines.len() <= usize::MAX,
    ensures
        forall|i: int| 0 <= i < matching(lines, query).len() ==> #[trigger] matching(lines, query)[i]
            < lines.len(),
        forall|i: int, j: int|
            0 <= i < j < matching(lines, query).len() ==> #[trigger] matching(lines, query)[i]
                < #[trigger] matching(lines, query)[j],
        query.len() == 0 ==> matching(lines, query).len() == 0,
    decreases lines.len(),
{
    if lines.len() > 0 {
        law_matches_are_lines(lines.drop_last(), query);
        let before = matching(lines.drop_last(), query);
        let all = matching(lines, query);
        assert forall|i: int| 0 <= i < all.len() implies #[trigger] all[i] < lines.len() && (i
            < before.len() ==> all[i] == before[i]) by {
            if i < before.len() {
                assert(before[i] < lines.len() - 1);
            }
        }
        assert forall|i: int, j: int| 0 <= i < j < all.len() implies #[trigger] all[i]
            < #[trigger] all[j] by {
            if j < before.len() {
                assert(before[i] < before[j]);
            } else {
                assert(before[i] < lines.len() - 1);
            }
        }
    }
}

/// A line is among the matches exactly where the query stands in it, case
/// aside: for every line, wherever it is, and whatever the other lines hold.
pub proof fn law_every_matching_line_is_found(lines: Seq<Seq<char>>, query: Seq<char>, i: int)
    requires
        lines.len() <= usize::MAX,
        query.len() > 0,
        lowered(query).len() > 0,
        0 <= i < lines.len(),
    ensures
        matching(lines, query).contains(i as usize) <==> exists|k: int|
            0 <= k <= lowered(lines[i]).len() - lowered(query).len() && #[trigger] lowered(
                lines[i],
            ).subrange(k, k + lowered(query).len()) == lowered(query),
    decreases lines.len(),
{
    law_matches_are_lines(lines, query);
    let all = matching(lines, query);
    let front = lines.drop_last();
    let before = matching(front, query);
    law_matches_are_lines(front, query);
    if i < front.len() {
        law_every_matching_line_is_found(front, query, i);
        assert(front[i] == lines[i]);
        if all.contains(i as usize) {
            let k = all.index_of(i as usize);
            assert(k < before.len());
            assert(before[k] == i as usize);
        }
        if before.contains(i as usize) {
            let k = before.index_of(i as usize);
            assert(all[k] == i as usize);
        }
    } else {
        assert(lines[i] == lines.last());
        assert(!before.contains(i as usize)) by {
            if before.contains(i as usize) {
                let k = before.index_of(i as usize);
                assert(before[k] < front.len());
            }
        }
        if stands_in(lowered(query), lowered(lines.last())) {
            assert(all[all.len() - 1] == i as usize);
        }
    }
}

/// An empty query matches nothing, and lines added behind others neither add
/// nor take away matches among those.
pub proof fn law_matches_do_not_depend_on_later_lines(
    lines: Seq<Seq<char>>,
    later: Seq<Seq<char>>,
    query: Seq<char>,
)
    ensures
        query.len() == 0 || lowered(query).len() == 0 ==> matching(lines, query).len() == 0,
        matching(lines, query).len() <= matching(lines + later, query).len(),
        matching(lines + later, query).take(matching(lines, query).len() as int) == matching(
            lines,
            query,
        ),
    decreases later.len(),
{
    let all = matching(lines + later, query);
    let own = matching(lines, query);
    if later.len() == 0 {
        assert(lines + later =~= lines);
        assert(all.take(own.len() as int) =~= own);
    } else {
        law_matches_do_not_depend_on_later_lines(lines, later.drop_last(), query);
        assert((lines + later).drop_last() =~= lines + later.drop_last());
        let front = matching(lines + later.drop_last(), query);
        if query.len() > 0 && lowered(query).len() > 0 {
            assert(all.take(own.len() as int) =~= front.take(own.len() as int));
        } else {
            assert(all.take(own.len() as int) =~= own);
        }
    }
}

proof fn lemma_index_in_front(line: Seq<char>, rest: Seq<char>)
    requires
        forall|i: int| 0 <= i < line.len() ==> #[trigger] line[i] != '\n',
    ensures
        index_of(line.push('\n') + rest, '\n') == line.len(),
        index_of(line, '\n') == line.len(),
    decreases line.len(),
{
    let s = line.push('\n') + rest;
    if line.len() == 0 {
        assert(s[0] == '\n');
    } else {
        assert(line[0] != '\n');
        assert(s[0] == line[0]);
        assert forall|i: int| 0 <= i < line.skip(1).len() implies #[trigger] line.skip(1)[i]
            != '\n' by {
            assert(line.skip(1)[i] == line[i + 1]);
        }
        lemma_index_in_front(line.skip(1), rest);
        assert(s.skip(1) =~= line.skip(1).push('\n') + rest);
    }
}

/// A line ends at its newline, which is no part of it, nor is a carriage
/// return right before it; the text behind goes on with the next line. What
/// has no newline is one line, and nothing is none.
pub proof fn law_lines_end_at_newlines(line: Seq<char>, rest: Seq<char>)
    requires
        forall|i: int| 0 <= i < line.len() ==> #[trigger] line[i] != '\n',
    ensures
        lines_of(line.push('\n') + rest) == seq![
            if line.len() > 0 && line.last() == '\r' {
                line.drop_last()
            } else {
                line
            },
        ] + lines_of(rest),
        line.len() > 0 ==> lines_of(line) == seq![line],
        lines_of(Seq::empty()) == Seq::<Seq<char>>::empty(),
{
    lemma_index_in_front(line, rest);
    let s = line.push('\n') + rest;
    assert(head(s, '\n') =~= line);
    assert(tail(s, '\n') =~= rest);
}

} // verus!
