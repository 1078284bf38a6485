//! Splitting text on a separator and joining it back.

use vstd::prelude::*;
use vstd::string::*;

verus! {

/// The pieces of `s` that lie between occurrences of `sep`, in order. There
/// is always at least one piece; a separator at either end yields an empty
/// piece there.
pub open spec fn split(s: Seq<char>, sep: char) -> Seq<Seq<char>>
    decreases s.len(),
{
    if s.len() == 0 {
        seq![Seq::<char>::empty()]
    } else {
        let before = split(s.drop_last(), sep);
        if s.last() == sep {
            before.push(Seq::<char>::empty())
        } else {
            before.update(before.len() - 1, before.last().push(s.last()))
        }
    }
}

/// The pieces written one after another with `sep` between neighbours.
pub open spec fn join(pieces: Seq<Seq<char>>, sep: char) -> Seq<char>
    decreases pieces.len(),
{
    if pieces.len() == 0 {
        Seq::<char>::empty()
    } else if pieces.len() == 1 {
        pieces[0]
    } else {
        join(pieces.drop_last(), sep).push(sep) + pieces.last()
    }
}

/// `sep` does not occur in `s`.
pub open spec fn free_of(s: Seq<char>, sep: char) -> bool {
    forall|i: int| 0 <= i < s.len() ==> s[i] != sep
}

/// `sep` occurs in none of the pieces.
pub open spec fn all_free_of(pieces: Seq<Seq<char>>, sep: char) -> bool {
    forall|i: int| 0 <= i < pieces.len() ==> free_of(#[trigger] pieces[i], sep)
}

/// Splitting yields at least one piece, and no piece holds the separator.
pub proof fn lemma_split_pieces(s: Seq<char>, sep: char)
    ensures
        split(s, sep).len() >= 1,
        all_free_of(split(s, sep), sep),
    decreases s.len(),
{
    if s.len() > 0 {
        lemma_split_pieces(s.drop_last(), sep);
    }
}

/// Joining the pieces of a split gives the text back.
pub proof fn lemma_join_split(s: Seq<char>, sep: char)
    ensures
        join(split(s, sep), sep) == s,
    decreases s.len(),
{
    if s.len() == 0 {
        assert(join(split(s, sep), sep) =~= s);
    } else {
        let rest = s.drop_last();
        let before = split(rest, sep);
        lemma_split_pieces(rest, sep);
        lemma_join_split(rest, sep);
        if s.last() == sep {
            let after = before.push(Seq::<char>::empty());
            assert(after.drop_last() =~= before);
            assert(join(after, sep) =~= rest.push(sep));
        } else {
            let grown = before.last().push(s.last());
            let after = before.update(before.len() - 1, grown);
            if before.len() == 1 {
                assert(join(after, sep) =~= rest.push(s.last()));
            } else {
                assert(after.drop_last() =~= before.drop_last());
                assert(join(after, sep) =~= join(before, sep).push(s.last()));
            }
        }
        assert(rest.push(s.last()) =~= s);
    }
}

/// Text without a separator, written behind `s`, lengthens the last piece.
pub proof fn lemma_split_append(s: Seq<char>, tail: Seq<char>, sep: char)
    requires
        free_of(tail, sep),
    ensures
        split(s, sep).len() >= 1,
        split(s + tail, sep) == split(s, sep).update(
            split(s, sep).len() - 1,
            split(s, sep).last() + tail,
        ),
    decreases tail.len(),
{
    lemma_split_pieces(s, sep);
    let pieces = split(s, sep);
    if tail.len() == 0 {
        assert(s + tail =~= s);
        assert(pieces.last() + tail =~= pieces.last());
        assert(pieces.update(pieces.len() - 1, pieces.last()) =~= pieces);
    } else {
        let shorter = tail.drop_last();
        lemma_split_append(s, shorter, sep);
        assert((s + tail).drop_last() =~= s + shorter);
        assert((s + tail).last() == tail.last());
        assert((pieces.last() + shorter).push(tail.last()) =~= pieces.last() + tail);
        assert(split(s + tail, sep) =~= pieces.update(pieces.len() - 1, pieces.last() + tail));
    }
}

/// Splitting a join gives the pieces back, provided there is at least one
/// piece and none of them holds the separator.
pub proof fn lemma_split_join(pieces: Seq<Seq<char>>, sep: char)
    requires
        pieces.len() >= 1,
        all_free_of(pieces, sep),
    ensures
        split(join(pieces, sep), sep) == pieces,
    decreases pieces.len(),
{
    let empty = Seq::<char>::empty();
    if pieces.len() == 1 {
        lemma_split_append(empty, pieces[0], sep);
        assert(empty + pieces[0] =~= pieces[0]);
        assert(split(pieces[0], sep) =~= pieces);
    } else {
        let front = pieces.drop_last();
        assert(all_free_of(front, sep)) by {
            assert forall|i: int| 0 <= i < front.len() implies free_of(#[trigger] front[i], sep) by {
                assert(front[i] == pieces[i]);
            }
        }
        lemma_split_join(front, sep);
        let head = join(front, sep).push(sep);
        assert(head.drop_last() =~= join(front, sep));
        assert(split(head, sep) == front.push(empty));
        assert(free_of(pieces.last(), sep));
        lemma_split_append(head, pieces.last(), sep);
        assert(empty + pieces.last() =~= pieces.last());
        assert(split(head + pieces.last(), sep) =~= pieces);
    }
}

/// One more piece behind a join is the separator and the piece behind the
/// text.
pub proof fn lemma_join_push(pieces: Seq<Seq<char>>, piece: Seq<char>, sep: char)
    requires
        pieces.len() >= 1,
    ensures
        join(pieces.push(piece), sep) == join(pieces, sep).push(sep) + piece,
{
    assert(pieces.push(piece).drop_last() =~= pieces);
}

/// `String::push`: the text grows by exactly the given character at its end.
#[verifier::external_body]
pub(crate) fn push_char(s: &mut String, c: char)
    ensures
        final(s)@ == old(s)@.push(c),
{
    s.push(c)
}

/// Splits `text` on every occurrence of `sep`.
pub fn split_on(text: &str, sep: char) -> (pieces: Vec<String>)
    ensures
        pieces.deep_view() == split(text@, sep),
{
    let mut pieces: Vec<String> = Vec::new();
    let mut current = String::new();
    for c in it: text.chars()
        invariant
            it.seq() == text@,
            split(text@.take(it.index() as int), sep) == pieces.deep_view().push(current@),
    {
        let ghost done = pieces.deep_view();
        let ghost seen = text@.take(it.index() as int);
        proof {
            assert(text@.take(it.index() + 1).drop_last() =~= seen);
        }
        if c == sep {
            pieces.push(current);
            current = String::new();
            proof {
                assert(pieces.deep_view() =~= done.push(split(seen, sep).last()));
            }
        } else {
            push_char(&mut current, c);
            proof {
                assert(done.push(split(seen, sep).last().push(c)) =~= split(seen, sep).update(
                    split(seen, sep).len() - 1,
                    split(seen, sep).last().push(c),
                ));
            }
        }
    }
    proof {
        assert(text@.take(text@.len() as int) =~= text@);
    }
    pieces.push(current);
    proof {
        assert(pieces.deep_view() =~= split(text@, sep));
    }
    pieces
}

/// Whether `c` occurs in `text`.
pub fn contains_char(text: &str, c: char) -> (r: bool)
    ensures
        r == !free_of(text@, c),
{
    for x in it: text.chars()
        invariant
            it.seq() == text@,
            free_of(text@.take(it.index() as int), c),
    {
        if x == c {
            proof {
                assert(text@[it.index() as int] == c);
            }
            return true;
        }
        proof {
            let seen = text@.take(it.index() + 1);
            assert forall|i: int| 0 <= i < seen.len() implies seen[i] != c by {
                if i < it.index() {
                    assert(text@.take(it.index() as int)[i] == seen[i]);
                }
            }
        }
    }
    proof {
        assert(text@.take(text@.len() as int) =~= text@);
    }
    false
}

/// A line without the carriage return that may end it.
pub open spec fn strip_cr(line: Seq<char>) -> Seq<char> {
    if line.len() > 0 && line.last() == '\r' {
        line.drop_last()
    } else {
        line
    }
}

/// The lines of a text. A line ends at a line feed, or at a carriage return
/// directly before one; neither belongs to the line. What follows the last
/// line feed is a line of its own unless it is empty, and keeps a carriage
/// return at its end.
pub open spec fn lines_of(text: Seq<char>) -> Seq<Seq<char>> {
    let raw = split(text, '\n');
    let ended = Seq::new((raw.len() - 1) as nat, |i: int| strip_cr(raw[i]));
    if raw.last().len() > 0 {
        ended.push(raw.last())
    } else {
        ended
    }
}

/// Cuts a text into its lines.
pub fn lines(text: &str) -> (r: Vec<String>)
    ensures
        r.deep_view() == lines_of(text@),
{
    let raw = split_on(text, '\n');
    proof {
        lemma_split_pieces(text@, '\n');
    }
    let ghost pieces = raw.deep_view();
    let n = raw.len();
    let mut out: Vec<String> = Vec::new();
    let mut i: usize = 0;
    while i + 1 < n
        invariant
            n == raw.len(),
            n >= 1,
            i + 1 <= n,
            pieces == raw.deep_view(),
            out.deep_view() == Seq::new(i as nat, |j: int| strip_cr(pieces[j])),
        decreases n - i,
    {
        let line = raw[i].as_str();
        let len = line.unicode_len();
        let ghost before = out.deep_view();
        if len > 0 && line.get_char(len - 1) == '\r' {
            out.push(line.substring_char(0, len - 1).to_owned());
            proof {
                assert(line@.subrange(0, len - 1) =~= line@.drop_last());
            }
        } else {
            out.push(line.to_owned());
        }
        proof {
            assert(pieces[i as int] == line@);
            assert(out.deep_view() =~= before.push(strip_cr(line@)));
            assert(out.deep_view() =~= Seq::new((i + 1) as nat, |j: int| strip_cr(pieces[j])));
        }
        i += 1;
    }
    let last = raw[n - 1].as_str();
    if !last.is_empty() {
        let ghost before = out.deep_view();
        out.push(last.to_owned());
        proof {
            assert(pieces[n - 1] == last@);
            assert(out.deep_view() =~= before.push(last@));
        }
    }
    out
}

} // verus!
