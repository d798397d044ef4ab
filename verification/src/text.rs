//! Character-level text operations used by the entry, address and command
//! formats: splitting on a separator, dropping a character, whitespace words.

use vstd::prelude::*;
use vstd::string::*;

verus! {

/// `String::push`: appends one character.
#[verifier::external_body]
pub(crate) fn push_char(s: &mut String, c: char)
    ensures
        final(s)@ == old(s)@.push(c),
{
    s.push(c);
}

/// The views of a sequence of strings.
pub open spec fn views(v: Seq<String>) -> Seq<Seq<char>> {
    Seq::new(v.len(), |i: int| v[i]@)
}

/// The pieces of `s` between occurrences of `sep`, as `str::split` yields
/// them: one piece more than there are separators, empty pieces kept.
pub open spec fn split_seq(s: Seq<char>, sep: char) -> Seq<Seq<char>>
    decreases s.len(),
{
    if s.len() == 0 {
        seq![Seq::<char>::empty()]
    } else {
        let prev = split_seq(s.drop_last(), sep);
        if s.last() == sep {
            prev.push(Seq::<char>::empty())
        } else {
            prev.update(prev.len() - 1, prev.last().push(s.last()))
        }
    }
}

/// Splitting always yields at least one piece.
pub proof fn lemma_split_nonempty(s: Seq<char>, sep: char)
    ensures
        split_seq(s, sep).len() >= 1,
    decreases s.len(),
{
    if s.len() > 0 {
        lemma_split_nonempty(s.drop_last(), sep);
    }
}

/// Splits `s` on every occurrence of `sep`.
pub fn split_chars(s: &str, sep: char) -> (pieces: Vec<String>)
    ensures
        views(pieces@) == split_seq(s@, sep),
{
    let n = s.unicode_len();
    let mut pieces: Vec<String> = Vec::new();
    let mut cur = String::new();
    let mut i: usize = 0;
    assert(s@.take(0) =~= Seq::<char>::empty());
    assert(views(pieces@).push(cur@) =~= split_seq(s@.take(0), sep));
    while i < n
        invariant
            n == s@.len(),
            i <= n,
            views(pieces@).push(cur@) == split_seq(s@.take(i as int), sep),
        decreases n - i,
    {
        let c = s.get_char(i);
        let ghost before = pieces@;
        let ghost cur_before = cur@;
        proof {
            lemma_split_nonempty(s@.take(i as int), sep);
            assert(s@.take(i + 1).drop_last() =~= s@.take(i as int));
        }
        if c == sep {
            pieces.push(cur);
            cur = String::new();
            assert(views(pieces@) =~= views(before).push(cur_before));
        } else {
            push_char(&mut cur, c);
            assert(views(pieces@) =~= views(before));
        }
        i += 1;
        assert(views(pieces@).push(cur@) =~= split_seq(s@.take(i as int), sep));
    }
    let ghost before = pieces@;
    let ghost last = cur@;
    pieces.push(cur);
    assert(s@.take(n as int) =~= s@);
    assert(views(pieces@) =~= views(before).push(last));
    pieces
}

/// Splitting at a separator placed between two strings splits each side on
/// its own.
pub proof fn lemma_split_concat(a: Seq<char>, b: Seq<char>, sep: char)
    ensures
        split_seq(a + seq![sep] + b, sep) == split_seq(a, sep) + split_seq(b, sep),
    decreases b.len(),
{
    let x = a + seq![sep];
    lemma_split_nonempty(a, sep);
    if b.len() == 0 {
        assert(x + b =~= x);
        assert(x.drop_last() =~= a);
        assert(split_seq(b, sep) =~= seq![Seq::<char>::empty()]);
        assert(split_seq(x, sep) =~= split_seq(a, sep) + split_seq(b, sep));
    } else {
        let b2 = b.drop_last();
        lemma_split_concat(a, b2, sep);
        lemma_split_nonempty(b2, sep);
        assert((x + b).drop_last() =~= x + b2);
        assert((x + b).last() == b.last());
        let p = split_seq(a, sep);
        let q = split_seq(b2, sep);
        if b.last() == sep {
            assert((p + q).push(Seq::<char>::empty()) =~= p + q.push(Seq::<char>::empty()));
        } else {
            let pq = p + q;
            assert(pq.update(pq.len() - 1, pq.last().push(b.last())) =~= p + q.update(
                q.len() - 1,
                q.last().push(b.last()),
            ));
        }
    }
}

/// A string without the separator is a single piece.
pub proof fn lemma_split_without_sep(a: Seq<char>, sep: char)
    requires
        forall|i: int| 0 <= i < a.len() ==> a[i] != sep,
    ensures
        split_seq(a, sep) == seq![a],
    decreases a.len(),
{
    if a.len() == 0 {
        assert(a =~= Seq::<char>::empty());
        assert(split_seq(a, sep) =~= seq![a]);
    } else {
        let a2 = a.drop_last();
        lemma_split_without_sep(a2, sep);
        assert(a2.push(a.last()) =~= a);
        assert(a[a.len() - 1] != sep);
        let prev = split_seq(a2, sep);
        assert(split_seq(a, sep) == prev.update(prev.len() - 1, prev.last().push(a.last())));
        assert(prev.update(prev.len() - 1, prev.last().push(a.last())) =~= seq![a]);
    }
}

/// The pieces and the separator determine the string.
pub proof fn lemma_split_injective(s: Seq<char>, t: Seq<char>, sep: char)
    requires
        split_seq(s, sep) == split_seq(t, sep),
    ensures
        s == t,
{
    lemma_join_split(s, sep);
    lemma_join_split(t, sep);
}

/// Joining the pieces with the separator gives the string back.
pub open spec fn join_seq(p: Seq<Seq<char>>, sep: char) -> Seq<char>
    decreases p.len(),
{
    if p.len() <= 1 {
        if p.len() == 1 { p[0] } else { Seq::empty() }
    } else {
        join_seq(p.drop_last(), sep) + seq![sep] + p.last()
    }
}

proof fn lemma_join_split(s: Seq<char>, sep: char)
    ensures
        join_seq(split_seq(s, sep), sep) == s,
    decreases s.len(),
{
    lemma_split_nonempty(s, sep);
    if s.len() == 0 {
        assert(split_seq(s, sep) =~= seq![Seq::<char>::empty()]);
        assert(s =~= Seq::<char>::empty());
    } else {
        let s2 = s.drop_last();
        lemma_join_split(s2, sep);
        lemma_split_nonempty(s2, sep);
        let p = split_seq(s2, sep);
        if s.last() == sep {
            let q = p.push(Seq::<char>::empty());
            assert(q.drop_last() =~= p);
            assert(join_seq(q, sep) =~= s);
        } else {
            let q = p.update(p.len() - 1, p.last().push(s.last()));
            if p.len() == 1 {
                assert(q[0] =~= s);
            } else {
                assert(q.drop_last() =~= p.drop_last());
                assert(join_seq(p, sep) == join_seq(p.drop_last(), sep) + seq![sep] + p.last());
                assert(q.last() == p.last().push(s.last()));
                assert(join_seq(q, sep) == join_seq(q.drop_last(), sep) + seq![sep] + q.last());
                assert(s2.push(s.last()) =~= s);
                assert(join_seq(q, sep) =~= join_seq(p, sep).push(s.last()));
            }
        }
    }
}

} // verus!
