//! Entry files: one line `address,public-key` per peer, the fields read back
//! from such lines, and the rendered peer sections joined into one text.

use vstd::prelude::*;
use vstd::string::*;
use crate::text::{lemma_split_concat, lemma_split_nonempty, lemma_split_without_sep, push_char, split_chars, split_seq, views};

verus! {

/// `s` with every occurrence of `c` removed (`str::replace(c, "")`).
pub open spec fn without_char(s: Seq<char>, c: char) -> Seq<char>
    decreases s.len(),
{
    if s.len() == 0 {
        s
    } else {
        let p = without_char(s.drop_last(), c);
        if s.last() == c {
            p
        } else {
            p.push(s.last())
        }
    }
}

/// The text before the first comma (all of it when there is none).
pub open spec fn first_field(line: Seq<char>) -> Seq<char> {
    split_seq(line, ',')[0]
}

/// The text after the last comma (all of it when there is none).
pub open spec fn last_field(line: Seq<char>) -> Seq<char> {
    split_seq(line, ',').last()
}

/// The line stored for a peer.
pub open spec fn entry_line_spec(ipv4: Seq<char>, public_key: Seq<char>) -> Seq<char> {
    ipv4 + seq![','] + public_key
}

/// The first and last fields of each readable file, in order; unreadable
/// files are skipped.
pub open spec fn readable_pairs_spec(c: Seq<Option<Seq<char>>>) -> Seq<(Seq<char>, Seq<char>)>
    decreases c.len(),
{
    if c.len() == 0 {
        Seq::empty()
    } else {
        let p = readable_pairs_spec(c.drop_last());
        match c.last() {
            Some(l) => p.push((first_field(l), last_field(l))),
            None => p,
        }
    }
}

/// The first field, without line breaks, of each readable file, in order.
pub open spec fn used_ipv4s_spec(c: Seq<Option<Seq<char>>>) -> Seq<Seq<char>>
    decreases c.len(),
{
    if c.len() == 0 {
        Seq::empty()
    } else {
        let p = used_ipv4s_spec(c.drop_last());
        match c.last() {
            Some(l) => p.push(without_char(first_field(l), '\n')),
            None => p,
        }
    }
}

/// Each rendered entry followed by an empty line.
pub open spec fn joined_entries_spec(e: Seq<Seq<char>>) -> Seq<char>
    decreases e.len(),
{
    if e.len() == 0 {
        Seq::empty()
    } else {
        joined_entries_spec(e.drop_last()) + e.last() + seq!['\n', '\n']
    }
}

/// Removes every occurrence of `c` from `s`.
pub fn remove_char(s: &str, c: char) -> (r: String)
    ensures
        r@ == without_char(s@, c),
{
    let n = s.unicode_len();
    let mut r = String::new();
    let mut i: usize = 0;
    assert(s@.take(0) =~= Seq::<char>::empty());
    while i < n
        invariant
            n == s@.len(),
            i <= n,
            r@ == without_char(s@.take(i as int), c),
        decreases n - i,
    {
        let x = s.get_char(i);
        assert(s@.take(i + 1).drop_last() =~= s@.take(i as int));
        if x != c {
            push_char(&mut r, x);
        }
        i += 1;
    }
    assert(s@.take(n as int) =~= s@);
    r
}

/// The first comma-separated field of `line`, line breaks removed.
pub fn first_of_pair(line: String) -> (r: Option<String>)
    ensures
        r matches Some(x) && x@ == without_char(first_field(line@), '\n'),
{
    let p = split_chars(line.as_str(), ',');
    proof {
        lemma_split_nonempty(line@, ',');
    }
    Some(remove_char(p[0].as_str(), '\n'))
}

/// The first and the last comma-separated fields of `line`.
pub fn both_elements(line: String) -> (r: Option<(String, String)>)
    ensures
        r matches Some(x) && x.0@ == first_field(line@) && x.1@ == last_field(line@),
{
    let p = split_chars(line.as_str(), ',');
    proof {
        lemma_split_nonempty(line@, ',');
    }
    let n = p.len();
    Some((p[0].clone(), p[n - 1].clone()))
}

/// The line stored for a peer: its address, a comma, its public key.
pub fn entry_line(user_ipv4: &str, public_key: &str) -> (r: String)
    ensures
        r@ == entry_line_spec(user_ipv4@, public_key@),
{
    let mut r = String::new();
    r.append(user_ipv4);
    push_char(&mut r, ',');
    r.append(public_key);
    r
}

/// The address and public key of each readable entry file, in order.
pub fn readable_pairs(contents: &Vec<Option<String>>) -> (r: Vec<(String, String)>)
    ensures
        r.deep_view() == readable_pairs_spec(contents.deep_view()),
{
    let n = contents.len();
    let mut r: Vec<(String, String)> = Vec::new();
    let mut i: usize = 0;
    let ghost c = contents.deep_view();
    assert(c.take(0) =~= Seq::<Option<Seq<char>>>::empty());
    assert(r.deep_view() =~= readable_pairs_spec(c.take(0)));
    while i < n
        invariant
            n == contents.len(),
            c == contents.deep_view(),
            i <= n,
            r.deep_view() == readable_pairs_spec(c.take(i as int)),
        decreases n - i,
    {
        assert(c.take(i + 1).drop_last() =~= c.take(i as int));
        let ghost before = r.deep_view();
        match &contents[i] {
            Some(line) => {
                let pair = both_elements(line.clone());
                let (a, b) = pair.unwrap();
                r.push((a, b));
                assert(r.deep_view() =~= before.push((first_field(line@), last_field(line@))));
            },
            None => {},
        }
        i += 1;
    }
    assert(c.take(n as int) =~= c);
    r
}

/// The address of each readable entry file, in order.
pub fn used_ipv4s(contents: &Vec<Option<String>>) -> (r: Vec<String>)
    ensures
        views(r@) == used_ipv4s_spec(contents.deep_view()),
{
    let n = contents.len();
    let mut r: Vec<String> = Vec::new();
    let mut i: usize = 0;
    let ghost c = contents.deep_view();
    assert(c.take(0) =~= Seq::<Option<Seq<char>>>::empty());
    assert(views(r@) =~= used_ipv4s_spec(c.take(0)));
    while i < n
        invariant
            n == contents.len(),
            c == contents.deep_view(),
            i <= n,
            views(r@) == used_ipv4s_spec(c.take(i as int)),
        decreases n - i,
    {
        assert(c.take(i + 1).drop_last() =~= c.take(i as int));
        let ghost before = views(r@);
        match &contents[i] {
            Some(line) => {
                let first = first_of_pair(line.clone()).unwrap();
                r.push(first);
                assert(views(r@) =~= before.push(without_char(first_field(line@), '\n')));
            },
            None => {},
        }
        i += 1;
    }
    assert(c.take(n as int) =~= c);
    r
}

/// The rendered entries, each followed by an empty line.
pub fn join_rendered_entries(entries: &Vec<String>) -> (r: String)
    ensures
        r@ == joined_entries_spec(views(entries@)),
{
    let n = entries.len();
    let mut r = String::new();
    let mut i: usize = 0;
    let ghost e = views(entries@);
    assert(e.take(0) =~= Seq::<Seq<char>>::empty());
    while i < n
        invariant
            n == entries.len(),
            e == views(entries@),
            i <= n,
            r@ == joined_entries_spec(e.take(i as int)),
        decreases n - i,
    {
        assert(e.take(i + 1).drop_last() =~= e.take(i as int));
        r.append(entries[i].as_str());
        push_char(&mut r, '\n');
        push_char(&mut r, '\n');
        assert(r@ =~= joined_entries_spec(e.take(i + 1)));
        i += 1;
    }
    assert(e.take(n as int) =~= e);
    r
}

/// Entry file names paired, position by position, with the address and key
/// pairs read from the readable files; the longer list is cut to the
/// shorter.
pub open spec fn entry_rows_spec(
    names: Seq<Seq<char>>,
    pairs: Seq<(Seq<char>, Seq<char>)>,
) -> Seq<(Seq<char>, Seq<char>, Seq<char>)> {
    let n = if names.len() <= pairs.len() { names.len() } else { pairs.len() };
    Seq::new(n, |i: int| (names[i], pairs[i].0, pairs[i].1))
}

/// Pairs each entry file name with the address and key at the same
/// position (`Iterator::zip`).
pub fn entry_rows(names: &Vec<String>, pairs: &Vec<(String, String)>) -> (r: Vec<(String, String, String)>)
    ensures
        r.deep_view() == entry_rows_spec(views(names@), pairs.deep_view()),
{
    let n = if names.len() <= pairs.len() { names.len() } else { pairs.len() };
    let mut r: Vec<(String, String, String)> = Vec::new();
    let mut i: usize = 0;
    while i < n
        invariant
            n == (if names.len() <= pairs.len() { names.len() } else { pairs.len() }),
            i <= n,
            r.deep_view() =~= entry_rows_spec(views(names@), pairs.deep_view()).take(i as int),
        decreases n - i,
    {
        let row = (names[i].clone(), pairs[i].0.clone(), pairs[i].1.clone());
        let ghost before = r.deep_view();
        assert(pairs.deep_view()[i as int] == (pairs@[i as int].0@, pairs@[i as int].1@));
        r.push(row);
        assert(r.deep_view() =~= before.push((names@[i as int]@, pairs@[i as int].0@, pairs@[i as int].1@)));
        i += 1;
        assert(r.deep_view() =~= entry_rows_spec(views(names@), pairs.deep_view()).take(i as int));
    }
    assert(entry_rows_spec(views(names@), pairs.deep_view()).take(n as int) =~= entry_rows_spec(views(names@), pairs.deep_view()));
    r
}

/// Whether a file of this name is hidden (its name starts with a dot).
pub fn is_hidden_name(name: &str) -> (r: bool)
    ensures
        r == (name@.len() > 0 && name@[0] == '.'),
{
    name.unicode_len() > 0 && name.get_char(0) == '.'
}

/// Removing a character that does not occur changes nothing.
pub proof fn lemma_without_absent_char(s: Seq<char>, c: char)
    requires
        forall|i: int| 0 <= i < s.len() ==> s[i] != c,
    ensures
        without_char(s, c) == s,
    decreases s.len(),
{
    if s.len() > 0 {
        lemma_without_absent_char(s.drop_last(), c);
        assert(s[s.len() - 1] != c);
        assert(s.drop_last().push(s.last()) =~= s);
    }
}

/// A stored entry line gives back what was stored: its first field is the
/// address, its last field the public key, as long as neither holds a comma;
/// an address without line breaks is read back by `first_of_pair` as it was.
pub proof fn lemma_entry_line_roundtrip(ipv4: Seq<char>, public_key: Seq<char>)
    requires
        forall|i: int| 0 <= i < ipv4.len() ==> ipv4[i] != ',',
        forall|i: int| 0 <= i < public_key.len() ==> public_key[i] != ',',
    ensures
        first_field(entry_line_spec(ipv4, public_key)) == ipv4,
        last_field(entry_line_spec(ipv4, public_key)) == public_key,
        (forall|i: int| 0 <= i < ipv4.len() ==> ipv4[i] != '\n') ==> without_char(
            first_field(entry_line_spec(ipv4, public_key)),
            '\n',
        ) == ipv4,
{
    lemma_split_concat(ipv4, public_key, ',');
    lemma_split_without_sep(ipv4, ',');
    lemma_split_without_sep(public_key, ',');
    let p = split_seq(entry_line_spec(ipv4, public_key), ',');
    assert(p =~= seq![ipv4, public_key]);
    if forall|i: int| 0 <= i < ipv4.len() ==> ipv4[i] != '\n' {
        lemma_without_absent_char(ipv4, '\n');
    }
}

/// Reading entry files part by part: the pairs of two runs of files are
/// the pairs of the first run followed by those of the second; a readable
/// file gives its first and last fields, an unreadable one nothing. So there
/// is exactly one pair per readable file, in the files' order.
pub proof fn lemma_readable_pairs_of_files(a: Seq<Option<Seq<char>>>, b: Seq<Option<Seq<char>>>, l: Seq<char>)
    ensures
        readable_pairs_spec(a + b) == readable_pairs_spec(a) + readable_pairs_spec(b),
        readable_pairs_spec(seq![Some(l)]) == seq![(first_field(l), last_field(l))],
        readable_pairs_spec(seq![None::<Seq<char>>]) == Seq::<(Seq<char>, Seq<char>)>::empty(),
        readable_pairs_spec(Seq::<Option<Seq<char>>>::empty()) == Seq::<(Seq<char>, Seq<char>)>::empty(),
    decreases b.len(),
{
    let one = seq![Some(l)];
    assert(one.drop_last() =~= Seq::<Option<Seq<char>>>::empty());
    assert(one.last() == Some(l));
    assert(readable_pairs_spec(one.drop_last()) == Seq::<(Seq<char>, Seq<char>)>::empty());
    assert(readable_pairs_spec(one) =~= seq![(first_field(l), last_field(l))]);
    let none = seq![None::<Seq<char>>];
    assert(none.drop_last() =~= Seq::<Option<Seq<char>>>::empty());
    if b.len() == 0 {
        assert(a + b =~= a);
        assert(readable_pairs_spec(a) + readable_pairs_spec(b) =~= readable_pairs_spec(a));
    } else {
        lemma_readable_pairs_of_files(a, b.drop_last(), l);
        assert((a + b).drop_last() =~= a + b.drop_last());
        assert((a + b).last() == b.last());
        let p = readable_pairs_spec(a);
        let q = readable_pairs_spec(b.drop_last());
        match b.last() {
            Some(m) => {
                assert((p + q).push((first_field(m), last_field(m))) =~= p + q.push(
                    (first_field(m), last_field(m)),
                ));
            },
            None => {},
        }
    }
}

/// Reading addresses part by part: the addresses of two runs of files are
/// those of the first run followed by those of the second; a readable file
/// gives its first field without line breaks, an unreadable one nothing.
pub proof fn lemma_used_ipv4s_of_files(a: Seq<Option<Seq<char>>>, b: Seq<Option<Seq<char>>>, l: Seq<char>)
    ensures
        used_ipv4s_spec(a + b) == used_ipv4s_spec(a) + used_ipv4s_spec(b),
        used_ipv4s_spec(seq![Some(l)]) == seq![without_char(first_field(l), '\n')],
        used_ipv4s_spec(seq![None::<Seq<char>>]) == Seq::<Seq<char>>::empty(),
        used_ipv4s_spec(Seq::<Option<Seq<char>>>::empty()) == Seq::<Seq<char>>::empty(),
    decreases b.len(),
{
    let one = seq![Some(l)];
    assert(one.drop_last() =~= Seq::<Option<Seq<char>>>::empty());
    assert(one.last() == Some(l));
    assert(used_ipv4s_spec(one.drop_last()) == Seq::<Seq<char>>::empty());
    assert(used_ipv4s_spec(one) =~= seq![without_char(first_field(l), '\n')]);
    let none = seq![None::<Seq<char>>];
    assert(none.drop_last() =~= Seq::<Option<Seq<char>>>::empty());
    if b.len() == 0 {
        assert(a + b =~= a);
        assert(used_ipv4s_spec(a) + used_ipv4s_spec(b) =~= used_ipv4s_spec(a));
    } else {
        lemma_used_ipv4s_of_files(a, b.drop_last(), l);
        assert((a + b).drop_last() =~= a + b.drop_last());
        assert((a + b).last() == b.last());
        let p = used_ipv4s_spec(a);
        let q = used_ipv4s_spec(b.drop_last());
        match b.last() {
            Some(m) => {
                assert((p + q).push(without_char(first_field(m), '\n')) =~= p + q.push(
                    without_char(first_field(m), '\n'),
                ));
            },
            None => {},
        }
    }
}

/// Joining rendered entries part by part: the text of two runs of entries
/// is the text of the first run followed by that of the second, and one
/// entry gives its text and an empty line.
pub proof fn lemma_joined_entries_of_parts(a: Seq<Seq<char>>, b: Seq<Seq<char>>, e: Seq<char>)
    ensures
        joined_entries_spec(a + b) == joined_entries_spec(a) + joined_entries_spec(b),
        joined_entries_spec(seq![e]) == e + seq!['\n', '\n'],
        joined_entries_spec(Seq::<Seq<char>>::empty()) == Seq::<char>::empty(),
    decreases b.len(),
{
    let one = seq![e];
    assert(one.drop_last() =~= Seq::<Seq<char>>::empty());
    assert(one.last() == e);
    assert(joined_entries_spec(one.drop_last()) == Seq::<char>::empty());
    assert(Seq::<char>::empty() + e =~= e);
    assert(joined_entries_spec(one) =~= e + seq!['\n', '\n']);
    if b.len() == 0 {
        assert(a + b =~= a);
        assert(joined_entries_spec(a) + joined_entries_spec(b) =~= joined_entries_spec(a));
    } else {
        lemma_joined_entries_of_parts(a, b.drop_last(), e);
        assert((a + b).drop_last() =~= a + b.drop_last());
        assert((a + b).last() == b.last());
        let p = joined_entries_spec(a);
        let q = joined_entries_spec(b.drop_last());
        assert(p + q + b.last() + seq!['\n', '\n'] =~= p + (q + b.last() + seq!['\n', '\n']));
    }
}

/// Pairing names with address and key pairs goes position by position:
/// as many rows as the shorter list has entries, row `i` made of name `i`
/// and pair `i`.
pub proof fn lemma_entry_rows_zip(names: Seq<Seq<char>>, pairs: Seq<(Seq<char>, Seq<char>)>)
    ensures
        entry_rows_spec(names, pairs).len() <= names.len(),
        entry_rows_spec(names, pairs).len() <= pairs.len(),
        entry_rows_spec(names, pairs).len() == names.len() || entry_rows_spec(names, pairs).len()
            == pairs.len(),
        forall|i: int|
            0 <= i < entry_rows_spec(names, pairs).len() ==> #[trigger] entry_rows_spec(names, pairs)[i]
                == (names[i], pairs[i].0, pairs[i].1),
{
}

} // verus!
