//! Command lines rendered from templates: line breaks, tabs and backslashes
//! become spaces, and the text falls apart into whitespace-separated words,
//! the first of which names the program.

use vstd::prelude::*;
use vstd::string::*;
use crate::text::{push_char, views};

verus! {

/// `char::is_whitespace`: the Unicode `White_Space` property.
pub open spec fn is_white_space(c: char) -> bool {
    ||| ('\t' <= c && c <= '\r')
    ||| c == ' '
    ||| c == '\u{85}'
    ||| c == '\u{a0}'
    ||| c == '\u{1680}'
    ||| ('\u{2000}' <= c && c <= '\u{200a}')
    ||| c == '\u{2028}'
    ||| c == '\u{2029}'
    ||| c == '\u{202f}'
    ||| c == '\u{205f}'
    ||| c == '\u{3000}'
}

/// Tabs, line breaks, carriage returns and backslashes become spaces.
pub open spec fn command_char(c: char) -> char {
    if c == '\t' || c == '\n' || c == '\r' || c == '\\' {
        ' '
    } else {
        c
    }
}

pub open spec fn command_text(s: Seq<char>) -> Seq<char> {
    Seq::new(s.len(), |i: int| command_char(s[i]))
}

/// The maximal runs of non-whitespace characters of `s`, in order
/// (`str::split_whitespace`).
pub open spec fn words_spec(s: Seq<char>) -> Seq<Seq<char>>
    decreases s.len(),
{
    if s.len() == 0 {
        Seq::empty()
    } else {
        let w = words_spec(s.drop_last());
        let c = s.last();
        if is_white_space(c) {
            w
        } else if s.len() >= 2 && !is_white_space(s[s.len() - 2]) {
            w.update(w.len() - 1, w.last().push(c))
        } else {
            w.push(seq![c])
        }
    }
}

/// The words of a rendered command line.
pub open spec fn command_words_spec(s: Seq<char>) -> Seq<Seq<char>> {
    words_spec(command_text(s))
}

/// `char::is_whitespace`.
pub fn is_white_space_char(c: char) -> (r: bool)
    ensures
        r == is_white_space(c),
{
    ('\t' <= c && c <= '\r') || c == ' ' || c == '\u{85}' || c == '\u{a0}' || c == '\u{1680}'
        || ('\u{2000}' <= c && c <= '\u{200a}') || c == '\u{2028}' || c == '\u{2029}' || c
        == '\u{202f}' || c == '\u{205f}' || c == '\u{3000}'
}

proof fn lemma_words_last_nonempty(s: Seq<char>)
    requires
        s.len() > 0,
        !is_white_space(s.last()),
    ensures
        words_spec(s).len() > 0,
    decreases s.len(),
{
    if s.len() >= 2 && !is_white_space(s[s.len() - 2]) {
        lemma_words_last_nonempty(s.drop_last());
    }
}

/// The words of a rendered command line: tabs, line breaks, carriage
/// returns and backslashes count as spaces, and whitespace separates.
pub fn command_words(rendered: &str) -> (words: Vec<String>)
    ensures
        views(words@) == command_words_spec(rendered@),
{
    let n = rendered.unicode_len();
    let ghost m = command_text(rendered@);
    let mut done: Vec<String> = Vec::new();
    let mut cur = String::new();
    let mut i: usize = 0;
    assert(m.take(0) =~= Seq::<char>::empty());
    while i < n
        invariant
            n == rendered@.len(),
            m == command_text(rendered@),
            i <= n,
            cur@.len() > 0 <==> (i > 0 && !is_white_space(m[i - 1])),
            cur@.len() > 0 ==> views(done@).push(cur@) == words_spec(m.take(i as int)),
            cur@.len() == 0 ==> views(done@) == words_spec(m.take(i as int)),
        decreases n - i,
    {
        let raw = rendered.get_char(i);
        let c = if raw == '\t' || raw == '\n' || raw == '\r' || raw == '\\' {
            ' '
        } else {
            raw
        };
        assert(c == m[i as int]);
        let ghost t = m.take(i + 1);
        assert(t.drop_last() =~= m.take(i as int));
        assert(t.last() == c);
        let ghost before = views(done@);
        let ghost cur_before = cur@;
        if is_white_space_char(c) {
            if cur.unicode_len() > 0 {
                done.push(cur);
                cur = String::new();
                assert(views(done@) =~= before.push(cur_before));
            }
        } else {
            if i > 0 {
                assert(t[t.len() - 2] == m[i - 1]);
            }
            push_char(&mut cur, c);
            proof {
                if cur_before.len() > 0 {
                    assert(i > 0 && !is_white_space(m[i - 1]));
                    assert(t.len() >= 2 && !is_white_space(t[t.len() - 2]));
                    let w = words_spec(m.take(i as int));
                    assert(w == before.push(cur_before));
                    assert(words_spec(t) == w.update(w.len() - 1, w.last().push(c)));
                    assert(views(done@).push(cur@) =~= words_spec(t));
                } else {
                    assert(!(t.len() >= 2 && !is_white_space(t[t.len() - 2])));
                    assert(words_spec(t) == words_spec(m.take(i as int)).push(seq![c]));
                    assert(cur_before =~= Seq::<char>::empty());
                    assert(cur@ =~= seq![c]);
                    assert(views(done@).push(cur@) =~= words_spec(t));
                }
            }
        }
        i += 1;
    }
    assert(m.take(n as int) =~= m);
    if cur.unicode_len() > 0 {
        let ghost before = views(done@);
        let ghost last = cur@;
        done.push(cur);
        assert(views(done@) =~= before.push(last));
    }
    done
}

/// A word: non-empty, without whitespace.
pub open spec fn is_word(w: Seq<char>) -> bool {
    w.len() > 0 && forall|j: int| 0 <= j < w.len() ==> !is_white_space(#[trigger] w[j])
}

/// Every word is non-empty and holds no whitespace.
pub proof fn lemma_words_are_clean(s: Seq<char>)
    ensures
        forall|k: int| 0 <= k < words_spec(s).len() ==> is_word(#[trigger] words_spec(s)[k]),
    decreases s.len(),
{
    if s.len() > 0 {
        let s2 = s.drop_last();
        let w = words_spec(s2);
        lemma_words_are_clean(s2);
        let c = s.last();
        let r = words_spec(s);
        if is_white_space(c) {
        } else if s.len() >= 2 && !is_white_space(s[s.len() - 2]) {
            lemma_words_last_nonempty(s2);
            assert(is_word(w[w.len() - 1]));
            assert forall|k: int| 0 <= k < r.len() implies is_word(#[trigger] r[k]) by {
                if k < w.len() - 1 {
                    assert(r[k] == w[k]);
                } else {
                    assert(r[k] == w.last().push(c));
                    assert(is_word(w.last()));
                }
            }
        } else {
            assert forall|k: int| 0 <= k < r.len() implies is_word(#[trigger] r[k]) by {
                if k < w.len() {
                    assert(r[k] == w[k]);
                } else {
                    assert(r[k] == seq![c]);
                }
            }
        }
    }
}

/// Words around a whitespace character split there: the words of
/// `x + [c] + y` are the words of `x` followed by those of `y`.
proof fn lemma_words_split_at_space(x: Seq<char>, c: char, y: Seq<char>)
    requires
        is_white_space(c),
    ensures
        words_spec(x + seq![c] + y) == words_spec(x) + words_spec(y),
    decreases y.len(),
{
    let xc = x + seq![c];
    assert(xc.drop_last() =~= x);
    if y.len() == 0 {
        assert(xc + y =~= xc);
        assert(words_spec(y) =~= Seq::<Seq<char>>::empty());
        assert(words_spec(x) + words_spec(y) =~= words_spec(x));
    } else {
        let y2 = y.drop_last();
        lemma_words_split_at_space(x, c, y2);
        let s = xc + y;
        assert(s.drop_last() =~= xc + y2);
        assert(s.last() == y.last());
        let d = y.last();
        let p = words_spec(x);
        let q = words_spec(y2);
        if is_white_space(d) {
        } else if y2.len() > 0 && !is_white_space(y2.last()) {
            assert(s[s.len() - 2] == y2.last());
            assert(y[y.len() - 2] == y2.last());
            lemma_words_last_nonempty(y2);
            let pq = p + q;
            assert(pq.update(pq.len() - 1, pq.last().push(d)) =~= p + q.update(
                q.len() - 1,
                q.last().push(d),
            ));
        } else {
            if y2.len() == 0 {
                assert(s[s.len() - 2] == c);
                assert(y.len() == 1);
            } else {
                assert(s[s.len() - 2] == y2.last());
                assert(y[y.len() - 2] == y2.last());
            }
            assert((p + q).push(seq![d]) =~= p + q.push(seq![d]));
        }
    }
}

/// Text without whitespace is one word, itself.
proof fn lemma_words_of_plain_text(t: Seq<char>)
    requires
        t.len() > 0,
        forall|i: int| 0 <= i < t.len() ==> !is_white_space(#[trigger] t[i]),
    ensures
        words_spec(t) == seq![t],
    decreases t.len(),
{
    let t2 = t.drop_last();
    assert(!is_white_space(t[t.len() - 1]));
    if t2.len() == 0 {
        assert(words_spec(t2) =~= Seq::<Seq<char>>::empty());
        assert(t =~= seq![t.last()]);
    } else {
        lemma_words_of_plain_text(t2);
        assert(!is_white_space(t[t.len() - 2]));
        assert(t2.push(t.last()) =~= t);
    }
}

/// What a rendered command line falls into, over every text: a separator
/// (whitespace or a backslash) splits the text into the words before it
/// and the words after it; a non-empty text without separators is one word,
/// copied unchanged; the empty text has no words.
pub proof fn lemma_command_words_laws(x: Seq<char>, c: char, y: Seq<char>)
    ensures
        is_white_space(c) || c == '\\' ==> command_words_spec(x + seq![c] + y)
            == command_words_spec(x) + command_words_spec(y),
        (x.len() > 0 && forall|i: int| 0 <= i < x.len() ==> !is_white_space(#[trigger] x[i]) && x[i] != '\\')
            ==> command_words_spec(x) == seq![x],
        command_words_spec(Seq::<char>::empty()) == Seq::<Seq<char>>::empty(),
{
    assert(command_text(Seq::<char>::empty()) =~= Seq::<char>::empty());
    if is_white_space(c) || c == '\\' {
        assert(command_text(x + seq![c] + y) =~= command_text(x) + seq![command_char(c)] + command_text(y));
        lemma_words_split_at_space(command_text(x), command_char(c), command_text(y));
    }
    if x.len() > 0 && forall|i: int| 0 <= i < x.len() ==> !is_white_space(#[trigger] x[i]) && x[i] != '\\' {
        assert forall|i: int| 0 <= i < x.len() implies command_text(x)[i] == x[i] by {
            assert(!is_white_space(x[i]) && x[i] != '\\');
        }
        assert(command_text(x) =~= x);
        lemma_words_of_plain_text(x);
    }
}

} // verus!
