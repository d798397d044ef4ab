//! Dotted-quad IPv4 addresses: the strict syntax that `Ipv4Addr` parses,
//! the lenient octet reading used to step to the next workstation address,
//! and the search for the highest address in use.

use vstd::prelude::*;
use vstd::string::*;
use crate::decimal::{
    canonical_octet, is_digit, lemma_canonical_octet_is_decimal, lemma_decimal,
    lemma_parse_u8_of_decimal, decimal, parse_canonical_octet, parse_u8, parse_u8_spec, push_decimal,
};
use crate::text::{lemma_split_concat, lemma_split_without_sep, push_char, split_chars, split_seq, views};

verus! {

/// An address as its four octets.
pub type Octets = (u8, u8, u8, u8);

/// `a.b.c.d` with each octet in decimal.
pub open spec fn dotted(o: Octets) -> Seq<char> {
    decimal(o.0 as nat) + seq!['.'] + decimal(o.1 as nat) + seq!['.'] + decimal(o.2 as nat)
        + seq!['.'] + decimal(o.3 as nat)
}

/// What `s.parse::<Ipv4Addr>()` accepts: exactly four dot-separated
/// octets in canonical decimal form.
pub open spec fn parse_ipv4_spec(s: Seq<char>) -> Option<Octets> {
    let p = split_seq(s, '.');
    if p.len() == 4 && canonical_octet(p[0]) is Some && canonical_octet(p[1]) is Some
        && canonical_octet(p[2]) is Some && canonical_octet(p[3]) is Some {
        Some(
            (
                canonical_octet(p[0])->0,
                canonical_octet(p[1])->0,
                canonical_octet(p[2])->0,
                canonical_octet(p[3])->0,
            ),
        )
    } else {
        None
    }
}

/// The position of an address in the order of its octets, most significant
/// first (`-1` for a string that is no address).
pub open spec fn ipv4_key(s: Seq<char>) -> int {
    match parse_ipv4_spec(s) {
        Some(o) => o.0 * 16777216 + o.1 * 65536 + o.2 * 256 + o.3,
        None => -1,
    }
}

/// Octets in lexicographic order: by the first octet, then the second,
/// the third and the fourth (the order of `[u8; 4]`).
pub open spec fn octets_le(o: Octets, q: Octets) -> bool {
    ||| o.0 < q.0
    ||| o.0 == q.0 && o.1 < q.1
    ||| o.0 == q.0 && o.1 == q.1 && o.2 < q.2
    ||| o.0 == q.0 && o.1 == q.1 && o.2 == q.2 && o.3 <= q.3
}

pub open spec fn octets_key(o: Octets) -> int {
    o.0 * 16777216 + o.1 * 65536 + o.2 * 256 + o.3
}

/// Every string of `v` is an address.
pub open spec fn all_ipv4(v: Seq<Seq<char>>) -> bool {
    forall|i: int| 0 <= i < v.len() ==> (#[trigger] parse_ipv4_spec(v[i])) is Some
}

/// `i` is the last of the positions of `v` whose address is highest.
pub open spec fn is_last_highest(v: Seq<Seq<char>>, i: int) -> bool {
    &&& 0 <= i < v.len()
    &&& forall|j: int| 0 <= j < v.len() ==> ipv4_key(#[trigger] v[j]) <= ipv4_key(v[i])
    &&& forall|j: int| i < j < v.len() ==> ipv4_key(#[trigger] v[j]) < ipv4_key(v[i])
}

/// A piece of an address read leniently: its `u8` value, or 1 when it is
/// no `u8`.
pub open spec fn octet_or_one(s: Seq<char>) -> u8 {
    match parse_u8_spec(s) {
        Some(v) => v,
        None => 1,
    }
}

/// The address that follows `s` for a workstation: the last octet goes up
/// by one, from `0` straight to `2` (`.1` is the router's); none past `254`,
/// and none for a string without exactly four dot-separated pieces.
pub open spec fn next_workstation_spec(s: Seq<char>) -> Option<Seq<char>> {
    let p = split_seq(s, '.');
    if p.len() != 4 {
        None
    } else {
        let (a, b, c, d) = (octet_or_one(p[0]), octet_or_one(p[1]), octet_or_one(p[2]), octet_or_one(p[3]));
        if d == 0 {
            Some(dotted((a, b, c, 2)))
        } else if d < 254 {
            Some(dotted((a, b, c, (d + 1) as u8)))
        } else {
            None
        }
    }
}

/// Writes an address in dotted decimal.
pub fn format_ipv4(o: Octets) -> (r: String)
    ensures
        r@ == dotted(o),
{
    let mut r = String::new();
    push_decimal(&mut r, o.0 as u32);
    push_char(&mut r, '.');
    push_decimal(&mut r, o.1 as u32);
    push_char(&mut r, '.');
    push_decimal(&mut r, o.2 as u32);
    push_char(&mut r, '.');
    push_decimal(&mut r, o.3 as u32);
    assert(r@ =~= dotted(o));
    r
}

/// Reads `s` as an address in the strict syntax.
pub fn parse_ipv4(s: &str) -> (r: Option<Octets>)
    ensures
        r == parse_ipv4_spec(s@),
{
    let p = split_chars(s, '.');
    if p.len() != 4 {
        return None;
    }
    let a = parse_canonical_octet(p[0].as_str());
    let b = parse_canonical_octet(p[1].as_str());
    let c = parse_canonical_octet(p[2].as_str());
    let d = parse_canonical_octet(p[3].as_str());
    match (a, b, c, d) {
        (Some(a), Some(b), Some(c), Some(d)) => Some((a, b, c, d)),
        _ => None,
    }
}

/// Whether `s` is an address in the strict syntax.
pub fn is_valid_ipv4(s: &str) -> (r: bool)
    ensures
        r == parse_ipv4_spec(s@) is Some,
{
    parse_ipv4(s).is_some()
}

fn key_of(o: Octets) -> (k: u32)
    ensures
        k == octets_key(o),
{
    o.0 as u32 * 16777216 + o.1 as u32 * 65536 + o.2 as u32 * 256 + o.3 as u32
}

/// The address after `ipv4` in the workstation range: each dot-separated
/// piece is read as a `u8` (1 where it is none); `.0` is followed by `.2`,
/// `.254` by nothing.
pub fn next_workstation_ipv4(ipv4: &str) -> (r: Option<String>)
    ensures
        r is Some <==> next_workstation_spec(ipv4@) is Some,
        r matches Some(x) ==> next_workstation_spec(ipv4@) == Some(x@),
{
    let p = split_chars(ipv4, '.');
    if p.len() != 4 {
        return None;
    }
    let a = match parse_u8(p[0].as_str()) {
        Some(v) => v,
        None => 1,
    };
    let b = match parse_u8(p[1].as_str()) {
        Some(v) => v,
        None => 1,
    };
    let c = match parse_u8(p[2].as_str()) {
        Some(v) => v,
        None => 1,
    };
    let d = match parse_u8(p[3].as_str()) {
        Some(v) => v,
        None => 1,
    };
    if d == 0 {
        Some(format_ipv4((a, b, c, 2)))
    } else if d < 254 {
        Some(format_ipv4((a, b, c, d + 1)))
    } else {
        None
    }
}

/// The highest address of `list` in the order of octets (the last such
/// entry where several are equal), or `None` for an empty list. Every entry
/// of a list of two or more must be an address.
pub fn find_last_ipv4(list: Vec<String>) -> (r: Option<String>)
    requires
        list.len() <= 1 || all_ipv4(views(list@)),
    ensures
        r is None <==> list.len() == 0,
        r matches Some(x) ==> exists|i: int|
            #![trigger list@[i]]
            is_last_highest(views(list@), i) && x@ == list@[i]@,
        r matches Some(x) ==> (list.len() >= 2 ==> {
            &&& parse_ipv4_spec(x@) is Some
            &&& forall|j: int|
                0 <= j < list.len() ==> octets_le(
                    #[trigger] parse_ipv4_spec(list@[j]@)->0,
                    parse_ipv4_spec(x@)->0,
                )
        }),
{
    let n = list.len();
    if n == 0 {
        return None;
    }
    let ghost v = views(list@);
    if n == 1 {
        let r = list[0].clone();
        assert(is_last_highest(v, 0));
        return Some(r);
    }
    let mut best: usize = 0;
    let mut best_key: u32 = key_of(parse_ipv4(list[0].as_str()).unwrap());
    let mut i: usize = 1;
    assert(parse_ipv4_spec(v[0]) is Some);
    while i < n
        invariant
            n == list.len(),
            n >= 2,
            v == views(list@),
            all_ipv4(v),
            1 <= i <= n,
            best < i,
            best_key == ipv4_key(v[best as int]),
            forall|j: int| 0 <= j < i ==> ipv4_key(#[trigger] v[j]) <= ipv4_key(v[best as int]),
            forall|j: int| best < j < i ==> ipv4_key(#[trigger] v[j]) < ipv4_key(v[best as int]),
        decreases n - i,
    {
        assert(parse_ipv4_spec(v[i as int]) is Some);
        let k = key_of(parse_ipv4(list[i].as_str()).unwrap());
        if k >= best_key {
            best = i;
            best_key = k;
        }
        i += 1;
    }
    assert(is_last_highest(v, best as int));
    proof {
        lemma_last_highest_is_octet_max(v, best as int);
        assert forall|j: int| 0 <= j < list.len() implies octets_le(
            #[trigger] parse_ipv4_spec(list@[j]@)->0,
            parse_ipv4_spec(list@[best as int]@)->0,
        ) by {
            assert(v[j] == list@[j]@);
        }
    }
    Some(list[best].clone())
}

proof fn lemma_decimal_has_no_dot(n: nat)
    ensures
        forall|i: int| 0 <= i < decimal(n).len() ==> decimal(n)[i] != '.',
{
    lemma_decimal(n);
    assert forall|i: int| 0 <= i < decimal(n).len() implies decimal(n)[i] != '.' by {
        assert(is_digit(decimal(n)[i]));
    }
}

/// The pieces of a dotted address are the decimal octets.
proof fn lemma_split_dotted(o: Octets)
    ensures
        split_seq(dotted(o), '.') == seq![
            decimal(o.0 as nat),
            decimal(o.1 as nat),
            decimal(o.2 as nat),
            decimal(o.3 as nat),
        ],
{
    let (da, db, dc, dd) = (
        decimal(o.0 as nat),
        decimal(o.1 as nat),
        decimal(o.2 as nat),
        decimal(o.3 as nat),
    );
    lemma_decimal_has_no_dot(o.0 as nat);
    lemma_decimal_has_no_dot(o.1 as nat);
    lemma_decimal_has_no_dot(o.2 as nat);
    lemma_decimal_has_no_dot(o.3 as nat);
    lemma_split_without_sep(da, '.');
    lemma_split_without_sep(db, '.');
    lemma_split_without_sep(dc, '.');
    lemma_split_without_sep(dd, '.');
    let tail2 = dc + seq!['.'] + dd;
    let tail1 = db + seq!['.'] + tail2;
    lemma_split_concat(dc, dd, '.');
    lemma_split_concat(db, tail2, '.');
    lemma_split_concat(da, tail1, '.');
    assert(dotted(o) =~= da + seq!['.'] + tail1);
    assert(split_seq(dotted(o), '.') =~= seq![da, db, dc, dd]);
}

/// A dotted decimal address parses back to its octets.
pub proof fn lemma_dotted_parses(o: Octets)
    ensures
        parse_ipv4_spec(dotted(o)) == Some(o),
{
    lemma_split_dotted(o);
    lemma_parse_u8_of_decimal(o.0);
    lemma_parse_u8_of_decimal(o.1);
    lemma_parse_u8_of_decimal(o.2);
    lemma_parse_u8_of_decimal(o.3);
}

/// An address in the strict syntax is the dotted decimal form of its
/// octets: no two spellings of one address are accepted.
pub proof fn lemma_ipv4_is_dotted(s: Seq<char>)
    requires
        parse_ipv4_spec(s) is Some,
    ensures
        s == dotted(parse_ipv4_spec(s)->0),
{
    let p = split_seq(s, '.');
    let o = parse_ipv4_spec(s)->0;
    lemma_canonical_octet_is_decimal(p[0]);
    lemma_canonical_octet_is_decimal(p[1]);
    lemma_canonical_octet_is_decimal(p[2]);
    lemma_canonical_octet_is_decimal(p[3]);
    lemma_split_dotted(o);
    assert(split_seq(dotted(o), '.') =~= p);
    crate::text::lemma_split_injective(s, dotted(o), '.');
}

/// Reading an address in the strict syntax and leniently gives the same
/// octets.
proof fn lemma_strict_octets_are_lenient(s: Seq<char>)
    requires
        parse_ipv4_spec(s) is Some,
    ensures
        ({
            let p = split_seq(s, '.');
            let o = parse_ipv4_spec(s)->0;
            octet_or_one(p[0]) == o.0 && octet_or_one(p[1]) == o.1 && octet_or_one(p[2]) == o.2
                && octet_or_one(p[3]) == o.3
        }),
{
    let p = split_seq(s, '.');
    let o = parse_ipv4_spec(s)->0;
    lemma_canonical_octet_is_decimal(p[0]);
    lemma_canonical_octet_is_decimal(p[1]);
    lemma_canonical_octet_is_decimal(p[2]);
    lemma_canonical_octet_is_decimal(p[3]);
    lemma_parse_u8_of_decimal(o.0);
    lemma_parse_u8_of_decimal(o.1);
    lemma_parse_u8_of_decimal(o.2);
    lemma_parse_u8_of_decimal(o.3);
}

/// A workstation address that follows another is an address again, keeps
/// the first three octets, has a last octet from 2 to 254 (never the
/// network's `.0`, the router's `.1` or the broadcast `.255`), and comes
/// after the address it follows.
pub proof fn lemma_next_workstation_is_later(s: Seq<char>)
    requires
        parse_ipv4_spec(s) is Some,
    ensures
        ({
            let o = parse_ipv4_spec(s)->0;
            &&& next_workstation_spec(s) is Some <==> o.3 < 254
            &&& next_workstation_spec(s) matches Some(r) ==> {
                &&& parse_ipv4_spec(r) matches Some(n)
                &&& n.0 == o.0 && n.1 == o.1 && n.2 == o.2
                &&& n.3 == (if o.3 == 0 { 2 } else { o.3 + 1 })
                &&& 2 <= n.3 <= 254
                &&& ipv4_key(r) > ipv4_key(s)
            }
        }),
{
    lemma_strict_octets_are_lenient(s);
    let o = parse_ipv4_spec(s)->0;
    if o.3 == 0 {
        lemma_dotted_parses((o.0, o.1, o.2, 2));
    } else if o.3 < 254 {
        lemma_dotted_parses((o.0, o.1, o.2, (o.3 + 1) as u8));
    }
}

/// Two addresses in the same place of the order are the same string.
pub proof fn lemma_ipv4_key_injective(s: Seq<char>, t: Seq<char>)
    requires
        parse_ipv4_spec(s) is Some,
        parse_ipv4_spec(t) is Some,
        ipv4_key(s) == ipv4_key(t),
    ensures
        s == t,
{
    let o = parse_ipv4_spec(s)->0;
    let q = parse_ipv4_spec(t)->0;
    lemma_octets_key_injective(o, q);
    lemma_ipv4_is_dotted(s);
    lemma_ipv4_is_dotted(t);
}

proof fn lemma_octets_key_injective(o: Octets, q: Octets)
    requires
        octets_key(o) == octets_key(q),
    ensures
        o == q,
{
    assert(o.0 == q.0) by (nonlinear_arith)
        requires
            o.0 * 16777216 + o.1 * 65536 + o.2 * 256 + o.3 == q.0 * 16777216 + q.1 * 65536 + q.2
                * 256 + q.3,
            o.0 < 256, o.1 < 256, o.2 < 256, o.3 < 256,
            q.0 < 256, q.1 < 256, q.2 < 256, q.3 < 256,
    ;
    assert(o.1 == q.1) by (nonlinear_arith)
        requires
            o.1 * 65536 + o.2 * 256 + o.3 == q.1 * 65536 + q.2 * 256 + q.3,
            o.1 < 256, o.2 < 256, o.3 < 256,
            q.1 < 256, q.2 < 256, q.3 < 256,
    ;
    assert(o.2 == q.2) by (nonlinear_arith)
        requires
            o.2 * 256 + o.3 == q.2 * 256 + q.3,
            o.2 < 256, o.3 < 256,
            q.2 < 256, q.3 < 256,
    ;
}

/// The position of addresses in the order (`ipv4_key`) is the
/// lexicographic order of their octets.
pub proof fn lemma_key_order_is_octet_order(o: Octets, q: Octets)
    ensures
        octets_key(o) <= octets_key(q) <==> octets_le(o, q),
        octets_key(o) == octets_key(q) <==> o == q,
{
    let a = o.1 * 65536 + o.2 * 256 + o.3;
    let b = q.1 * 65536 + q.2 * 256 + q.3;
    assert(0 <= a < 16777216);
    assert(0 <= b < 16777216);
    let c = o.2 * 256 + o.3;
    let d = q.2 * 256 + q.3;
    assert(0 <= c < 65536);
    assert(0 <= d < 65536);
    if octets_key(o) == octets_key(q) {
        lemma_octets_key_injective(o, q);
    }
}

/// The last highest address of a list of addresses has octets at least
/// those of every address of the list, in lexicographic order, and strictly
/// greater than those of every address after it.
pub proof fn lemma_last_highest_is_octet_max(v: Seq<Seq<char>>, i: int)
    requires
        all_ipv4(v),
        is_last_highest(v, i),
    ensures
        forall|j: int|
            0 <= j < v.len() ==> octets_le(
                #[trigger] parse_ipv4_spec(v[j])->0,
                parse_ipv4_spec(v[i])->0,
            ),
        forall|j: int|
            i < j < v.len() ==> !octets_le(
                parse_ipv4_spec(v[i])->0,
                #[trigger] parse_ipv4_spec(v[j])->0,
            ),
{
    assert(parse_ipv4_spec(v[i]) is Some);
    assert forall|j: int| 0 <= j < v.len() implies octets_le(
        #[trigger] parse_ipv4_spec(v[j])->0,
        parse_ipv4_spec(v[i])->0,
    ) by {
        assert(parse_ipv4_spec(v[j]) is Some);
        assert(ipv4_key(v[j]) <= ipv4_key(v[i]));
        lemma_key_order_is_octet_order(parse_ipv4_spec(v[j])->0, parse_ipv4_spec(v[i])->0);
    }
    assert forall|j: int| i < j < v.len() implies !octets_le(
        parse_ipv4_spec(v[i])->0,
        #[trigger] parse_ipv4_spec(v[j])->0,
    ) by {
        assert(parse_ipv4_spec(v[j]) is Some);
        assert(ipv4_key(v[j]) < ipv4_key(v[i]));
        lemma_key_order_is_octet_order(parse_ipv4_spec(v[i])->0, parse_ipv4_spec(v[j])->0);
    }
}

} // verus!
