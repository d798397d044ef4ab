//! Handing out workstation configurations: which address a workstation
//! gets, the texts around it, user name checks, and decoy answers.

use vstd::prelude::*;
use vstd::string::*;
use crate::decimal::{decimal, is_digit, lemma_decimal, push_decimal};
use crate::entries::{entry_line_spec, first_field, first_of_pair, lemma_entry_line_roundtrip, without_char};
use crate::ipv4::{
    all_ipv4, dotted, format_ipv4, find_last_ipv4, ipv4_key, is_last_highest, lemma_dotted_parses,
    lemma_next_workstation_is_later, next_workstation_ipv4, next_workstation_spec,
    parse_ipv4_spec, Octets,
};
use crate::keys::{base64_spec, generate_wireguard_keys, is_clamped_secret, x25519_public_key};
use crate::random::{is_alphanumeric, random_byte, random_name, random_word};
use crate::text::{push_char, views};

verus! {

/// The pattern a workstation's user name must match.
pub const FILE_NAME_PATTERN: &'static str = "^[a-zA-Z0-9 -\\.]{3,}$";

/// A character the user-name pattern allows: an ASCII letter or digit, or
/// one of the characters from space to `.` (` !"#$%&'()*+,-.`).
pub open spec fn is_name_char(c: char) -> bool {
    ||| ('a' <= c && c <= 'z')
    ||| ('A' <= c && c <= 'Z')
    ||| ('0' <= c && c <= '9')
    ||| (' ' <= c && c <= '.')
}

/// What `FILE_NAME_PATTERN` accepts: the whole text (`^`...`$`) is at least
/// three characters (`{3,}`) of the class `[a-zA-Z0-9 -\.]`.
pub open spec fn is_valid_name_spec(name: Seq<char>) -> bool {
    name.len() >= 3 && forall|i: int| 0 <= i < name.len() ==> is_name_char(#[trigger] name[i])
}

#[verifier::external_type_specification]
#[verifier::external_body]
pub struct ExRegexError(regex::Error);

/// `regex::Regex::new(pattern)` and, when that succeeds, `is_match(text)`
/// on the compiled pattern. Stated for `FILE_NAME_PATTERN` alone, as the
/// regex documentation reads it: the pattern compiles, and it matches
/// exactly the texts described by `is_valid_name_spec`. Of any other
/// pattern nothing is stated.
#[verifier::external_body]
fn regex_is_match(pattern: &str, text: &str) -> (r: Result<bool, regex::Error>)
    ensures
        pattern@ == FILE_NAME_PATTERN@ ==> r is Ok,
        r matches Ok(b) ==> (pattern@ == FILE_NAME_PATTERN@ ==> b == is_valid_name_spec(text@)),
{
    match regex::Regex::new(pattern) {
        Ok(re) => Ok(re.is_match(text)),
        Err(e) => Err(e),
    }
}

/// Whether `user_name` may name a workstation: it must match
/// `FILE_NAME_PATTERN`.
pub fn is_valid_user_name(user_name: &str) -> (r: bool)
    ensures
        r == is_valid_name_spec(user_name@),
{
    match regex_is_match(FILE_NAME_PATTERN, user_name) {
        Ok(b) => b,
        Err(_) => false,
    }
}

/// A name that passes the check stays inside the entry directory as a file
/// name: it holds no `/`, and it is neither `.` nor `..`.
pub proof fn lemma_valid_name_is_plain_file_name(name: Seq<char>)
    requires
        is_valid_name_spec(name),
    ensures
        forall|i: int| 0 <= i < name.len() ==> name[i] != '/',
        name != seq!['.'],
        name != seq!['.', '.'],
{
    assert forall|i: int| 0 <= i < name.len() implies name[i] != '/' by {
        assert(is_name_char(name[i]));
    }
}

/// The router's address in the main network: `<main_net>.1.1`.
pub open spec fn router_address_spec(main_net: Seq<char>) -> Seq<char> {
    main_net + seq!['.', '1', '.', '1']
}

/// The highest address of a non-empty list (the last one where several are
/// equal).
pub open spec fn highest_ipv4(v: Seq<Seq<char>>) -> Seq<char> {
    v[choose|i: int| is_last_highest(v, i)]
}

/// The address a workstation gets: the one in its existing entry line, if
/// it has one; else the one after the highest address in use, or after the
/// router's when none is in use. `None` when the address pool is exhausted.
pub open spec fn allocation_spec(
    existing_entry: Option<Seq<char>>,
    used: Seq<Seq<char>>,
    main_net: Seq<char>,
) -> Option<Seq<char>> {
    match existing_entry {
        Some(line) => Some(without_char(first_field(line), '\n')),
        None => next_workstation_spec(
            if used.len() == 0 {
                router_address_spec(main_net)
            } else {
                highest_ipv4(used)
            },
        ),
    }
}

/// `<main_net>.1.1`.
pub fn router_ip_address(main_net: &str) -> (r: String)
    ensures
        r@ == router_address_spec(main_net@),
{
    let mut r = String::new();
    r.append(main_net);
    push_char(&mut r, '.');
    push_char(&mut r, '1');
    push_char(&mut r, '.');
    push_char(&mut r, '1');
    assert(r@ =~= router_address_spec(main_net@));
    r
}

proof fn lemma_last_highest_unique(v: Seq<Seq<char>>, i: int, j: int)
    requires
        is_last_highest(v, i),
        is_last_highest(v, j),
    ensures
        i == j,
{
    if i < j {
        assert(ipv4_key(v[j]) < ipv4_key(v[i]));
        assert(ipv4_key(v[i]) <= ipv4_key(v[j]));
    } else if j < i {
        assert(ipv4_key(v[i]) < ipv4_key(v[j]));
        assert(ipv4_key(v[j]) <= ipv4_key(v[i]));
    }
}

/// Picks the address of a workstation: `existing_entry` is the content of
/// its entry file if there is one, `used_ipv4s` the addresses of all entry
/// files. `None` means the pool is exhausted.
pub fn allocate_workstation_ipv4(
    existing_entry: Option<String>,
    used_ipv4s: Vec<String>,
    main_net: &str,
) -> (r: Option<String>)
    requires
        existing_entry is None ==> (used_ipv4s.len() <= 1 || all_ipv4(views(used_ipv4s@))),
    ensures
        r is Some <==> allocation_spec(existing_entry.deep_view(), views(used_ipv4s@), main_net@) is Some,
        r matches Some(x) ==> allocation_spec(existing_entry.deep_view(), views(used_ipv4s@), main_net@) == Some(x@),
{
    match existing_entry {
        Some(line) => first_of_pair(line),
        None => {
            let ghost v = views(used_ipv4s@);
            let n = used_ipv4s.len();
            let last = match find_last_ipv4(used_ipv4s) {
                Some(ipv4) => {
                    proof {
                        let i = choose|i: int| is_last_highest(v, i) && ipv4@ == v[i];
                        let j = choose|j: int| is_last_highest(v, j);
                        lemma_last_highest_unique(v, i, j);
                    }
                    ipv4
                },
                None => router_ip_address(main_net),
            };
            next_workstation_ipv4(last.as_str())
        },
    }
}

/// A workstation without an entry gets an address that is no address in
/// use: it comes after all of them. It is an address in the strict syntax,
/// with a last octet from 2 to 254.
pub proof fn lemma_allocated_address_is_fresh(used: Seq<Seq<char>>, main_net: Seq<char>)
    requires
        all_ipv4(used),
    ensures
        allocation_spec(None, used, main_net) matches Some(x) ==> {
            &&& parse_ipv4_spec(x) matches Some(o) && 2 <= o.3 <= 254
            &&& forall|k: int| 0 <= k < used.len() ==> ipv4_key(#[trigger] used[k]) < ipv4_key(x)
            &&& !used.contains(x)
        },
{
    if let Some(x) = allocation_spec(None, used, main_net) {
        lemma_next_is_dotted(
            if used.len() == 0 {
                router_address_spec(main_net)
            } else {
                highest_ipv4(used)
            },
        );
        if used.len() > 0 {
            let h = highest_ipv4(used);
            assert(exists|i: int| is_last_highest(used, i)) by {
                lemma_some_last_highest(used);
            }
            let i = choose|i: int| is_last_highest(used, i);
            assert(parse_ipv4_spec(used[i]) is Some);
            lemma_next_workstation_is_later(h);
            assert forall|k: int| 0 <= k < used.len() implies ipv4_key(#[trigger] used[k])
                < ipv4_key(x) by {
                assert(ipv4_key(used[k]) <= ipv4_key(used[i]));
            }
            if used.contains(x) {
                let k = choose|k: int| 0 <= k < used.len() && used[k] == x;
                assert(ipv4_key(used[k]) < ipv4_key(x));
            }
        }
    }
}

/// Whatever string it follows, a next workstation address is dotted
/// decimal with a last octet from 2 to 254.
proof fn lemma_next_is_dotted(s: Seq<char>)
    ensures
        next_workstation_spec(s) matches Some(x) ==> (parse_ipv4_spec(x) matches Some(o) && 2 <= o.3
            <= 254),
{
    if let Some(x) = next_workstation_spec(s) {
        let p = crate::text::split_seq(s, '.');
        let o: Octets = (
            crate::ipv4::octet_or_one(p[0]),
            crate::ipv4::octet_or_one(p[1]),
            crate::ipv4::octet_or_one(p[2]),
            crate::ipv4::octet_or_one(p[3]),
        );
        if o.3 == 0 {
            lemma_dotted_parses((o.0, o.1, o.2, 2));
        } else {
            lemma_dotted_parses((o.0, o.1, o.2, (o.3 + 1) as u8));
        }
    }
}

/// A non-empty list has a last highest position.
proof fn lemma_some_last_highest(v: Seq<Seq<char>>)
    requires
        v.len() > 0,
    ensures
        exists|i: int| is_last_highest(v, i),
    decreases v.len(),
{
    if v.len() == 1 {
        assert(is_last_highest(v, 0));
    } else {
        let w = v.drop_last();
        lemma_some_last_highest(w);
        let i = choose|i: int| is_last_highest(w, i);
        let l = v.len() - 1;
        if ipv4_key(v[l]) >= ipv4_key(w[i]) {
            assert forall|j: int| 0 <= j < v.len() implies ipv4_key(#[trigger] v[j]) <= ipv4_key(v[l]) by {
                if j < l {
                    assert(v[j] == w[j]);
                }
            }
            assert(is_last_highest(v, l));
        } else {
            assert forall|j: int| 0 <= j < v.len() implies ipv4_key(#[trigger] v[j]) <= ipv4_key(v[i]) by {
                if j < l {
                    assert(v[j] == w[j]);
                }
            }
            assert forall|j: int| i < j < v.len() implies ipv4_key(#[trigger] v[j]) < ipv4_key(v[i]) by {
                if j < l {
                    assert(v[j] == w[j]);
                }
            }
            assert(is_last_highest(v, i));
        }
    }
}

/// `<host>:<port>`.
pub open spec fn endpoint_spec(host: Seq<char>, port: u16) -> Seq<char> {
    host + seq![':'] + decimal(port as nat)
}

/// The server's endpoint as a client dials it: `<host>:<port>`.
pub fn endpoint(host: &str, port: u16) -> (r: String)
    ensures
        r@ == endpoint_spec(host@, port),
{
    let mut r = String::new();
    r.append(host);
    push_char(&mut r, ':');
    push_decimal(&mut r, port as u32);
    r
}

/// The networks a workstation reaches through the tunnel: its address
/// followed by the main network's mask.
pub fn user_nets(user_ipv4: &str, net_mask: &str) -> (r: String)
    ensures
        r@ == user_ipv4@ + net_mask@,
{
    let mut r = String::new();
    r.append(user_ipv4);
    r.append(net_mask);
    r
}

/// The server's configuration: its head, two empty lines, the peer
/// sections, and a closing line break.
pub fn server_configuration(head: &str, entries: &str) -> (r: String)
    ensures
        r@ == head@ + seq!['\n', '\n', '\n'] + entries@ + seq!['\n'],
{
    let mut r = String::new();
    r.append(head);
    push_char(&mut r, '\n');
    push_char(&mut r, '\n');
    push_char(&mut r, '\n');
    r.append(entries);
    push_char(&mut r, '\n');
    r
}

/// The networks of a decoy workstation: a made-up address and a prefix
/// length from 9 to 40 taken from `m`.
pub open spec fn decoy_nets_spec(o: Octets, m: u8) -> Seq<char> {
    dotted(o) + seq!['/'] + decimal((m % 32 + 9) as nat)
}

/// What a decoy answer shows: a made-up workstation.
pub struct DecoyProfile {
    pub user_name: String,
    pub user_private_key: String,
    pub user_nets: String,
    pub default_server_endpoint: String,
}

/// The decoy made of given draws: the name and private key as given, the
/// address `address` with prefix length `mask_byte % 32 + 9`, and the
/// server's public address with port `port`.
pub fn decoy_from_draws(
    server_public_ip: &str,
    user_name: String,
    user_private_key: String,
    address: Octets,
    mask_byte: u8,
    port: u16,
) -> (d: DecoyProfile)
    ensures
        d.user_name@ == user_name@,
        d.user_private_key@ == user_private_key@,
        d.user_nets@ == decoy_nets_spec(address, mask_byte),
        d.default_server_endpoint@ == endpoint_spec(server_public_ip@, port),
{
    let mut nets = format_ipv4(address);
    push_char(&mut nets, '/');
    push_decimal(&mut nets, (mask_byte % 32 + 9) as u32);
    assert(nets@ =~= decoy_nets_spec(address, mask_byte));
    let default_server_endpoint = endpoint(server_public_ip, port);
    DecoyProfile { user_name, user_private_key, user_nets: nets, default_server_endpoint }
}

/// A made-up workstation for an answer that gives nothing away: a random
/// ten-character name, a fresh private key, a random address with a random
/// prefix length, and the server's public address with a random port.
pub fn decoy_profile(server_public_ip: &str) -> (d: DecoyProfile)
    ensures
        d.user_name@.len() == 10,
        forall|i: int| 0 <= i < 10 ==> is_alphanumeric(#[trigger] d.user_name@[i]),
        exists|k: Seq<u8>|
            #![trigger base64_spec(k)]
            is_clamped_secret(k) && d.user_private_key@ == base64_spec(k),
        exists|o: Octets, m: u8|
            #![trigger decoy_nets_spec(o, m)]
            2 <= o.0 < 254 && 2 <= o.1 < 254 && 2 <= o.2 < 254 && 2 <= o.3 < 254 && 2 <= m < 254
                && d.user_nets@ == decoy_nets_spec(o, m),
        exists|w: u16|
            #![trigger endpoint_spec(server_public_ip@, w)]
            966 <= w < 65535 && d.default_server_endpoint@ == endpoint_spec(server_public_ip@, w),
{
    let (private_key, _public_key) = generate_wireguard_keys();
    let address: Octets = (random_byte(), random_byte(), random_byte(), random_byte());
    let mask_byte = random_byte();
    let user_name = random_name(10);
    let port = random_word();
    proof {
        let k = choose|k: Seq<u8>|
            #![trigger x25519_public_key(k)]
            is_clamped_secret(k) && x25519_public_key(k).len() == 32 && private_key@ == base64_spec(k)
                && _public_key@ == base64_spec(x25519_public_key(k));
        assert(is_clamped_secret(k) && private_key@ == base64_spec(k));
    }
    let d = decoy_from_draws(server_public_ip, user_name, private_key, address, mask_byte, port);
    assert(d.user_nets@ == decoy_nets_spec(address, mask_byte));
    assert(d.default_server_endpoint@ == endpoint_spec(server_public_ip@, port));
    d
}

/// A workstation whose entry line is already stored keeps the address in
/// it: the line `<address>,<key>` is read back as `<address>`.
pub proof fn lemma_existing_entry_keeps_address(
    ipv4: Seq<char>,
    public_key: Seq<char>,
    used: Seq<Seq<char>>,
    main_net: Seq<char>,
)
    requires
        forall|i: int| 0 <= i < ipv4.len() ==> ipv4[i] != ',' && ipv4[i] != '\n',
        forall|i: int| 0 <= i < public_key.len() ==> public_key[i] != ',',
    ensures
        allocation_spec(Some(entry_line_spec(ipv4, public_key)), used, main_net) == Some(ipv4),
{
    lemma_entry_line_roundtrip(ipv4, public_key);
}

/// Dotted decimal holds only digits and dots.
proof fn lemma_dotted_chars(o: Octets)
    ensures
        forall|i: int| 0 <= i < dotted(o).len() ==> is_digit(#[trigger] dotted(o)[i]) || dotted(o)[i] == '.',
{
    lemma_decimal(o.0 as nat);
    lemma_decimal(o.1 as nat);
    lemma_decimal(o.2 as nat);
    lemma_decimal(o.3 as nat);
    let d = dotted(o);
    assert forall|i: int| 0 <= i < d.len() implies is_digit(#[trigger] d[i]) || d[i] == '.' by {
        let (a, b, c, e) = (decimal(o.0 as nat), decimal(o.1 as nat), decimal(o.2 as nat), decimal(o.3 as nat));
        if i < a.len() {
            assert(d[i] == a[i]);
        } else if i == a.len() {
        } else if i < a.len() + 1 + b.len() {
            assert(d[i] == b[i - a.len() - 1]);
        } else if i == a.len() + 1 + b.len() {
        } else if i < a.len() + 2 + b.len() + c.len() {
            assert(d[i] == c[i - a.len() - 2 - b.len()]);
        } else if i == a.len() + 2 + b.len() + c.len() {
        } else {
            assert(d[i] == e[i - a.len() - 3 - b.len() - c.len()]);
        }
    }
}

/// An address handed out to a new workstation and stored with its public
/// key is handed out again to the same workstation on its next request.
pub proof fn lemma_stored_address_is_kept(
    used: Seq<Seq<char>>,
    main_net: Seq<char>,
    public_key: Seq<char>,
    later_used: Seq<Seq<char>>,
    later_main_net: Seq<char>,
)
    requires
        forall|i: int| 0 <= i < public_key.len() ==> public_key[i] != ',',
    ensures
        allocation_spec(None, used, main_net) matches Some(x) ==> allocation_spec(
            Some(entry_line_spec(x, public_key)),
            later_used,
            later_main_net,
        ) == Some(x),
{
    if let Some(x) = allocation_spec(None, used, main_net) {
        lemma_next_is_dotted(
            if used.len() == 0 {
                router_address_spec(main_net)
            } else {
                highest_ipv4(used)
            },
        );
        let o = parse_ipv4_spec(x)->0;
        crate::ipv4::lemma_ipv4_is_dotted(x);
        lemma_dotted_chars(o);
        assert forall|i: int| 0 <= i < x.len() implies x[i] != ',' && x[i] != '\n' by {
            assert(is_digit(dotted(o)[i]) || dotted(o)[i] == '.');
        }
        lemma_existing_entry_keeps_address(x, public_key, later_used, later_main_net);
    }
}

/// With no entry and no address in use, a workstation gets the address
/// that follows the router's address `<main_net>.1.1` of the configured
/// network; when `<main_net>.1.1` is an address, that is `<main_net>.1.2`.
pub proof fn lemma_first_address_follows_router(main_net: Seq<char>)
    ensures
        allocation_spec(None, Seq::empty(), main_net) == next_workstation_spec(
            main_net + seq!['.', '1', '.', '1'],
        ),
        parse_ipv4_spec(main_net + seq!['.', '1', '.', '1']) is Some ==> allocation_spec(
            None,
            Seq::empty(),
            main_net,
        ) == Some(main_net + seq!['.', '1', '.', '2']),
{
    let t = main_net + seq!['.', '1', '.', '1'];
    assert(router_address_spec(main_net) =~= t);
    if parse_ipv4_spec(t) is Some {
        let o = parse_ipv4_spec(t)->0;
        crate::ipv4::lemma_ipv4_is_dotted(t);
        lemma_next_workstation_is_later(t);
        let r = next_workstation_spec(t)->0;
        lemma_decimal(o.3 as nat);
        lemma_decimal(o.2 as nat);
        // the last piece of `t` is `1`: t ends in `.1` and dotted(o) ends in `.` + decimal(o.3)
        let x = decimal(o.0 as nat) + seq!['.'] + decimal(o.1 as nat);
        assert(dotted(o) =~= x + seq!['.'] + decimal(o.2 as nat) + seq!['.'] + decimal(o.3 as nat));
        assert(decimal(o.3 as nat).len() == 1) by {
            if decimal(o.3 as nat).len() > 1 {
                let d = decimal(o.3 as nat);
                assert(t[t.len() - 2] == d[d.len() - 2]);
                assert(is_digit(d[d.len() - 2]));
            }
        }
        assert(decimal(o.3 as nat)[0] == t[t.len() - 1]);
        assert(o.3 == 1);
        assert(decimal(o.2 as nat).len() == 1) by {
            if decimal(o.2 as nat).len() > 1 {
                let d = decimal(o.2 as nat);
                assert(t[t.len() - 4] == d[d.len() - 2]);
                assert(is_digit(d[d.len() - 2]));
            }
        }
        assert(decimal(o.2 as nat)[0] == t[t.len() - 3]);
        assert(o.2 == 1);
        assert(decimal(o.2 as nat) =~= seq!['1']);
        assert(decimal(o.3 as nat) =~= seq!['1']);
        assert(t =~= x + seq!['.', '1', '.', '1']);
        assert(main_net.len() == x.len());
        assert forall|i: int| 0 <= i < main_net.len() implies main_net[i] == x[i] by {
            assert(main_net[i] == t[i]);
            assert(x[i] == t[i]);
        }
        assert(main_net =~= x);
        let n = parse_ipv4_spec(r)->0;
        crate::ipv4::lemma_ipv4_is_dotted(r);
        assert(n == (o.0, o.1, 1u8, 2u8));
        assert(decimal(1) == seq!['1']);
        assert(decimal(2) == seq!['2']);
        assert(r =~= main_net + seq!['.', '1', '.', '2']);
    }
}

} // verus!
