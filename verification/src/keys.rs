//! WireGuard key pairs: a fresh x25519 secret, its public key, and both in
//! standard padded base64.

use vstd::prelude::*;
use rand_core::OsRng;
use x25519_dalek::{PublicKey, StaticSecret};

verus! {

/// The base64 digit of a six-bit value.
pub open spec fn base64_digit(n: int) -> char {
    if n < 26 {
        (n + 65) as char
    } else if n < 52 {
        (n - 26 + 97) as char
    } else if n < 62 {
        (n - 52 + 48) as char
    } else if n == 62 {
        '+'
    } else {
        '/'
    }
}

/// Standard base64 with `=` padding: every three bytes become four digits,
/// a final one or two bytes become two or three digits and padding.
pub open spec fn base64_spec(b: Seq<u8>) -> Seq<char>
    decreases b.len(),
{
    if b.len() == 0 {
        Seq::empty()
    } else if b.len() == 1 {
        seq![base64_digit((b[0] as int) / 4), base64_digit(((b[0] as int) % 4) * 16), '=', '=']
    } else if b.len() == 2 {
        seq![
            base64_digit((b[0] as int) / 4),
            base64_digit(((b[0] as int) % 4) * 16 + (b[1] as int) / 16),
            base64_digit(((b[1] as int) % 16) * 4),
            '=',
        ]
    } else {
        seq![
            base64_digit((b[0] as int) / 4),
            base64_digit(((b[0] as int) % 4) * 16 + (b[1] as int) / 16),
            base64_digit(((b[1] as int) % 16) * 4 + (b[2] as int) / 64),
            base64_digit((b[2] as int) % 64),
        ] + base64_spec(b.skip(3))
    }
}

/// A character of the base64 alphabet or its padding.
pub open spec fn is_base64_char(c: char) -> bool {
    ||| ('A' <= c && c <= 'Z')
    ||| ('a' <= c && c <= 'z')
    ||| ('0' <= c && c <= '9')
    ||| c == '+'
    ||| c == '/'
    ||| c == '='
}

/// A 32-byte x25519 secret as `StaticSecret` keeps it: the low three bits
/// of the first byte cleared, the top bit of the last byte cleared and the
/// bit below it set.
pub open spec fn is_clamped_secret(k: Seq<u8>) -> bool {
    &&& k.len() == 32
    &&& k[0] % 8 == 0
    &&& 64 <= k[31] < 128
}

/// The x25519 public key (Curve25519 base point times the clamped scalar)
/// of a 32-byte secret.
pub uninterp spec fn x25519_public_key(secret: Seq<u8>) -> Seq<u8>;

/// `base64::encode`: the standard alphabet with `=` padding.
#[verifier::external_body]
fn base64_encode(bytes: &[u8]) -> (r: String)
    ensures
        r@ == base64_spec(bytes@),
{
    base64::encode(bytes)
}

/// `StaticSecret::new(&mut OsRng).to_bytes()`: 32 bytes from the operating
/// system's random source, clamped. Which bytes come is left open.
#[verifier::external_body]
fn random_static_secret() -> (secret: Vec<u8>)
    ensures
        is_clamped_secret(secret@),
{
    StaticSecret::new(&mut OsRng).to_bytes().to_vec()
}

/// `PublicKey::from(&StaticSecret::from(secret))`: the public key of the
/// secret, 32 bytes.
#[verifier::external_body]
fn public_key_of(secret: &Vec<u8>) -> (public: Vec<u8>)
    requires
        secret@.len() == 32,
    ensures
        public@ == x25519_public_key(secret@),
        public@.len() == 32,
{
    let bytes: [u8; 32] = secret.as_slice().try_into().unwrap();
    PublicKey::from(&StaticSecret::from(bytes)).as_bytes().to_vec()
}

/// The private and the public key of `secret`, in base64.
pub fn wireguard_keys_from_secret(secret: &Vec<u8>) -> (keys: (String, String))
    requires
        secret@.len() == 32,
    ensures
        keys.0@ == base64_spec(secret@),
        keys.1@ == base64_spec(x25519_public_key(secret@)),
        x25519_public_key(secret@).len() == 32,
        keys.0@.len() == 44,
        keys.1@.len() == 44,
{
    let private_b64 = base64_encode(secret.as_slice());
    let public = public_key_of(secret);
    let public_b64 = base64_encode(public.as_slice());
    proof {
        lemma_base64_shape(secret@);
        lemma_base64_shape(public@);
    }
    (private_b64, public_b64)
}

/// A fresh key pair: the private and the public key, in base64.
pub fn generate_wireguard_keys() -> (keys: (String, String))
    ensures
        exists|secret: Seq<u8>|
            #![trigger x25519_public_key(secret)]
            is_clamped_secret(secret) && x25519_public_key(secret).len() == 32 && keys.0@
                == base64_spec(secret) && keys.1@ == base64_spec(x25519_public_key(secret)),
        keys.0@.len() == 44,
        keys.1@.len() == 44,
{
    let secret = random_static_secret();
    let keys = wireguard_keys_from_secret(&secret);
    assert(is_clamped_secret(secret@) && x25519_public_key(secret@).len() == 32 && keys.0@
        == base64_spec(secret@) && keys.1@ == base64_spec(x25519_public_key(secret@)));
    keys
}

/// Base64 text is four digits for every started group of three bytes, all
/// from the base64 alphabet (so never a comma or a line break).
pub proof fn lemma_base64_shape(b: Seq<u8>)
    ensures
        base64_spec(b).len() == (b.len() + 2) / 3 * 4,
        forall|i: int| 0 <= i < base64_spec(b).len() ==> is_base64_char(#[trigger] base64_spec(b)[i]),
    decreases b.len(),
{
    if b.len() >= 3 {
        lemma_base64_shape(b.skip(3));
        let head = seq![
            base64_digit((b[0] as int) / 4),
            base64_digit(((b[0] as int) % 4) * 16 + (b[1] as int) / 16),
            base64_digit(((b[1] as int) % 16) * 4 + (b[2] as int) / 64),
            base64_digit((b[2] as int) % 64),
        ];
        let s = base64_spec(b);
        assert(s == head + base64_spec(b.skip(3)));
        assert forall|i: int| 0 <= i < s.len() implies is_base64_char(#[trigger] s[i]) by {
            if i >= 4 {
                assert(s[i] == base64_spec(b.skip(3))[i - 4]);
            }
        }
    }
}

} // verus!
