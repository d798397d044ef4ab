//! Random names, bytes and port numbers for decoy answers.

use vstd::prelude::*;
use rand::distributions::Alphanumeric;
use rand::{thread_rng, Rng};
use crate::text::push_char;

verus! {

/// An ASCII letter or digit.
pub open spec fn is_alphanumeric(c: char) -> bool {
    ||| ('A' <= c && c <= 'Z')
    ||| ('a' <= c && c <= 'z')
    ||| ('0' <= c && c <= '9')
}

/// `thread_rng().gen_range(low, high)`: a number from `low` up to, not
/// including, `high`. Which one is left open.
#[verifier::external_body]
fn random_in_range(low: u32, high: u32) -> (r: u32)
    requires
        low < high,
    ensures
        low <= r < high,
{
    thread_rng().gen_range(low, high)
}

/// `thread_rng().sample(Alphanumeric)`: an ASCII letter or digit. Which one
/// is left open.
#[verifier::external_body]
fn random_alphanumeric() -> (c: char)
    ensures
        is_alphanumeric(c),
{
    thread_rng().sample(Alphanumeric)
}

/// A random name of `length` ASCII letters and digits.
pub fn random_name(length: usize) -> (name: String)
    ensures
        name@.len() == length,
        forall|i: int| 0 <= i < length ==> is_alphanumeric(#[trigger] name@[i]),
{
    let mut name = String::new();
    let mut i: usize = 0;
    while i < length
        invariant
            i <= length,
            name@.len() == i,
            forall|j: int| 0 <= j < i ==> is_alphanumeric(#[trigger] name@[j]),
        decreases length - i,
    {
        let c = random_alphanumeric();
        push_char(&mut name, c);
        i += 1;
    }
    name
}

/// A random byte from 2 to 253.
pub fn random_byte() -> (b: u8)
    ensures
        2 <= b < 254,
{
    random_in_range(2, 254) as u8
}

/// A random port number from 966 to 65534.
pub fn random_word() -> (w: u16)
    ensures
        966 <= w < 65535,
{
    random_in_range(966, 65535) as u16
}

} // verus!
