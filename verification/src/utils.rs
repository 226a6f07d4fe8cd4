//! Small byte-sequence helpers and randomised identifier generation.

use vstd::prelude::*;

verus! {

/// Copies `length` bytes of `src` starting at `offset` into a fresh vector.
pub fn copy_range(src: &Vec<u8>, offset: usize, length: usize) -> (v: Vec<u8>)
    requires
        offset + length <= src@.len(),
    ensures
        v@ == src@.subrange(offset as int, offset as int + length as int),
{
    let n: usize = src.len();
    let mut v: Vec<u8> = Vec::new();
    let mut i: usize = 0;
    while i < length
        invariant
            i <= length,
            offset + length <= src@.len(),
            src@.len() <= usize::MAX,
            v@ == src@.subrange(offset as int, offset as int + i as int),
        decreases length - i,
    {
        v.push(src[offset + i]);
        proof {
            assert(src@.subrange(offset as int, offset as int + i as int + 1) =~= src@.subrange(
                offset as int,
                offset as int + i as int,
            ).push(src@[offset as int + i as int]));
        }
        i = i + 1;
    }
    v
}

/// Copies a byte vector, preserving its contents.
pub fn clone_bytes(v: &Vec<u8>) -> (r: Vec<u8>)
    ensures
        r@ == v@,
{
    let r = copy_range(v, 0, v.len());
    proof {
        assert(v@.subrange(0, v@.len() as int) =~= v@);
    }
    r
}

/// Compares two byte vectors by contents.
pub fn bytes_eq(a: &Vec<u8>, b: &Vec<u8>) -> (r: bool)
    ensures
        r == (a@ == b@),
{
    if a.len() != b.len() {
        return false;
    }
    let mut i: usize = 0;
    while i < a.len()
        invariant
            i <= a@.len(),
            a@.len() == b@.len(),
            forall|j: int| 0 <= j < i ==> a@[j] == b@[j],
        decreases a@.len() - i,
    {
        if a[i] != b[i] {
            return false;
        }
        i = i + 1;
    }
    proof {
        assert(a@ =~= b@);
    }
    true
}

/// Relies on rand::random: draws a value of the requested type; nothing is
/// promised of the outcome.
pub assume_specification<T>[ rand::random::<T> ]() -> (r: T)
    where
        rand::distributions::Standard: rand::distributions::Distribution<T>,
;

/// Relies on String::push: appends the given character at the end.
#[verifier::external_body]
fn push_char(s: &mut String, c: char)
    ensures
        final(s)@ == old(s)@.push(c),
{
    s.push(c);
}

/// Builds a string of `length` randomly drawn characters.
pub fn generate_random_string(length: usize) -> (r: String)
    ensures
        r@.len() == length,
{
    let mut s = String::new();
    let mut i: usize = 0;
    while i < length
        invariant
            i <= length,
            s@.len() == i,
        decreases length - i,
    {
        let c: char = rand::random::<char>();
        push_char(&mut s, c);
        i = i + 1;
    }
    s
}

/// Draws a random four-digit pin.
pub fn generate_random_pin() -> (r: u32)
    ensures
        r < 10000,
{
    let x: u32 = rand::random::<u32>();
    x % 10000
}

} // verus!
