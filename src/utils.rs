//! Hashing of text.

use std::collections::hash_map::DefaultHasher;
use std::hash::Hasher;

use vstd::prelude::*;
use vstd::std_specs::hash::DefaultHasherAdditionalSpecFns;
use vstd::utf8::encode_utf8;

verus! {

/// The digest that a fresh `DefaultHasher` gives for a string: the hasher
/// is fed the string's UTF-8 bytes, then the terminating byte `0xff`, as
/// `str`'s `Hash` impl does.
pub open spec fn text_hash(s: Seq<char>) -> u64 {
    DefaultHasher::spec_finish(seq![encode_utf8(s), seq![0xffu8]])
}

/// The `DefaultHasher` digest of `value`; equal strings give equal digests.
pub fn hash(value: &str) -> (r: u64)
    ensures
        r == text_hash(value@),
{
    let mut state = DefaultHasher::new();
    state.write(value.as_bytes());
    let terminator: Vec<u8> = vec![0xffu8];
    assert(terminator@ =~= seq![0xffu8]);
    state.write(terminator.as_slice());
    let r = state.finish();
    assert(state@ =~= seq![encode_utf8(value@), seq![0xffu8]]);
    r
}

} // verus!
