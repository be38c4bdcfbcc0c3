//! The byte string under which a placement is stored.
//!
//! Layout: one tag byte for the namespace type, the namespace length as a
//! big-endian machine word, the namespace bytes, the key bytes.

use vstd::prelude::*;
use vstd::arithmetic::power::pow;
use crate::placement::{NamespaceType, Placement, PlacementView};

verus! {

/// Number of bytes in a machine word, the width of the length prefix.
pub open spec fn word_bytes() -> nat {
    (usize::BITS / 8) as nat
}

/// The `width` low-order base-256 digits of `n`, most significant first.
pub open spec fn be_bytes(n: nat, width: nat) -> Seq<u8>
    decreases width,
{
    if width == 0 {
        Seq::empty()
    } else {
        be_bytes(n / 256, (width - 1) as nat).push((n % 256) as u8)
    }
}

/// The number that `bytes` spell as base-256 digits, most significant first.
pub open spec fn be_value(bytes: Seq<u8>) -> nat
    decreases bytes.len(),
{
    if bytes.len() == 0 {
        0
    } else {
        be_value(bytes.drop_last()) * 256 + bytes.last() as nat
    }
}

/// The tag byte of a namespace type.
pub open spec fn namespace_tag(namespace_type: NamespaceType) -> u8 {
    match namespace_type {
        NamespaceType::User => 0,
        NamespaceType::System => 1,
    }
}

/// The encoded storage key of a placement.
pub open spec fn storage_key(placement: PlacementView) -> Seq<u8> {
    seq![namespace_tag(placement.namespace_type)] + be_bytes(
        placement.namespace.len(),
        word_bytes(),
    ) + placement.namespace + placement.key
}

/// `be_bytes` yields exactly `width` bytes.
pub proof fn lemma_be_bytes_len(n: nat, width: nat)
    ensures
        be_bytes(n, width).len() == width,
    decreases width,
{
    if width > 0 {
        lemma_be_bytes_len(n / 256, (width - 1) as nat);
    }
}

/// Reading back what `be_bytes` wrote gives the number, as long as the
/// number has no more than `width` digits.
pub proof fn lemma_be_value_of_be_bytes(n: nat, width: nat)
    requires
        n < pow(256, width),
    ensures
        be_value(be_bytes(n, width)) == n,
    decreases width,
{
    reveal(pow);
    if width > 0 {
        let shorter: Seq<u8> = be_bytes(n / 256, (width - 1) as nat);
        assert(be_bytes(n, width).drop_last() =~= shorter);
        lemma_be_value_of_be_bytes(n / 256, (width - 1) as nat);
    }
}

/// Every machine word has at most `word_bytes()` base-256 digits.
pub proof fn lemma_word_bound()
    ensures
        usize::MAX < pow(256, word_bytes()),
{
    reveal_with_fuel(pow, 9);
}

/// Key injectivity: two representable placements have the same storage key
/// only if they agree in namespace type, namespace and key.
pub proof fn lemma_storage_key_injective(p: PlacementView, q: PlacementView)
    requires
        p.representable(),
        q.representable(),
    ensures
        storage_key(p) == storage_key(q) <==> p == q,
{
    if storage_key(p) == storage_key(q) {
        let width: nat = word_bytes();
        let encoded: Seq<u8> = storage_key(p);
        let p_len: nat = p.namespace.len();
        let q_len: nat = q.namespace.len();
        let names_at: int = 1 + width as int;
        lemma_be_bytes_len(p_len, width);
        lemma_be_bytes_len(q_len, width);
        assert(namespace_tag(p.namespace_type) == encoded[0] == namespace_tag(q.namespace_type));
        assert(be_bytes(p_len, width) =~= encoded.subrange(1, names_at));
        assert(be_bytes(q_len, width) =~= encoded.subrange(1, names_at));
        lemma_word_bound();
        lemma_be_value_of_be_bytes(p_len, width);
        lemma_be_value_of_be_bytes(q_len, width);
        assert(p.namespace =~= encoded.subrange(names_at, names_at + p_len));
        assert(q.namespace =~= encoded.subrange(names_at, names_at + q_len));
        assert(p.key =~= encoded.subrange(names_at + p_len, encoded.len() as int));
        assert(q.key =~= encoded.subrange(names_at + q_len, encoded.len() as int));
    }
}

/// The big-endian bytes of a machine word.
pub fn word_to_be_bytes(n: usize) -> (bytes: Vec<u8>)
    ensures
        bytes@ == be_bytes(n as nat, word_bytes()),
{
    let width: usize = (usize::BITS / 8) as usize;
    let mut bytes: Vec<u8> = Vec::new();
    let mut filled: usize = 0;
    while filled < width
        invariant
            filled <= width,
            bytes@.len() == filled,
        decreases width - filled,
    {
        bytes.push(0);
        filled = filled + 1;
    }
    let mut rest: usize = n;
    let mut i: usize = width;
    while i > 0
        invariant
            i <= width,
            width == word_bytes(),
            bytes@.len() == width,
            be_bytes(n as nat, width as nat) == be_bytes(rest as nat, i as nat) + bytes@.subrange(
                i as int,
                width as int,
            ),
        decreases i,
    {
        i = i - 1;
        bytes.set(i, (rest % 256) as u8);
        rest = rest / 256;
    }
    bytes
}

/// Encodes a placement into its storage key.
pub fn contruct_storage_key(placement: &Placement) -> (key: Vec<u8>)
    ensures
        key@ == storage_key(placement@),
{
    let mut key: Vec<u8> = Vec::new();
    key.push(
        match placement.namespace_type {
            NamespaceType::User => 0,
            NamespaceType::System => 1,
        },
    );
    let prefix: Vec<u8> = word_to_be_bytes(placement.namespace.len());
    key.extend_from_slice(prefix.as_slice());
    key.extend_from_slice(placement.namespace);
    key.extend_from_slice(placement.key);
    key
}

} // verus!
