//! Digests and the key derivation function of the VMess AEAD header.

use md5::Md5;
use sha2::{Digest, Sha256};
use vstd::prelude::*;
use vstd::utf8::encode_utf8;

verus! {

/// The key of the innermost HMAC.
pub const KDF_ROOT: &'static str = "VMess AEAD KDF";

/// The width of a SHA-256 input block, and so of a padded HMAC key.
pub const BLOCK_LEN: usize = 64;

/// The MD5 digest of a byte string, as computed by the `md-5` crate.
pub uninterp spec fn md5_of(data: Seq<u8>) -> Seq<u8>;

/// The SHA-256 digest of a byte string, as computed by the `sha2` crate.
pub uninterp spec fn sha256_of(data: Seq<u8>) -> Seq<u8>;

/// `md5::Md5` fed with `data` and finalized: the digest is a function of `data` and has 16 bytes.
#[verifier::external_body]
pub(crate) fn md5(data: &[u8]) -> (digest: Vec<u8>)
    ensures
        digest@ == md5_of(data@),
        digest@.len() == 16,
{
    let mut hash = Md5::new();
    hash.update(data);
    hash.finalize().to_vec()
}

/// `sha2::Sha256` fed with `data` and finalized: the digest is a function of `data` and has 32
/// bytes.
#[verifier::external_body]
pub(crate) fn sha256(data: &[u8]) -> (digest: Vec<u8>)
    ensures
        digest@ == sha256_of(data@),
        digest@.len() == 32,
{
    let mut hash = Sha256::new();
    hash.update(data);
    hash.finalize().to_vec()
}

/// The contents of a list of byte strings.
pub open spec fn contents(parts: Seq<&[u8]>) -> Seq<Seq<u8>> {
    parts.map_values(|part: &[u8]| part@)
}

/// An HMAC key filled up with zeros to a whole block, every byte combined with `mask`.
pub open spec fn padded_key(key: Seq<u8>, mask: u8) -> Seq<u8> {
    Seq::new(BLOCK_LEN as nat, |i: int| (if i < key.len() { key[i] } else { 0u8 }) ^ mask)
}

/// SHA-256 under a tower of HMACs: each key turns the hash below it into the HMAC of that hash,
/// the last key being the outermost. A key longer than a block is hashed first.
pub open spec fn nested_hmac_of(keys: Seq<Seq<u8>>, message: Seq<u8>) -> Seq<u8>
    decreases keys.len(),
{
    if keys.len() == 0 {
        sha256_of(message)
    } else {
        let below = keys.drop_last();
        let key = if keys.last().len() > BLOCK_LEN {
            nested_hmac_of(below, keys.last())
        } else {
            keys.last()
        };
        nested_hmac_of(
            below,
            padded_key(key, 0x5c) + nested_hmac_of(below, padded_key(key, 0x36) + message),
        )
    }
}

/// What [`kdf`] derives from `key` along `path`.
pub open spec fn kdf_of(key: Seq<u8>, path: Seq<Seq<u8>>) -> Seq<u8> {
    nested_hmac_of(seq![encode_utf8(KDF_ROOT@)] + path, key)
}

/// `first` followed by `second`.
pub(crate) fn concat(first: &[u8], second: &[u8]) -> (joined: Vec<u8>)
    ensures
        joined@ == first@ + second@,
{
    let mut joined: Vec<u8> = Vec::new();
    joined.extend_from_slice(first);
    joined.extend_from_slice(second);
    joined
}

/// Fills a key up to a whole block and combines it with `mask`.
fn pad_key(key: &[u8], mask: u8) -> (block: Vec<u8>)
    ensures
        block@ == padded_key(key@, mask),
{
    let mut block: Vec<u8> = Vec::new();
    for i in 0..BLOCK_LEN
        invariant
            block@ == padded_key(key@, mask).take(i as int),
    {
        let byte: u8 = if i < key.len() {
            key[i]
        } else {
            0
        };
        block.push(byte ^ mask);
    }
    block
}

/// The nested HMAC of `message` under the first `depth` keys.
fn nested_hmac(keys: &[&[u8]], depth: usize, message: &[u8]) -> (tag: Vec<u8>)
    requires
        depth <= keys@.len(),
    ensures
        tag@ == nested_hmac_of(contents(keys@).take(depth as int), message@),
        tag@.len() == 32,
    decreases depth,
{
    if depth == 0 {
        return sha256(message);
    }
    let below = depth - 1;
    let ghost tower = contents(keys@).take(depth as int);
    assert(tower.drop_last() == contents(keys@).take(below as int));
    let last = keys[below];
    assert(tower.last() == last@);
    let hashed: Vec<u8>;
    let key: &[u8] = if last.len() > BLOCK_LEN {
        hashed = nested_hmac(keys, below, last);
        hashed.as_slice()
    } else {
        last
    };
    let inner = nested_hmac(keys, below, concat(pad_key(key, 0x36).as_slice(), message).as_slice());
    nested_hmac(keys, below, concat(pad_key(key, 0x5c).as_slice(), inner.as_slice()).as_slice())
}

/// Derives 32 bytes from `key`: its nested HMAC under the root key and every element of `path`.
pub fn kdf(key: &[u8], path: &[&[u8]]) -> (derived: Vec<u8>)
    ensures
        derived@ == kdf_of(key@, contents(path@)),
        derived@.len() == 32,
{
    let mut keys: Vec<&[u8]> = Vec::new();
    keys.push(KDF_ROOT.as_bytes());
    for i in 0..path.len()
        invariant
            keys@.len() == i + 1,
            keys@[0]@ == encode_utf8(KDF_ROOT@),
            forall|j: int| 0 <= j < i ==> keys@[j + 1]@ == #[trigger] path@[j]@,
    {
        keys.push(path[i]);
    }
    proof {
        let expected = seq![encode_utf8(KDF_ROOT@)] + contents(path@);
        assert(contents(keys@).take(keys@.len() as int) =~= expected) by {
            assert forall|j: int| 0 <= j < expected.len() implies contents(keys@)[j] == #[trigger] expected[j] by {
                if j > 0 {
                    assert(keys@[(j - 1) + 1]@ == path@[j - 1]@);
                }
            }
        }
    }
    nested_hmac(keys.as_slice(), keys.len(), key)
}

/// Every element of the path makes an HMAC of the hash that the path before it derives with: the key,
/// filled up with zeros to 64 bytes and combined with the byte 0x36, before the message, and combined
/// with 0x5c before the digest of that. A key over 64 bytes is replaced by its digest.
pub proof fn kdf_is_hmac_along_the_path(key: Seq<u8>, path: Seq<Seq<u8>>, last: Seq<u8>)
    ensures
        ({
            let short = if last.len() > 64 {
                kdf_of(last, path)
            } else {
                last
            };
            let inner = Seq::new(64, |i: int| (if i < short.len() { short[i] } else { 0u8 }) ^ 0x36);
            let outer = Seq::new(64, |i: int| (if i < short.len() { short[i] } else { 0u8 }) ^ 0x5c);
            kdf_of(key, path.push(last)) == kdf_of(outer + kdf_of(inner + key, path), path)
        }),
{
    let root = seq![encode_utf8(KDF_ROOT@)];
    assert(root + path.push(last) == (root + path).push(last));
    assert((root + path).push(last).drop_last() == root + path);
    let short = if last.len() > 64 {
        kdf_of(last, path)
    } else {
        last
    };
    assert(padded_key(short, 0x36) == Seq::new(
        64,
        |i: int| (if i < short.len() { short[i] } else { 0u8 }) ^ 0x36,
    ));
    assert(padded_key(short, 0x5c) == Seq::new(
        64,
        |i: int| (if i < short.len() { short[i] } else { 0u8 }) ^ 0x5c,
    ));
}

/// Along the empty path the hash is the HMAC-SHA256 under the key `VMess AEAD KDF`.
pub proof fn kdf_starts_from_hmac_sha256(key: Seq<u8>)
    ensures
        ({
            let root = encode_utf8("VMess AEAD KDF"@);
            let inner = Seq::new(64, |i: int| (if i < root.len() { root[i] } else { 0u8 }) ^ 0x36);
            let outer = Seq::new(64, |i: int| (if i < root.len() { root[i] } else { 0u8 }) ^ 0x5c);
            &&& root.len() == 14
            &&& kdf_of(key, Seq::empty()) == sha256_of(outer + sha256_of(inner + key))
        }),
{
    let root = encode_utf8("VMess AEAD KDF"@);
    reveal_strlit("VMess AEAD KDF");
    vstd::utf8::is_ascii_chars_encode_utf8("VMess AEAD KDF"@);
    let keys = seq![root] + Seq::<Seq<u8>>::empty();
    assert(keys.drop_last() == Seq::<Seq<u8>>::empty());
    assert(keys.last() == root);
    assert(padded_key(root, 0x36) == Seq::new(
        64,
        |i: int| (if i < root.len() { root[i] } else { 0u8 }) ^ 0x36,
    ));
    assert(padded_key(root, 0x5c) == Seq::new(
        64,
        |i: int| (if i < root.len() { root[i] } else { 0u8 }) ^ 0x5c,
    ));
    reveal_with_fuel(nested_hmac_of, 2);
}

/// A list of byte strings holds what each of them holds.
pub proof fn contents_are_the_parts(parts: Seq<&[u8]>, i: int)
    requires
        0 <= i < parts.len(),
    ensures
        contents(parts).len() == parts.len(),
        contents(parts)[i] == parts[i]@,
{
}

} // verus!
