//! Section keys and the shares of them that key generation hands out.

use vstd::prelude::*;

verus! {

/// The public keys of a key set of `blsttc`. Nothing is known of what is
/// inside a value.
#[verifier::external_type_specification]
#[verifier::external_body]
pub struct ExPublicKeySet(blsttc::PublicKeySet);

/// A secret share of a key of `blsttc`. Nothing is known of what is inside
/// a value.
#[verifier::external_type_specification]
#[verifier::external_body]
pub struct ExSecretKeyShare(blsttc::SecretKeyShare);

/// The bytes in which `blsttc` writes the key set `set`.
pub uninterp spec fn key_set_encoding(set: blsttc::PublicKeySet) -> Seq<u8>;

/// The key that the bytes of a key set begin with: the first forty-eight of
/// them, where there are that many.
pub open spec fn leading_key(bytes: Seq<u8>) -> Option<Seq<u8>> {
    if bytes.len() >= 48 {
        Some(bytes.subrange(0, 48))
    } else {
        None
    }
}

/// The bytes of the section key that the key set `set` holds, if it holds
/// one.
pub open spec fn section_key_of(set: blsttc::PublicKeySet) -> Option<Seq<u8>> {
    leading_key(key_set_encoding(set))
}

/// The bytes of an optional key.
pub open spec fn key_bytes(key: Option<SectionKey>) -> Option<Seq<u8>> {
    match key {
        Some(key) => Some(key@),
        None => None,
    }
}

/// The public key of a section, as its forty-eight bytes.
#[derive(Clone, Copy, Debug, PartialEq, Eq, Hash)]
pub struct SectionKey {
    bytes: [u8; 48],
}

impl View for SectionKey {
    type V = Seq<u8>;

    closed spec fn view(&self) -> Seq<u8> {
        self.bytes@
    }
}

impl SectionKey {
    /// The key with the given bytes.
    pub fn new(bytes: [u8; 48]) -> (key: SectionKey)
        ensures
            key@ == bytes@,
    {
        SectionKey { bytes }
    }

    /// The bytes of the key.
    pub fn to_bytes(&self) -> (bytes: [u8; 48])
        ensures
            bytes@ == self@,
    {
        self.bytes
    }

    /// Whether the two keys have the same bytes.
    pub fn same(&self, other: &SectionKey) -> (b: bool)
        ensures
            b == (self@ == other@),
    {
        let mut i: usize = 0;
        while i < 48
            invariant
                i <= 48,
                forall|k: int| 0 <= k < i ==> self.bytes@[k] == other.bytes@[k],
            decreases 48 - i,
        {
            if self.bytes[i] != other.bytes[i] {
                return false;
            }
            i += 1;
        }
        assert(self.bytes@ =~= other.bytes@);
        true
    }

    /// The key that a serialised key set begins with: its first forty-eight
    /// bytes, where it has that many.
    pub fn leading(bytes: &Vec<u8>) -> (key: Option<SectionKey>)
        ensures
            key_bytes(key) == leading_key(bytes@),
    {
        if bytes.len() < 48 {
            return None;
        }
        let mut out: [u8; 48] = [0u8; 48];
        let mut i: usize = 0;
        while i < 48
            invariant
                i <= 48,
                bytes@.len() >= 48,
                forall|k: int| 0 <= k < i ==> out@[k] == bytes@[k],
            decreases 48 - i,
        {
            out[i] = bytes[i];
            i += 1;
        }
        assert(out@ =~= bytes@.subrange(0, 48));
        Some(SectionKey { bytes: out })
    }
}

/// `PublicKeySet::to_bytes` of `blsttc`: the bytes in which the key set is
/// written, which are the coefficients of the set one after the other,
/// forty-eight bytes each, the section's public key first. The bytes depend
/// on the set alone; no more is claimed of them.
#[verifier::external_body]
pub(crate) fn key_set_bytes(set: &blsttc::PublicKeySet) -> (bytes: Vec<u8>)
    ensures
        bytes@ == key_set_encoding(*set),
{
    set.to_bytes()
}

/// The share of a section key that one elder holds after key generation,
/// with the public keys of the whole set.
#[derive(Debug, PartialEq, Eq)]
pub struct SectionKeyShare {
    /// The public keys of the set.
    pub public_key_set: blsttc::PublicKeySet,
    /// The index of this share among the elders.
    pub index: usize,
    /// The secret share.
    pub secret_key_share: blsttc::SecretKeyShare,
}

impl SectionKeyShare {
    /// The share with the given parts.
    pub fn new(
        public_key_set: blsttc::PublicKeySet,
        index: usize,
        secret_key_share: blsttc::SecretKeyShare,
    ) -> (share: SectionKeyShare)
        ensures
            share.public_key_set == public_key_set,
            share.index == index,
            share.secret_key_share == secret_key_share,
    {
        SectionKeyShare { public_key_set, index, secret_key_share }
    }

    /// The public key of the section that the share belongs to, or `None`
    /// where the key set holds no key.
    pub fn public_key(&self) -> (key: Option<SectionKey>)
        ensures
            key_bytes(key) == section_key_of(self.public_key_set),
    {
        let bytes = key_set_bytes(&self.public_key_set);
        SectionKey::leading(&bytes)
    }
}

} // verus!
