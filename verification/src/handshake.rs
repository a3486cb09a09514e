//! The cryptographic handshake of key generation, which the crate `bls_dkg`
//! carries out. What this module states of it is taken on trust.

use vstd::prelude::*;
use crate::name::{names_ascending, Name};

verus! {

/// The state of one handshake of `bls_dkg`. Nothing is known of what is
/// inside a value.
#[verifier::external_type_specification]
#[verifier::external_body]
pub struct ExKeyGen(bls_dkg::key_gen::KeyGen);

/// A message of the handshake of `bls_dkg`. Nothing is known of what is
/// inside a value but the index of its creator.
#[verifier::external_type_specification]
#[verifier::external_body]
pub struct ExMessage(bls_dkg::key_gen::message::Message);

/// The error with which the handshake of `bls_dkg` refuses a message or a
/// start. Nothing is known of what is inside a value.
#[verifier::external_type_specification]
#[verifier::external_body]
pub struct ExHandshakeError(bls_dkg::key_gen::Error);

/// The index, among the participants, of the node that made `message`.
pub uninterp spec fn creator_index(message: bls_dkg::key_gen::message::Message) -> u64;

/// `KeyGen::initialize` of `bls_dkg`, for the node `our_name` among the
/// participants `names`. It fails exactly when `our_name` is none of them or
/// when they are fewer than `threshold`. Otherwise it gives the state of a
/// new handshake and one opening message for each participant, all of them
/// the same message. The messages come in the order in which `bls_dkg`
/// holds the names, which is the order of their bytes and so, by
/// `lemma_name_order_is_byte_order`, the order of `names`.
#[verifier::external_body]
pub(crate) fn initialize(our_name: Name, threshold: usize, names: &Vec<Name>) -> (r: Result<
    (bls_dkg::key_gen::KeyGen, Vec<(Name, bls_dkg::key_gen::message::Message)>),
    bls_dkg::key_gen::Error,
>)
    requires
        names_ascending(names@),
    ensures
        r is Ok <==> (names@.contains(our_name) && threshold <= names@.len()),
        r matches Ok((_, messages)) ==> {
            &&& messages@.len() == names@.len()
            &&& forall|i: int|
                0 <= i < names@.len() ==> (#[trigger] messages@[i]).0 == names@[i]
                    && messages@[i].1 == messages@[0].1
        },
{
    let set = names.iter().map(|n| xor_name::XorName(n.to_bytes())).collect();
    match bls_dkg::key_gen::KeyGen::initialize(xor_name::XorName(our_name.to_bytes()), threshold, set) {
        Ok((key_gen, messages)) => Ok(
            (key_gen, messages.into_iter().map(|(t, m)| (Name::from_bytes(&t.0), m)).collect()),
        ),
        Err(error) => Err(error),
    }
}

/// `Message::creator` of `bls_dkg`: the index that the message carries for
/// the node that made it.
#[verifier::external_body]
pub(crate) fn message_creator(message: &bls_dkg::key_gen::message::Message) -> (index: u64)
    ensures
        index == creator_index(*message),
{
    message.creator()
}

/// `KeyGen::handle_message` of `bls_dkg`, with the random numbers of the
/// thread. It gives the messages to send in answer, each with the name of
/// the participant it is for, or the error with which the handshake refused
/// the message. The answers depend on chance, so nothing is claimed of them.
/// The handshake adds one to the creator's index, which therefore must not
/// be the largest number. Beyond that the handshake relies on a proposal
/// being at one with itself, as every proposal is that `bls_dkg` made: the
/// commitment that it carries must hold as many coefficients as its degree
/// asks for. Nothing here can look into a proposal, so whoever reads
/// messages from bytes has to see to that.
#[verifier::external_body]
pub(crate) fn handle_message(
    key_gen: &mut bls_dkg::key_gen::KeyGen,
    message: bls_dkg::key_gen::message::Message,
) -> (r: Result<Vec<(Name, bls_dkg::key_gen::message::Message)>, bls_dkg::key_gen::Error>)
    requires
        creator_index(message) < u64::MAX,
{
    match key_gen.handle_message(&mut rand::thread_rng(), message) {
        Ok(messages) => Ok(messages.into_iter().map(|(t, m)| (Name::from_bytes(&t.0), m)).collect()),
        Err(error) => Err(error),
    }
}

/// `KeyGen::generate_keys` of `bls_dkg`: `None` while the handshake has not
/// finished; afterwards the names of the participants that took part to the
/// end, the public keys of the set, and this node's secret share.
#[verifier::external_body]
pub(crate) fn generate_keys(key_gen: &bls_dkg::key_gen::KeyGen) -> (r: Option<
    (Vec<Name>, blsttc::PublicKeySet, blsttc::SecretKeyShare),
>) {
    match key_gen.generate_keys() {
        Some((names, outcome)) => Some(
            (
                names.iter().map(|n| Name::from_bytes(&n.0)).collect(),
                outcome.public_key_set,
                outcome.secret_key_share,
            ),
        ),
        None => None,
    }
}

/// The `==` that `bls_dkg` derives for its messages: it holds exactly when
/// the two are the same message.
#[verifier::external_body]
pub(crate) fn same_message(
    a: &bls_dkg::key_gen::message::Message,
    b: &bls_dkg::key_gen::message::Message,
) -> (same: bool)
    ensures
        same == (*a == *b),
{
    a == b
}

/// The `clone` that `bls_dkg` derives for its messages: the copy is the same
/// message.
#[verifier::external_body]
pub(crate) fn clone_message(message: &bls_dkg::key_gen::message::Message) -> (copy:
    bls_dkg::key_gen::message::Message)
    ensures
        copy == *message,
{
    message.clone()
}

} // verus!
