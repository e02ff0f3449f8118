//! Arkade addresses and the networks they belong to.

use vstd::prelude::*;

use crate::keys::{is_x_only_key, XOnlyPublicKey};
use crate::script::taproot_output_script;

verus! {

/// The Bitcoin network that a contract lives on.
#[derive(Clone, Copy, Debug, PartialEq, Eq, Structural)]
pub enum Network {
    Bitcoin,
    Testnet,
    Testnet4,
    Signet,
    Regtest,
}

/// `ark_core::Error`.
#[verifier::external_type_specification]
#[verifier::external_body]
pub struct ExArkError(ark_core::Error);

/// The text that `ark_core::ArkAddress::encode` gives to the address that
/// `ark_core::ArkAddress::decode` reads from `text`, if it reads one.
pub uninterp spec fn canonical_address(text: Seq<char>) -> Option<Seq<char>>;

/// The script that `ark_core::ArkAddress::to_p2tr_script_pubkey` gives for the
/// address that `text` encodes.
pub uninterp spec fn address_script(text: Seq<char>) -> Seq<u8>;

/// The text of the address that `ark_core::ArkAddress::new` makes.
pub uninterp spec fn address_text(
    network: Network,
    server: Seq<u8>,
    output_key: Seq<u8>,
) -> Seq<char>;

/// Calls `ark_core::ArkAddress::decode`, and `ark_core::ArkAddress::encode` on the
/// address that it reads.
///
/// Claimed of them: whether a text is an address, and which, depends on the text
/// alone. Encoding writes a text that decodes to the same address, so that
/// encoding that one again changes nothing.
#[verifier::external_body]
fn decode_address(text: &str) -> (canonical: Result<String, ark_core::Error>)
    ensures
        canonical is Ok <==> canonical_address(text@) is Some,
        canonical matches Ok(c) ==> {
            &&& canonical_address(text@) == Some(c@)
            &&& canonical_address(c@) == Some(c@)
            &&& address_script(c@) == address_script(text@)
        },
{
    ark_core::ArkAddress::decode(text).map(|address| address.encode())
}

/// Calls `ark_core::ArkAddress::new`.
///
/// Claimed of it: the address is determined by the network and the two keys, it
/// is a canonical text, and it pays to the output key.
#[verifier::external_body]
fn new_address(network: Network, server: [u8; 32], output_key: [u8; 32]) -> (text: String)
    requires
        is_x_only_key(server@),
        is_x_only_key(output_key@),
    ensures
        text@ == address_text(network, server@, output_key@),
        canonical_address(text@) == Some(text@),
        address_script(text@) == taproot_output_script(output_key@),
{
    let network = match network {
        Network::Bitcoin => bitcoin::Network::Bitcoin,
        Network::Testnet => bitcoin::Network::Testnet,
        Network::Testnet4 => bitcoin::Network::Testnet4,
        Network::Signet => bitcoin::Network::Signet,
        Network::Regtest => bitcoin::Network::Regtest,
    };
    let server = bitcoin::XOnlyPublicKey::from_slice(&server).expect("an x-only key");
    let key = bitcoin::XOnlyPublicKey::from_slice(&output_key).expect("an x-only key");
    let key = bitcoin::key::TweakedPublicKey::dangerous_assume_tweaked(key);
    ark_core::ArkAddress::new(network, server, key).encode()
}

/// Calls `ark_core::ArkAddress::to_p2tr_script_pubkey` on the address that a text
/// encodes.
///
/// Claimed of it: the script depends on the text alone.
#[verifier::external_body]
fn p2tr_script(text: &str) -> (script: Vec<u8>)
    requires
        canonical_address(text@) is Some,
    ensures
        script@ == address_script(text@),
{
    ark_core::ArkAddress::decode(text).expect("an address").to_p2tr_script_pubkey().into_bytes()
}

/// An Arkade address, held as its text.
#[derive(Debug, PartialEq, Eq)]
pub struct ArkAddress {
    text: String,
}

impl View for ArkAddress {
    type V = Seq<char>;

    closed spec fn view(&self) -> Seq<char> {
        self.text@
    }
}

impl Clone for ArkAddress {
    fn clone(&self) -> (copy: ArkAddress)
        ensures
            copy@ == self@,
    {
        proof {
            use_type_invariant(self);
        }
        ArkAddress { text: self.text.clone() }
    }
}

impl ArkAddress {
    #[verifier::type_invariant]
    spec fn well_formed(self) -> bool {
        canonical_address(self.text@) == Some(self.text@)
    }

    /// The address of an output key under a server key.
    pub fn new(network: Network, server: &XOnlyPublicKey, output_key: [u8; 32]) -> (address:
        ArkAddress)
        requires
            is_x_only_key(output_key@),
        ensures
            address@ == address_text(network, server@, output_key@),
            address_script(address@) == taproot_output_script(output_key@),
    {
        ArkAddress { text: new_address(network, server.serialize(), output_key) }
    }

    /// Reads an address.
    pub fn decode(text: &str) -> (address: Result<ArkAddress, ark_core::Error>)
        ensures
            address is Ok <==> canonical_address(text@) is Some,
            address matches Ok(a) ==> {
                &&& canonical_address(text@) == Some(a@)
                &&& address_script(a@) == address_script(text@)
            },
    {
        match decode_address(text) {
            Ok(text) => Ok(ArkAddress { text }),
            Err(error) => Err(error),
        }
    }

    /// The text of the address.
    pub fn to_string(&self) -> (text: String)
        ensures
            text@ == self@,
            canonical_address(text@) == Some(text@),
    {
        proof {
            use_type_invariant(self);
        }
        self.text.clone()
    }

    /// The taproot output script that pays to the address.
    pub fn to_p2tr_script_pubkey(&self) -> (script: Vec<u8>)
        ensures
            script@ == address_script(self@),
    {
        proof {
            use_type_invariant(self);
        }
        p2tr_script(self.text.as_str())
    }
}

} // verus!
