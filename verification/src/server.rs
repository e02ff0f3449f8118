//! What an Arkade server says about itself.

use ark_core::server;
use vstd::prelude::*;

use crate::address::Network;
use crate::keys::PublicKey;

verus! {

/// `ark_core::server::Info`.
#[verifier::external_type_specification]
#[verifier::external_body]
pub struct ExInfo(server::Info);

/// The output script of the on-chain address that a text stands for, as
/// `bitcoin::Address` reads it, if it stands for one.
pub uninterp spec fn onchain_script(text: Seq<char>) -> Option<Seq<u8>>;

/// Calls `bitcoin::Address::from_str` and `bitcoin::Address::script_pubkey`,
/// whatever network the address is for.
///
/// Claimed of them: whether a text is an address, and which script it pays to,
/// depends on the text alone.
#[verifier::external_body]
fn read_onchain_script(text: &str) -> (script: Option<Vec<u8>>)
    ensures
        crate::psbt::optional_bytes(script) == onchain_script(text@),
{
    let address = text.parse::<bitcoin::Address<bitcoin::address::NetworkUnchecked>>().ok()?;
    Some(address.assume_checked().script_pubkey().into_bytes())
}

/// An on-chain address, held as its text.
#[derive(Debug, PartialEq, Eq)]
pub struct OnchainAddress {
    text: String,
}

impl View for OnchainAddress {
    type V = Seq<char>;

    closed spec fn view(&self) -> Seq<char> {
        self.text@
    }
}

impl Clone for OnchainAddress {
    fn clone(&self) -> (copy: OnchainAddress)
        ensures
            copy@ == self@,
    {
        proof {
            use_type_invariant(self);
        }
        OnchainAddress { text: self.text.clone() }
    }
}

impl OnchainAddress {
    #[verifier::type_invariant]
    spec fn well_formed(self) -> bool {
        onchain_script(self.text@) is Some
    }

    /// Reads an address.
    pub fn parse(text: &str) -> (address: Option<OnchainAddress>)
        ensures
            address is Some <==> onchain_script(text@) is Some,
            address matches Some(a) ==> a@ == text@,
    {
        match read_onchain_script(text) {
            Some(_) => Some(OnchainAddress { text: text.to_owned() }),
            None => None,
        }
    }

    /// The text of the address.
    pub fn as_text(&self) -> (text: &str)
        ensures
            text@ == self@,
            onchain_script(text@) is Some,
    {
        proof {
            use_type_invariant(self);
        }
        self.text.as_str()
    }
}

/// A server as the library knows it: what its rules read, next to all that the
/// server said.
pub struct ServerInfo {
    /// The key that the server signs with.
    pub signer_pk: PublicKey,
    /// The key that the server takes forfeits with.
    pub forfeit_pk: PublicKey,
    /// Where forfeits go.
    pub forfeit_address: OnchainAddress,
    /// The script by which the server leaves a checkpoint.
    pub checkpoint_tapscript: Vec<u8>,
    /// The network that the server is on.
    pub network: Network,
    /// The delay of unilateral exits, as a BIP68 sequence number.
    pub unilateral_exit_delay: u32,
    /// The least amount of an offchain output, in satoshis.
    pub vtxo_min_amount: Option<u64>,
    /// The dust limit, in satoshis.
    pub dust: u64,
    /// The keys that the server signed with before.
    pub deprecated_signers: Vec<PublicKey>,
    /// All that the server said, for calls that carry it along.
    pub raw: server::Info,
}

/// What the building of offchain transactions reads of a server.
#[verifier::ext_equal]
pub struct ServerTerms {
    pub vtxo_min_amount: nat,
    pub dust: nat,
    pub checkpoint_tapscript: Seq<u8>,
}

impl ServerInfo {
    /// The server's terms for offchain transactions. Without a least amount of its
    /// own, every output holds a satoshi at least.
    pub open spec fn terms(self) -> ServerTerms {
        ServerTerms {
            vtxo_min_amount: match self.vtxo_min_amount {
                Some(amount) => amount as nat,
                None => 1,
            },
            dust: self.dust as nat,
            checkpoint_tapscript: self.checkpoint_tapscript@,
        }
    }
}

} // verus!
