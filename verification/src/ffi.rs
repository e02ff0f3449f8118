//! The library on plain text, as callers in other languages use it: keys in
//! hexadecimal, transactions in base64, networks and signer sets by name.

use bitcoin::Psbt;
use vstd::prelude::*;
use vstd::utf8::{encode_utf8, is_ascii_chars, is_ascii_chars_encode_utf8};

use crate::address::{canonical_address, ArkAddress, Network};
use crate::checkpoint::party_views;
use crate::client::{OffchainSpend, SpendStateView};
use crate::contract::{
    leaf_of_parties, lemma_leaf_of_parties, ContractError, EscrowContract, EscrowOptions, SignerSet,
};
use crate::intent::{
    all_read_back, can_all_be_signed, can_sign_delegate, forfeits_signed, is_complete,
    is_intent_message, is_signable_delegate, lemma_settling_is_settling_vtxos,
    lemma_signed_is_signed, names_all_leaves, proof_signed, reads_intent_message, refuses,
    settles_vtxos, sign_delegate_psbts, signs_everything, Delegate, Intent, IntentInputView,
};
use crate::keys::{
    is_secret_key, is_x_only_key, public_key_of, x_only_signature, Keypair, XOnlyPublicKey,
};
use crate::offchain::{frame_outputs, payable, pays, SpendInputView};
use crate::psbt::{
    all_psbts, base64_bytes, base64_text, can_sign_alone, can_sign_with_all, input_count,
    input_leaf_hash, is_signable_alone, is_signable_with_all, merge_inputs, no_sigs_from,
    psbt_bytes, psbt_frame, psbt_from_base64, psbt_inputs, psbt_of_bytes, psbt_of_text, psbt_text,
    psbt_texts, psbt_to_base64, psbt_view, psbt_views, psbts_from_base64, psbts_of_texts,
    psbts_to_base64, reads_back, script_spend_digest, text_fails, text_views, texts_fail,
    witness_utxo, InputView, PsbtTextError, PsbtView, SigKey,
};
use crate::refresh::{
    active_options, can_forfeit, forfeits_fit, lemma_vtxo_sum_is_a_sum, refresh_is_refused,
    refreshes, settled_input, sum_fits, vtxo_sum, RefreshError, RefreshIntent, RefreshVtxo,
};
use crate::server::{onchain_script, ServerInfo, ServerTerms};
use crate::spend::{
    can_pay_out, escrow_input, lemma_payable_is_paid_out, lemma_payment_spends_the_escrow,
    lemma_refund_pays_back, lemma_release_pays_out, pays_back, pays_out, release_receivers,
    spend_is_short, spends_through, EscrowTransaction, EscrowVtxo, SpendError,
};
use crate::text::{decimal, decimal_text, hex_digit, lower_hex, lower_hex_text};
use crate::tx::{outpoint_of_text, outpoint_text, OutPoint};
use crate::{
    fee_is_paid, fee_sum, fee_views, fees_fit, lemma_fee_sum_folds, lemma_offchain_pays_every_fee,
    paid_fees, plan_release, refresh, spend, unpaid_fees, FeeOutput, PlanError, ReleaseMode,
};

verus! {

/// Why a request in plain text could not be met.
#[derive(Debug)]
pub enum FfiError {
    /// There are not 64 hexadecimal digits, but so many bytes.
    HexLength(usize),
    /// Two characters are no byte in hexadecimal.
    HexDigit,
    /// The bytes are no x-only public key.
    NotXOnlyKey,
    /// The bytes are no secret key.
    NotSecretKey,
    /// There is no network of this name.
    UnknownNetwork(String),
    /// There is no signer set of this name.
    UnknownSignerSet(String),
    /// The text is no outpoint.
    NotOutPoint,
    /// The text is no Arkade address.
    Address(ark_core::Error),
    /// The text is no PSBT.
    Psbt(PsbtTextError),
    /// The text is no message that an intent is made for.
    NotIntentMessage,
    /// The contract cannot be made.
    Contract(ContractError),
    /// The escrow cannot be paid out as asked.
    Plan(PlanError),
    /// The escrow cannot be spent as asked.
    Spend(SpendError),
    /// The escrow cannot be refreshed as asked.
    Refresh(RefreshError),
    /// The intent and the forfeits cannot be signed.
    Sign(ark_core::Error),
    /// The amounts come to more than can be written.
    Overflow,
    /// The PSBT lacks what a signature needs.
    Unsignable,
    /// The other PSBT has signatures on inputs that this one lacks.
    TooManyInputs,
}

impl FfiError {
    /// What the error says, apart from what caused it.
    pub open spec fn says(self) -> Seq<char> {
        match self {
            FfiError::HexLength(found) => "expected 64 hex chars, got "@ + decimal(found as nat),
            FfiError::HexDigit => "invalid digit found in string"@,
            FfiError::NotXOnlyKey => "malformed public key"@,
            FfiError::NotSecretKey => "malformed or out-of-range secret key"@,
            FfiError::UnknownNetwork(name) => "unknown network: "@ + name@,
            FfiError::UnknownSignerSet(name) => {
                "unknown signer_set: "@ + name@
                    + "; expected 'buyer_arbiter', 'seller_arbiter', or 'seller_buyer'"@
            },
            FfiError::NotOutPoint => "invalid outpoint"@,
            FfiError::Address(_) => "invalid Arkade address"@,
            FfiError::Psbt(_) => "invalid PSBT"@,
            FfiError::NotIntentMessage => "invalid intent message"@,
            FfiError::Contract(error) => error.says(),
            FfiError::Plan(error) => error.says(),
            FfiError::Spend(error) => error.says(),
            FfiError::Refresh(error) => error.says(),
            FfiError::Sign(_) => "signing intent and forfeits"@,
            FfiError::Overflow => "amounts overflow"@,
            FfiError::Unsignable => "PSBT lacks what a signature needs"@,
            FfiError::TooManyInputs => "PSBT has signatures on inputs that the base lacks"@,
        }
    }

    /// The error as a text, apart from what caused it.
    pub fn message(&self) -> (message: String)
        ensures
            message@ == self.says(),
    {
        match self {
            FfiError::HexLength(found) => "expected 64 hex chars, got ".to_owned().concat(
                decimal_text(*found).as_str(),
            ),
            FfiError::HexDigit => "invalid digit found in string".to_owned(),
            FfiError::NotXOnlyKey => "malformed public key".to_owned(),
            FfiError::NotSecretKey => "malformed or out-of-range secret key".to_owned(),
            FfiError::UnknownNetwork(name) => "unknown network: ".to_owned().concat(name.as_str()),
            FfiError::UnknownSignerSet(name) => {
                "unknown signer_set: ".to_owned().concat(name.as_str()).concat(
                    "; expected 'buyer_arbiter', 'seller_arbiter', or 'seller_buyer'",
                )
            },
            FfiError::NotOutPoint => "invalid outpoint".to_owned(),
            FfiError::Address(_) => "invalid Arkade address".to_owned(),
            FfiError::Psbt(_) => "invalid PSBT".to_owned(),
            FfiError::NotIntentMessage => "invalid intent message".to_owned(),
            FfiError::Contract(error) => error.message(),
            FfiError::Plan(error) => error.message(),
            FfiError::Spend(error) => error.message(),
            FfiError::Refresh(error) => error.message(),
            FfiError::Sign(_) => "signing intent and forfeits".to_owned(),
            FfiError::Overflow => "amounts overflow".to_owned(),
            FfiError::Unsignable => "PSBT lacks what a signature needs".to_owned(),
            FfiError::TooManyInputs => {
                "PSBT has signatures on inputs that the base lacks".to_owned()
            },
        }
    }
}

// -- Hexadecimal --

/// The number that a hexadecimal digit stands for.
pub open spec fn digit_value(byte: u8) -> Option<u8> {
    if 0x30 <= byte <= 0x39 {
        Some((byte - 0x30) as u8)
    } else if 0x41 <= byte <= 0x46 {
        Some((byte - 0x37) as u8)
    } else if 0x61 <= byte <= 0x66 {
        Some((byte - 0x57) as u8)
    } else {
        None
    }
}

/// The byte that two characters stand for: two digits, or a plus sign and a digit.
pub open spec fn pair_value(first: u8, second: u8) -> Option<u8> {
    match (digit_value(first), digit_value(second)) {
        (Some(high), Some(low)) => Some((16 * high + low) as u8),
        (None, Some(low)) => if first == 0x2b {
            Some(low)
        } else {
            None
        },
        _ => None,
    }
}

/// The byte that the pair of characters at position `i` stands for.
pub open spec fn byte_at(digits: Seq<u8>, i: int) -> Option<u8> {
    pair_value(digits[2 * i], digits[2 * i + 1])
}

/// The UTF-8 bytes of a text, without a leading `0x`.
pub open spec fn hex_digits(text: Seq<char>) -> Seq<u8> {
    let bytes = encode_utf8(text);
    if bytes.len() >= 2 && bytes[0] == 0x30 && bytes[1] == 0x78 {
        bytes.skip(2)
    } else {
        bytes
    }
}

/// The 32 bytes that a text stands for in hexadecimal, if it does.
pub open spec fn bytes_of_hex(text: Seq<char>) -> Option<Seq<u8>> {
    let digits = hex_digits(text);
    if digits.len() == 64 && forall|i: int| 0 <= i < 32 ==> #[trigger] byte_at(digits, i) is Some {
        Some(Seq::new(32, |i: int| byte_at(digits, i)->0))
    } else {
        None
    }
}

/// Whether `error` says why a text does not stand for 32 bytes.
pub open spec fn hex_fails(text: Seq<char>, error: FfiError) -> bool {
    match error {
        FfiError::HexLength(found) => found == hex_digits(text).len() && found != 64,
        FfiError::HexDigit => hex_digits(text).len() == 64 && bytes_of_hex(text) is None,
        _ => false,
    }
}

/// The number that a hexadecimal digit stands for.
fn read_digit(byte: u8) -> (value: Option<u8>)
    ensures
        value == digit_value(byte),
        value matches Some(v) ==> v < 16,
{
    if 0x30 <= byte && byte <= 0x39 {
        Some(byte - 0x30)
    } else if 0x41 <= byte && byte <= 0x46 {
        Some(byte - 0x37)
    } else if 0x61 <= byte && byte <= 0x66 {
        Some(byte - 0x57)
    } else {
        None
    }
}

/// The byte that two characters stand for: two digits, or a plus sign and a digit.
fn read_pair(first: u8, second: u8) -> (value: Option<u8>)
    ensures
        value == pair_value(first, second),
{
    match (read_digit(first), read_digit(second)) {
        (Some(high), Some(low)) => Some(16 * high + low),
        (None, Some(low)) => if first == 0x2b {
            Some(low)
        } else {
            None
        },
        _ => None,
    }
}

/// Reads 32 bytes in hexadecimal. A leading `0x` may stand before them.
pub fn hex_to_32_bytes(hex: &str) -> (bytes: Result<[u8; 32], FfiError>)
    ensures
        match bytes {
            Ok(b) => bytes_of_hex(hex@) == Some(b@),
            Err(error) => hex_fails(hex@, error),
        },
{
    let text = hex.as_bytes();
    let start: usize = if text.len() >= 2 && text[0] == 0x30 && text[1] == 0x78 {
        2
    } else {
        0
    };
    let ghost digits = hex_digits(hex@);
    assert(digits =~= text@.skip(start as int));
    if text.len() - start != 64 {
        return Err(FfiError::HexLength(text.len() - start));
    }
    let mut out: [u8; 32] = [0u8; 32];
    let mut i: usize = 0;
    while i < 32
        invariant
            i <= 32,
            start <= 2,
            text@.len() == start + 64,
            digits == text@.skip(start as int),
            digits == hex_digits(hex@),
            out@.len() == 32,
            forall|k: int| 0 <= k < i ==> #[trigger] byte_at(digits, k) == Some(out@[k]),
        decreases 32 - i,
    {
        let ghost before = out@;
        match read_pair(text[start + 2 * i], text[start + 2 * i + 1]) {
            Some(byte) => {
                assert(byte_at(digits, i as int) == Some(byte));
                out[i] = byte;
                assert forall|k: int| 0 <= k < i + 1 implies #[trigger] byte_at(digits, k) == Some(
                    out@[k],
                ) by {
                    if k < i {
                        assert(out@[k] == before[k]);
                    }
                }
            },
            None => {
                assert(byte_at(digits, i as int) is None);
                return Err(FfiError::HexDigit);
            },
        }
        i = i + 1;
    }
    assert(bytes_of_hex(hex@)->0 =~= out@);
    Ok(out)
}

/// Bytes that are written in hexadecimal read back, with a leading `0x` or without.
pub proof fn lemma_hex_reads_back(bytes: Seq<u8>)
    requires
        bytes.len() == 32,
    ensures
        bytes_of_hex(lower_hex(bytes)) == Some(bytes),
        bytes_of_hex("0x"@ + lower_hex(bytes)) == Some(bytes),
{
    reveal_strlit("0x");
    let hex = lower_hex(bytes);
    let long = "0x"@ + hex;
    assert forall|i: int| 0 <= i < 64 implies {
        &&& (#[trigger] hex[i]) as u32 == hex_digit(
            if i % 2 == 0 {
                bytes[i / 2] as int / 16
            } else {
                bytes[i / 2] as int % 16
            },
        ) as u32
        &&& 0x30 <= hex[i] as u32 <= 0x39 || 0x61 <= hex[i] as u32 <= 0x66
    } by {}
    assert(is_ascii_chars(hex));
    assert(is_ascii_chars(long)) by {
        assert forall|i: int| 0 <= i < long.len() implies '\0' <= #[trigger] long[i] <= '\u{7f}' by {
            if i >= 2 {
                assert(long[i] == hex[i - 2]);
            }
        }
    }
    is_ascii_chars_encode_utf8(hex);
    is_ascii_chars_encode_utf8(long);
    let digits = hex_digits(hex);
    assert(digits =~= encode_utf8(hex));
    assert(hex_digits(long) =~= digits);
    assert forall|i: int| 0 <= i < 32 implies #[trigger] byte_at(digits, i) == Some(bytes[i]) by {
        assert(digits[2 * i] == hex[2 * i] as u8);
        assert(digits[2 * i + 1] == hex[2 * i + 1] as u8);
        assert((2 * i) / 2 == i && (2 * i + 1) / 2 == i);
        assert((2 * i) % 2 == 0 && (2 * i + 1) % 2 == 1);
    }
    assert(bytes_of_hex(hex)->0 =~= bytes);
    assert(bytes_of_hex(long)->0 =~= bytes);
}

// -- Keys and names --

/// Whether `error` says why a text is no x-only key in hexadecimal.
pub open spec fn x_only_fails(text: Seq<char>, error: FfiError) -> bool {
    match bytes_of_hex(text) {
        Some(bytes) => !is_x_only_key(bytes) && error is NotXOnlyKey,
        None => hex_fails(text, error),
    }
}

/// Whether a text is an x-only key in hexadecimal.
pub open spec fn is_x_only_hex(text: Seq<char>) -> bool {
    bytes_of_hex(text) matches Some(bytes) && is_x_only_key(bytes)
}

/// Reads an x-only key in hexadecimal.
pub fn parse_xonly(hex: &str) -> (key: Result<XOnlyPublicKey, FfiError>)
    ensures
        match key {
            Ok(k) => is_x_only_hex(hex@) && bytes_of_hex(hex@) == Some(k@),
            Err(error) => x_only_fails(hex@, error),
        },
{
    match hex_to_32_bytes(hex) {
        Ok(bytes) => match XOnlyPublicKey::from_slice(bytes.as_slice()) {
            Some(key) => Ok(key),
            None => Err(FfiError::NotXOnlyKey),
        },
        Err(error) => Err(error),
    }
}

/// The secret key that a text stands for in hexadecimal, if it does.
pub open spec fn secret_of_hex(text: Seq<char>) -> Option<Seq<u8>> {
    match bytes_of_hex(text) {
        Some(bytes) => if is_secret_key(bytes) {
            Some(bytes)
        } else {
            None
        },
        None => None,
    }
}

/// Whether `error` says why a text is no secret key in hexadecimal.
pub open spec fn secret_fails(text: Seq<char>, error: FfiError) -> bool {
    match bytes_of_hex(text) {
        Some(bytes) => !is_secret_key(bytes) && error is NotSecretKey,
        None => hex_fails(text, error),
    }
}

/// Reads a secret key in hexadecimal.
pub fn parse_secret_key(hex: &str) -> (keypair: Result<Keypair, FfiError>)
    ensures
        match keypair {
            Ok(k) => secret_of_hex(hex@) == Some(k.secret_bytes()),
            Err(error) => secret_fails(hex@, error),
        },
{
    match hex_to_32_bytes(hex) {
        Ok(bytes) => match Keypair::from_secret(bytes) {
            Some(keypair) => Ok(keypair),
            None => Err(FfiError::NotSecretKey),
        },
        Err(error) => Err(error),
    }
}

/// The network of a name.
pub open spec fn network_of(name: Seq<char>) -> Option<Network> {
    if name == "mainnet"@ || name == "bitcoin"@ {
        Some(Network::Bitcoin)
    } else if name == "testnet"@ {
        Some(Network::Testnet)
    } else if name == "signet"@ || name == "mutinynet"@ {
        Some(Network::Signet)
    } else if name == "regtest"@ {
        Some(Network::Regtest)
    } else {
        None
    }
}

/// The network of a name.
pub fn parse_network(name: &str) -> (network: Result<Network, FfiError>)
    ensures
        match network {
            Ok(n) => network_of(name@) == Some(n),
            Err(error) => network_of(name@) is None && (error matches FfiError::UnknownNetwork(u)
                && u@ == name@),
        },
{
    let given = name.to_owned();
    if given == "mainnet".to_owned() || given == "bitcoin".to_owned() {
        Ok(Network::Bitcoin)
    } else if given == "testnet".to_owned() {
        Ok(Network::Testnet)
    } else if given == "signet".to_owned() || given == "mutinynet".to_owned() {
        Ok(Network::Signet)
    } else if given == "regtest".to_owned() {
        Ok(Network::Regtest)
    } else {
        Err(FfiError::UnknownNetwork(given))
    }
}

/// The signer set of a name.
pub open spec fn signer_set_of(name: Seq<char>) -> Option<SignerSet> {
    if name == "buyer_arbiter"@ {
        Some(SignerSet::BuyerArbiter)
    } else if name == "seller_arbiter"@ {
        Some(SignerSet::SellerArbiter)
    } else if name == "seller_buyer"@ {
        Some(SignerSet::SellerBuyer)
    } else {
        None
    }
}

/// The signer set of a name.
pub fn parse_signer_set(name: &str) -> (signer_set: Result<SignerSet, FfiError>)
    ensures
        match signer_set {
            Ok(s) => signer_set_of(name@) == Some(s),
            Err(error) => signer_set_of(name@) is None && (error matches FfiError::UnknownSignerSet(
                u,
            ) && u@ == name@),
        },
{
    let given = name.to_owned();
    if given == "buyer_arbiter".to_owned() {
        Ok(SignerSet::BuyerArbiter)
    } else if given == "seller_arbiter".to_owned() {
        Ok(SignerSet::SellerArbiter)
    } else if given == "seller_buyer".to_owned() {
        Ok(SignerSet::SellerBuyer)
    } else {
        Err(FfiError::UnknownSignerSet(given))
    }
}

// -- Contracts --

/// Why four keys and a delay make no contract.
pub open spec fn terms_fail(keys: Seq<Seq<u8>>, delay: u32, error: ContractError) -> bool {
    if !keys.no_duplicates() {
        error is DuplicateKeys
    } else if delay == 0 {
        error is ZeroDelay
    } else {
        delay >= 0x8000_0000 && error is NotRelativeLockTime
    }
}

/// The contract of four keys in hexadecimal, a delay as a BIP68 sequence number, and
/// the name of a network. What is looked at first is what the error is about.
pub fn contract_from_text(
    seller_pk: &str,
    buyer_pk: &str,
    arbiter_pk: &str,
    server_pk: &str,
    unilateral_exit_delay: u32,
    network: &str,
) -> (contract: Result<EscrowContract, FfiError>)
    ensures
        match contract {
            Ok(c) => {
                &&& is_x_only_hex(seller_pk@) && is_x_only_hex(buyer_pk@)
                &&& is_x_only_hex(arbiter_pk@) && is_x_only_hex(server_pk@)
                &&& bytes_of_hex(seller_pk@) == Some(c.terms().seller@)
                &&& bytes_of_hex(buyer_pk@) == Some(c.terms().buyer@)
                &&& bytes_of_hex(arbiter_pk@) == Some(c.terms().arbiter@)
                &&& bytes_of_hex(server_pk@) == Some(c.terms().server@)
                &&& c.terms().unilateral_exit_delay == unilateral_exit_delay
                &&& c.terms().is_valid()
                &&& network_of(network@) == Some(c.on_network())
            },
            Err(error) => if !is_x_only_hex(seller_pk@) {
                x_only_fails(seller_pk@, error)
            } else if !is_x_only_hex(buyer_pk@) {
                x_only_fails(buyer_pk@, error)
            } else if !is_x_only_hex(arbiter_pk@) {
                x_only_fails(arbiter_pk@, error)
            } else if !is_x_only_hex(server_pk@) {
                x_only_fails(server_pk@, error)
            } else if network_of(network@) is None {
                error matches FfiError::UnknownNetwork(u) && u@ == network@
            } else {
                let keys = seq![
                    bytes_of_hex(seller_pk@)->0,
                    bytes_of_hex(buyer_pk@)->0,
                    bytes_of_hex(arbiter_pk@)->0,
                    bytes_of_hex(server_pk@)->0,
                ];
                error matches FfiError::Contract(e) && terms_fail(keys, unilateral_exit_delay, e)
            },
        },
{
    let seller = match parse_xonly(seller_pk) {
        Ok(key) => key,
        Err(error) => return Err(error),
    };
    let buyer = match parse_xonly(buyer_pk) {
        Ok(key) => key,
        Err(error) => return Err(error),
    };
    let arbiter = match parse_xonly(arbiter_pk) {
        Ok(key) => key,
        Err(error) => return Err(error),
    };
    let server = match parse_xonly(server_pk) {
        Ok(key) => key,
        Err(error) => return Err(error),
    };
    let network = match parse_network(network) {
        Ok(network) => network,
        Err(error) => return Err(error),
    };
    let options = EscrowOptions { seller, buyer, arbiter, server, unilateral_exit_delay };
    match EscrowContract::new(options, network) {
        Ok(contract) => Ok(contract),
        Err(error) => {
            proof {
                let keys = seq![seller@, buyer@, arbiter@, server@];
                if options.keys_are_distinct() {
                    assert(keys.no_duplicates());
                } else if keys.no_duplicates() {
                    assert(keys[0] != keys[1] && keys[0] != keys[2] && keys[0] != keys[3]);
                    assert(keys[1] != keys[2] && keys[1] != keys[3] && keys[2] != keys[3]);
                }
            }
            Err(FfiError::Contract(error))
        },
    }
}

// -- Amounts --

/// Addresses and amounts, as a caller gives them.
pub open spec fn pair_views(pairs: Seq<(String, u64)>) -> Seq<(Seq<char>, u64)> {
    pairs.map_values(|pair: (String, u64)| (pair.0@, pair.1))
}

/// Whether all fees go to addresses.
pub open spec fn all_addresses(pairs: Seq<(Seq<char>, u64)>) -> bool {
    forall|i: int| 0 <= i < pairs.len() ==> canonical_address((#[trigger] pairs[i]).0) is Some
}

/// The fees that a caller gives, to the addresses as the library writes them.
pub open spec fn fees_of(pairs: Seq<(Seq<char>, u64)>) -> Seq<(Seq<char>, u64)> {
    pairs.map_values(|pair: (Seq<char>, u64)| (canonical_address(pair.0)->0, pair.1))
}

/// Reads fees.
pub fn parse_fee_outputs(fee_outputs: &Vec<(String, u64)>) -> (outputs: Result<
    Vec<FeeOutput>,
    FfiError,
>)
    ensures
        match outputs {
            Ok(o) => {
                &&& all_addresses(pair_views(fee_outputs@))
                &&& fee_views(o@) == fees_of(pair_views(fee_outputs@))
            },
            Err(error) => error is Address && !all_addresses(pair_views(fee_outputs@)),
        },
{
    let ghost pairs = pair_views(fee_outputs@);
    let mut outputs: Vec<FeeOutput> = Vec::new();
    let mut i: usize = 0;
    while i < fee_outputs.len()
        invariant
            i <= fee_outputs.len(),
            outputs.len() == i,
            pairs == pair_views(fee_outputs@),
            forall|k: int|
                0 <= k < i ==> canonical_address((#[trigger] pairs[k]).0) is Some && outputs@[k]@
                    == (canonical_address(pairs[k].0)->0, pairs[k].1),
        decreases fee_outputs.len() - i,
    {
        assert(pairs[i as int] == (fee_outputs@[i as int].0@, fee_outputs@[i as int].1));
        match ArkAddress::decode(fee_outputs[i].0.as_str()) {
            Ok(address) => outputs.push(FeeOutput { address, amount: fee_outputs[i].1 }),
            Err(error) => return Err(FfiError::Address(error)),
        }
        i = i + 1;
    }
    assert(fee_views(outputs@) =~= fees_of(pairs));
    Ok(outputs)
}

/// Writes fees.
fn fee_texts(outputs: &Vec<FeeOutput>) -> (pairs: Vec<(String, u64)>)
    ensures
        pair_views(pairs@) == fee_views(outputs@),
{
    let mut pairs: Vec<(String, u64)> = Vec::new();
    let mut i: usize = 0;
    while i < outputs.len()
        invariant
            i <= outputs.len(),
            pairs.len() == i,
            forall|k: int|
                0 <= k < i ==> ((#[trigger] pairs@[k]).0@, pairs@[k].1) == outputs@[k]@,
        decreases outputs.len() - i,
    {
        pairs.push((outputs[i].address.to_string(), outputs[i].amount));
        i = i + 1;
    }
    assert(pair_views(pairs@) =~= fee_views(outputs@));
    pairs
}

/// How an escrow is released.
pub open spec fn release_mode(use_delegate: bool) -> ReleaseMode {
    if use_delegate {
        ReleaseMode::Delegate
    } else {
        ReleaseMode::Offchain
    }
}

/// What a release would pay: the buyer's amount, the fees that are paid, and those
/// that are not.
pub fn quote_release(
    escrow_amount_sats: u64,
    fee_outputs: &Vec<(String, u64)>,
    use_delegate: bool,
    dust: u64,
) -> (quote: Result<(u64, Vec<(String, u64)>, Vec<(String, u64)>), FfiError>)
    ensures
        ({
            let pairs = pair_views(fee_outputs@);
            let mode = release_mode(use_delegate);
            let paid = paid_fees(fees_of(pairs), mode, dust);
            let payout = escrow_amount_sats - fee_sum(paid);
            match quote {
                Ok((buyer_amount, effective, discarded)) => {
                    &&& all_addresses(pairs)
                    &&& payout >= dust
                    &&& buyer_amount == payout
                    &&& pair_views(effective@) == paid
                    &&& pair_views(discarded@) == unpaid_fees(fees_of(pairs), mode, dust)
                },
                Err(error) => if !all_addresses(pairs) {
                    error is Address
                } else if fee_sum(paid) > u64::MAX {
                    error is Overflow
                } else if payout < 0 {
                    error == FfiError::Plan(
                        PlanError::FeeExceedsEscrow {
                            total_fee: fee_sum(paid) as u64,
                            total_escrow_amount: escrow_amount_sats,
                        },
                    )
                } else {
                    payout < dust && error == FfiError::Plan(
                        PlanError::DustExceedsPayout { dust, buyer_amount: payout as u64 },
                    )
                },
            }
        }),
{
    let fee_outputs = match parse_fee_outputs(fee_outputs) {
        Ok(fee_outputs) => fee_outputs,
        Err(error) => return Err(error),
    };
    let mode = if use_delegate {
        ReleaseMode::Delegate
    } else {
        ReleaseMode::Offchain
    };
    if !fees_fit(fee_outputs.as_slice(), mode, dust) {
        return Err(FfiError::Overflow);
    }
    match plan_release(escrow_amount_sats, fee_outputs.as_slice(), mode, dust) {
        Ok(plan) => Ok(
            (
                plan.buyer_amount,
                fee_texts(&plan.effective_fee_outputs),
                fee_texts(&plan.discarded_fee_outputs),
            ),
        ),
        Err(error) => Err(FfiError::Plan(error)),
    }
}

// -- VTXOs --

/// Outpoints and amounts of VTXOs, and whether each is swept.
pub open spec fn vtxo_text_views(vtxos: Seq<(String, u64, bool)>) -> Seq<(Seq<char>, u64, bool)> {
    vtxos.map_values(|vtxo: (String, u64, bool)| (vtxo.0@, vtxo.1, vtxo.2))
}

/// Whether each of some VTXOs is given by an outpoint.
pub open spec fn all_outpoints(vtxos: Seq<(Seq<char>, u64, bool)>) -> bool {
    forall|i: int| 0 <= i < vtxos.len() ==> outpoint_of_text((#[trigger] vtxos[i]).0) is Some
}

/// Whether `vtxos` are the VTXOs that a caller gives.
pub open spec fn are_vtxos_of(vtxos: Seq<RefreshVtxo>, texts: Seq<(Seq<char>, u64, bool)>) -> bool {
    &&& vtxos.len() == texts.len()
    &&& forall|i: int|
        0 <= i < vtxos.len() ==> {
            &&& outpoint_of_text(texts[i].0) == Some((#[trigger] vtxos[i]).outpoint@)
            &&& vtxos[i].amount == texts[i].1
            &&& vtxos[i].is_swept == texts[i].2
        }
}

/// The VTXOs that a caller gives.
pub open spec fn vtxos_of(texts: Seq<(Seq<char>, u64, bool)>) -> Seq<RefreshVtxo> {
    choose|vtxos: Seq<RefreshVtxo>| are_vtxos_of(vtxos, texts)
}

/// What a caller gives says which VTXOs they are.
pub proof fn lemma_vtxos_of(vtxos: Seq<RefreshVtxo>, texts: Seq<(Seq<char>, u64, bool)>)
    requires
        are_vtxos_of(vtxos, texts),
    ensures
        vtxos == vtxos_of(texts),
{
    let others = vtxos_of(texts);
    assert forall|i: int| 0 <= i < vtxos.len() implies vtxos[i] == others[i] by {
        assert(outpoint_of_text(texts[i].0) == Some(vtxos[i].outpoint@));
        assert(outpoint_of_text(texts[i].0) == Some(others[i].outpoint@));
        vtxos[i].outpoint.txid.lemma_bytes(others[i].outpoint.txid);
    }
    assert(vtxos =~= others);
}

/// Reads VTXOs.
pub fn parse_refresh_vtxos(vtxos_data: &Vec<(String, u64, bool)>) -> (vtxos: Result<
    Vec<RefreshVtxo>,
    FfiError,
>)
    ensures
        match vtxos {
            Ok(v) => {
                &&& all_outpoints(vtxo_text_views(vtxos_data@))
                &&& are_vtxos_of(v@, vtxo_text_views(vtxos_data@))
                &&& v@ == vtxos_of(vtxo_text_views(vtxos_data@))
            },
            Err(error) => error is NotOutPoint && !all_outpoints(vtxo_text_views(vtxos_data@)),
        },
{
    let ghost texts = vtxo_text_views(vtxos_data@);
    let mut vtxos: Vec<RefreshVtxo> = Vec::new();
    let mut i: usize = 0;
    while i < vtxos_data.len()
        invariant
            i <= vtxos_data.len(),
            texts == vtxo_text_views(vtxos_data@),
            are_vtxos_of(vtxos@, texts.take(i as int)),
            forall|k: int| 0 <= k < i ==> outpoint_of_text((#[trigger] texts[k]).0) is Some,
        decreases vtxos_data.len() - i,
    {
        let ghost given = vtxos_data@[i as int];
        assert(texts[i as int] == (given.0@, given.1, given.2));
        match OutPoint::parse(vtxos_data[i].0.as_str()) {
            Some(outpoint) => {
                let ghost before = vtxos@;
                vtxos.push(
                    RefreshVtxo { outpoint, amount: vtxos_data[i].1, is_swept: vtxos_data[i].2 },
                );
                assert forall|k: int| 0 <= k < vtxos@.len() implies {
                    &&& outpoint_of_text(texts.take(i + 1)[k].0) == Some(
                        (#[trigger] vtxos@[k]).outpoint@,
                    )
                    &&& vtxos@[k].amount == texts.take(i + 1)[k].1
                    &&& vtxos@[k].is_swept == texts.take(i + 1)[k].2
                } by {
                    if k < i {
                        assert(vtxos@[k] == before[k]);
                        assert(texts.take(i as int)[k] == texts.take(i + 1)[k]);
                    }
                }
            },
            None => {
                return Err(FfiError::NotOutPoint);
            },
        }
        i = i + 1;
    }
    assert(texts.take(i as int) =~= texts);
    proof {
        lemma_vtxos_of(vtxos@, texts);
    }
    Ok(vtxos)
}

/// Writes VTXOs. They read back.
pub fn refresh_vtxo_texts(vtxos: &Vec<RefreshVtxo>) -> (texts: Vec<(String, u64, bool)>)
    ensures
        texts.len() == vtxos.len(),
        forall|i: int|
            0 <= i < vtxos.len() ==> (#[trigger] texts@[i]).0@ == outpoint_text(
                vtxos@[i].outpoint.txid@,
                vtxos@[i].outpoint.vout,
            ),
        are_vtxos_of(vtxos@, vtxo_text_views(texts@)),
{
    let mut texts: Vec<(String, u64, bool)> = Vec::new();
    let mut i: usize = 0;
    while i < vtxos.len()
        invariant
            i <= vtxos.len(),
            texts.len() == i,
            forall|k: int|
                0 <= k < i ==> {
                    &&& (#[trigger] texts@[k]).0@ == outpoint_text(
                        vtxos@[k].outpoint.txid@,
                        vtxos@[k].outpoint.vout,
                    )
                    &&& outpoint_of_text(texts@[k].0@) == Some(vtxos@[k].outpoint@)
                    &&& texts@[k].1 == vtxos@[k].amount
                    &&& texts@[k].2 == vtxos@[k].is_swept
                },
        decreases vtxos.len() - i,
    {
        texts.push((vtxos[i].outpoint.to_string(), vtxos[i].amount, vtxos[i].is_swept));
        i = i + 1;
    }
    assert forall|k: int| 0 <= k < vtxos@.len() implies {
        &&& outpoint_of_text(vtxo_text_views(texts@)[k].0) == Some((#[trigger] vtxos@[k]).outpoint@)
        &&& vtxos@[k].amount == vtxo_text_views(texts@)[k].1
        &&& vtxos@[k].is_swept == vtxo_text_views(texts@)[k].2
    } by {
        assert(outpoint_of_text(texts@[k].0@) == Some(vtxos@[k].outpoint@));
    }
    texts
}

/// Writes a VTXO, if there is one. It reads back.
pub fn escrow_vtxo_text(vtxo: Option<EscrowVtxo>) -> (text: Option<(String, u64)>)
    ensures
        match (vtxo, text) {
            (Some(v), Some(t)) => {
                &&& t.0@ == outpoint_text(v.outpoint.txid@, v.outpoint.vout)
                &&& outpoint_of_text(t.0@) == Some(v.outpoint@)
                &&& t.1 == v.amount
            },
            (None, None) => true,
            _ => false,
        },
{
    match vtxo {
        Some(vtxo) => Some((vtxo.outpoint.to_string(), vtxo.amount)),
        None => None,
    }
}

/// The x-only key that the server signs with, in hexadecimal. It reads back.
pub fn server_pk(server_info: &ServerInfo) -> (text: String)
    ensures
        text@ == lower_hex(server_info.signer_pk.without_parity()@),
        text@ == lower_hex(server_info.signer_pk@.subrange(1, 33)),
        bytes_of_hex(text@) == Some(server_info.signer_pk.without_parity()@),
{
    let key = server_info.signer_pk.x_only();
    let bytes = key.serialize();
    proof {
        key.lemma_bytes(key);
        lemma_hex_reads_back(bytes@);
    }
    lower_hex_text(bytes.as_slice())
}

// -- Refreshes --

/// A refresh, in text.
#[derive(Debug, PartialEq, Eq)]
pub struct RefreshTexts {
    /// The proof, in base64.
    pub intent_proof: String,
    /// The message that it is for, in JSON.
    pub intent_message: String,
    /// The forfeits, in base64.
    pub forfeit_psbts: Vec<String>,
    /// The cosigner's public key, in hexadecimal.
    pub cosigner_pk: String,
}

/// Whether texts are those of a refresh: its proof, its message, its forfeits and the
/// cosigner's key.
pub open spec fn writes_refresh(
    texts: RefreshTexts,
    refresh: RefreshIntent,
) -> bool {
    &&& texts.intent_proof@ == psbt_text(psbt_view(refresh.intent.proof))
    &&& texts.intent_message@ == refresh.intent.message@
    &&& text_views(texts.forfeit_psbts@) == psbt_texts(psbt_views(refresh.forfeit_psbts@))
    &&& texts.cosigner_pk@ == lower_hex(refresh.refresh_cosigner_pk@)
}

/// Whether the proof and the forfeits of a refresh read back from their texts.
pub open spec fn reads_refresh(
    texts: RefreshTexts,
    refresh: RefreshIntent,
) -> bool {
    &&& psbt_of_text(texts.intent_proof@) == Some(psbt_view(refresh.intent.proof))
    &&& all_psbts(text_views(texts.forfeit_psbts@))
    &&& psbts_of_texts(text_views(texts.forfeit_psbts@)) == psbt_views(refresh.forfeit_psbts@)
}

/// Writes a refresh.
pub fn refresh_texts(refresh: &RefreshIntent) -> (texts: RefreshTexts)
    ensures
        writes_refresh(texts, *refresh),
        all_read_back(refresh.intent.proof, refresh.forfeit_psbts@) ==> reads_refresh(
            texts,
            *refresh,
        ),
{
    let texts = RefreshTexts {
        intent_proof: psbt_to_base64(&refresh.intent.proof),
        intent_message: refresh.intent.message.clone(),
        forfeit_psbts: psbts_to_base64(refresh.forfeit_psbts.as_slice()),
        cosigner_pk: lower_hex_text(refresh.refresh_cosigner_pk.serialize().as_slice()),
    };
    proof {
        assert(text_views(texts.forfeit_psbts@).len() == psbt_views(refresh.forfeit_psbts@).len());
        if all_read_back(refresh.intent.proof, refresh.forfeit_psbts@) {
            lemma_texts_read_back(texts.forfeit_psbts@, refresh.forfeit_psbts@);
        }
    }
    texts
}

/// Whether texts are those of a refresh of VTXOs of one contract, and read back unless
/// they are too long for it.
pub open spec fn tells_refresh(
    texts: RefreshTexts,
    refresh: RefreshIntent,
    options: EscrowOptions,
    vtxos: Seq<RefreshVtxo>,
    signer_set: SignerSet,
    cosigner: Seq<u8>,
    server_info: ServerInfo,
) -> bool {
    &&& refreshes(
        refresh,
        vtxos.map_values(|vtxo: RefreshVtxo| settled_input(options, vtxo, signer_set)),
        vtxo_sum(vtxos),
        options,
        cosigner,
        server_info,
    )
    &&& writes_refresh(texts, refresh)
    &&& vtxos.len() <= 10_000 ==> reads_refresh(texts, refresh)
}

/// Whether texts are those of a refresh of VTXOs of one contract.
pub open spec fn is_refresh(
    texts: RefreshTexts,
    options: EscrowOptions,
    vtxos: Seq<RefreshVtxo>,
    signer_set: SignerSet,
    cosigner: Seq<u8>,
    server_info: ServerInfo,
) -> bool {
    exists|refresh: RefreshIntent| #[trigger]
        tells_refresh(texts, refresh, options, vtxos, signer_set, cosigner, server_info)
}

/// Prepares a refresh of VTXOs of one contract, unsigned: the proof, its message, the
/// forfeits and the cosigner's public key. What is looked at first is what the error
/// is about.
///
/// Whether it succeeds with VTXOs rests with the clock.
pub fn prepare_refresh(
    contract: &EscrowContract,
    vtxos_data: &Vec<(String, u64, bool)>,
    signer_set: &str,
    cosigner_sk_hex: &str,
    server_info: &ServerInfo,
) -> (prepared: Result<RefreshTexts, FfiError>)
    ensures
        ({
            let texts = vtxo_text_views(vtxos_data@);
            let vtxos = vtxos_of(texts);
            let options = contract.terms();
            let is_distinct = active_options(options, *server_info).keys_are_distinct();
            match prepared {
                Ok(p) => {
                    &&& all_outpoints(texts) && are_vtxos_of(vtxos, texts)
                    &&& signer_set_of(signer_set@) is Some
                    &&& secret_of_hex(cosigner_sk_hex@) is Some
                    &&& vtxo_sum(vtxos) <= u64::MAX
                    &&& is_distinct && forfeits_fit(vtxos, server_info.dust)
                    &&& vtxos_data.len() > 0
                    &&& is_refresh(
                        p,
                        options,
                        vtxos,
                        signer_set_of(signer_set@)->0,
                        public_key_of(secret_of_hex(cosigner_sk_hex@)->0),
                        *server_info,
                    )
                },
                Err(error) => {
                    &&& all_outpoints(texts) ==> are_vtxos_of(vtxos, texts)
                    &&& if !all_outpoints(texts) {
                        error is NotOutPoint
                    } else if signer_set_of(signer_set@) is None {
                        error matches FfiError::UnknownSignerSet(u) && u@ == signer_set@
                    } else if secret_of_hex(cosigner_sk_hex@) is None {
                        secret_fails(cosigner_sk_hex@, error)
                    } else if vtxo_sum(vtxos) > u64::MAX {
                        error is Overflow
                    } else if !is_distinct {
                        &&& error matches FfiError::Refresh(RefreshError::Contract(e))
                        &&& e is DuplicateKeys
                    } else if !forfeits_fit(vtxos, server_info.dust) {
                        error is Overflow
                    } else {
                        &&& error matches FfiError::Refresh(RefreshError::Prepare(e))
                        &&& refresh_is_refused(
                            vtxos.map_values(
                                |vtxo: RefreshVtxo|
                                    settled_input(options, vtxo, signer_set_of(signer_set@)->0),
                            ),
                            vtxo_sum(vtxos),
                            options,
                            public_key_of(secret_of_hex(cosigner_sk_hex@)->0),
                            *server_info,
                            e,
                        )
                    }
                },
            }
        }),
{
    let vtxos = match parse_refresh_vtxos(vtxos_data) {
        Ok(vtxos) => vtxos,
        Err(error) => return Err(error),
    };
    let signer_set = match parse_signer_set(signer_set) {
        Ok(signer_set) => signer_set,
        Err(error) => return Err(error),
    };
    let cosigner = match parse_secret_key(cosigner_sk_hex) {
        Ok(cosigner) => cosigner,
        Err(error) => return Err(error),
    };
    if !sum_fits(vtxos.as_slice()) {
        return Err(FfiError::Overflow);
    }
    let active = match contract.with_server(server_info.signer_pk.x_only()) {
        Ok(_) => true,
        Err(_) => false,
    };
    if active && !can_forfeit(vtxos.as_slice(), server_info.dust) {
        return Err(FfiError::Overflow);
    }
    let cosigner_pk = cosigner.public_key();
    let refresh = match refresh::prepare_refresh(
        contract,
        vtxos.as_slice(),
        signer_set,
        &cosigner_pk,
        server_info,
    ) {
        Ok(refresh) => refresh,
        Err(error) => return Err(FfiError::Refresh(error)),
    };
    let prepared = refresh_texts(&refresh);
    proof {
        assert(vtxos@.len() == vtxo_text_views(vtxos_data@).len());
        assert(tells_refresh(
            prepared,
            refresh,
            contract.terms(),
            vtxos@,
            signer_set,
            cosigner_pk@,
            *server_info,
        ));
    }
    Ok(prepared)
}

/// Texts that each read back as a PSBT read back together.
proof fn lemma_texts_read_back(texts: Seq<String>, psbts: Seq<Psbt>)
    requires
        texts.len() == psbts.len(),
        forall|i: int|
            0 <= i < psbts.len() ==> psbt_of_text((#[trigger] texts[i])@) == Some(
                psbt_view(psbts[i]),
            ),
    ensures
        all_psbts(text_views(texts)),
        psbts_of_texts(text_views(texts)) == psbt_views(psbts),
{
    let views = text_views(texts);
    assert forall|i: int| 0 <= i < views.len() implies psbt_of_text(#[trigger] views[i]) == Some(
        psbt_view(psbts[i]),
    ) by {
        assert(psbt_of_text(texts[i]@) == Some(psbt_view(psbts[i])));
    }
    assert(psbts_of_texts(views) =~= psbt_views(psbts));
}

/// Whether `error` says why a text stands for no PSBT.
pub open spec fn psbt_fails(text: Seq<char>, error: FfiError) -> bool {
    error matches FfiError::Psbt(e) && text_fails(text, e)
}

/// Whether `error` says why the first of some texts that stands for no PSBT is none.
pub open spec fn psbts_fail(texts: Seq<Seq<char>>, error: FfiError) -> bool {
    error matches FfiError::Psbt(e) && texts_fail(texts, e)
}

/// Reads a refresh that was signed, and the cosigner's key pair. What is looked at
/// first is what the error is about.
pub fn read_refresh(
    intent_proof_b64: &str,
    intent_message_json: &str,
    forfeit_psbts_b64: &Vec<String>,
    cosigner_sk_hex: &str,
) -> (read: Result<(RefreshIntent, Keypair), FfiError>)
    ensures
        ({
            let forfeits = text_views(forfeit_psbts_b64@);
            match read {
                Ok((refresh, cosigner)) => {
                    &&& psbt_of_text(intent_proof_b64@) == Some(psbt_view(refresh.intent.proof))
                    &&& is_intent_message(intent_message_json@)
                    &&& refresh.intent.message@ == intent_message_json@
                    &&& all_psbts(forfeits)
                    &&& psbt_views(refresh.forfeit_psbts@) == psbts_of_texts(forfeits)
                    &&& secret_of_hex(cosigner_sk_hex@) == Some(cosigner.secret_bytes())
                    &&& refresh.refresh_cosigner_pk@ == public_key_of(cosigner.secret_bytes())
                },
                Err(error) => if psbt_of_text(intent_proof_b64@) is None {
                    psbt_fails(intent_proof_b64@, error)
                } else if !is_intent_message(intent_message_json@) {
                    error is NotIntentMessage
                } else if !all_psbts(forfeits) {
                    psbts_fail(forfeits, error)
                } else {
                    secret_fails(cosigner_sk_hex@, error)
                },
            }
        }),
{
    let intent_proof = match psbt_from_base64(intent_proof_b64) {
        Ok(psbt) => psbt,
        Err(error) => return Err(FfiError::Psbt(error)),
    };
    if !reads_intent_message(intent_message_json) {
        return Err(FfiError::NotIntentMessage);
    }
    let forfeit_psbts = match psbts_from_base64(forfeit_psbts_b64.as_slice()) {
        Ok(psbts) => psbts,
        Err(error) => return Err(FfiError::Psbt(error)),
    };
    let cosigner = match parse_secret_key(cosigner_sk_hex) {
        Ok(cosigner) => cosigner,
        Err(error) => return Err(error),
    };
    let intent = Intent { proof: intent_proof, message: intent_message_json.to_owned() };
    let refresh_cosigner_pk = cosigner.public_key();
    Ok((RefreshIntent { intent, forfeit_psbts, refresh_cosigner_pk }, cosigner))
}

// -- Spends --

/// The transactions of a spend, in base64.
#[derive(Debug, PartialEq, Eq)]
pub struct SpendTexts {
    pub ark_tx: String,
    pub checkpoint_txs: Vec<String>,
}

/// Writes the transactions of a spend.
pub fn spend_texts(txs: &EscrowTransaction) -> (texts: SpendTexts)
    ensures
        writes_spend(texts, *txs),
        reads_back(txs.ark_tx) && (forall|i: int|
            0 <= i < txs.checkpoint_txs.len() ==> reads_back(#[trigger] txs.checkpoint_txs@[i]))
            ==> reads_spend(texts, *txs),
{
    let texts = SpendTexts {
        ark_tx: psbt_to_base64(&txs.ark_tx),
        checkpoint_txs: psbts_to_base64(txs.checkpoint_txs.as_slice()),
    };
    proof {
        assert(text_views(texts.checkpoint_txs@).len() == psbt_views(txs.checkpoint_txs@).len());
        if forall|i: int|
            0 <= i < txs.checkpoint_txs.len() ==> reads_back(#[trigger] txs.checkpoint_txs@[i]) {
            lemma_texts_read_back(texts.checkpoint_txs@, txs.checkpoint_txs@);
        }
    }
    texts
}

/// Whether texts are those of the transactions of a spend.
pub open spec fn writes_spend(texts: SpendTexts, txs: EscrowTransaction) -> bool {
    &&& texts.ark_tx@ == psbt_text(psbt_view(txs.ark_tx))
    &&& text_views(texts.checkpoint_txs@) == psbt_texts(psbt_views(txs.checkpoint_txs@))
}

/// Whether the transactions of a spend read back from their texts.
pub open spec fn reads_spend(texts: SpendTexts, txs: EscrowTransaction) -> bool {
    &&& psbt_of_text(texts.ark_tx@) == Some(psbt_view(txs.ark_tx))
    &&& all_psbts(text_views(texts.checkpoint_txs@))
    &&& psbts_of_texts(text_views(texts.checkpoint_txs@)) == psbt_views(txs.checkpoint_txs@)
}

/// Whether `vtxo` is the VTXO that a caller gives.
pub open spec fn is_vtxo_of(vtxo: EscrowVtxo, outpoint: Seq<char>, amount: u64) -> bool {
    outpoint_of_text(outpoint) == Some(vtxo.outpoint@) && vtxo.amount == amount
}

/// Whether `txs` release a VTXO: the buyer gets what is left after the fees.
pub open spec fn releases(
    txs: EscrowTransaction,
    options: EscrowOptions,
    vtxo: EscrowVtxo,
    buyer: Seq<char>,
    fees: Seq<(Seq<char>, u64)>,
    signer_set: SignerSet,
    server: ServerTerms,
) -> bool {
    let input = escrow_input(options, vtxo, signer_set);
    let receivers = release_receivers(buyer, vtxo.amount, fees);
    &&& payable(receivers, input, server)
    &&& txs.checkpoint_txs.len() == 1
    &&& pays(txs.ark_tx, txs.checkpoint_txs@[0], receivers, buyer, input, server)
}

/// Whether texts are those of the release of a VTXO, and read back unless they are too
/// long for it.
pub open spec fn tells_release(
    texts: SpendTexts,
    txs: EscrowTransaction,
    options: EscrowOptions,
    vtxo: EscrowVtxo,
    buyer: Seq<char>,
    fees: Seq<(Seq<char>, u64)>,
    signer_set: SignerSet,
    server: ServerTerms,
) -> bool {
    &&& releases(txs, options, vtxo, buyer, fees, signer_set, server)
    &&& writes_spend(texts, txs)
    &&& spend_is_short(fees.len() + 1, server) ==> reads_spend(texts, txs)
}

/// Whether texts are those of the release of the VTXO that a caller gives by its
/// outpoint and amount.
pub open spec fn is_release(
    texts: SpendTexts,
    options: EscrowOptions,
    given: (Seq<char>, u64),
    buyer: Seq<char>,
    fees: Seq<(Seq<char>, u64)>,
    signer_set: SignerSet,
    server: ServerTerms,
) -> bool {
    exists|txs: EscrowTransaction, vtxo: EscrowVtxo|
        is_vtxo_of(vtxo, given.0, given.1) && #[trigger] tells_release(
            texts,
            txs,
            options,
            vtxo,
            buyer,
            fees,
            signer_set,
            server,
        )
}

/// Whether texts are those of the refund of a VTXO, and read back unless they are too
/// long for it.
pub open spec fn tells_refund(
    texts: SpendTexts,
    txs: EscrowTransaction,
    options: EscrowOptions,
    vtxo: EscrowVtxo,
    seller: Seq<char>,
    signer_set: SignerSet,
    server: ServerTerms,
) -> bool {
    let input = escrow_input(options, vtxo, signer_set);
    let receivers = seq![(seller, vtxo.amount)];
    &&& txs.checkpoint_txs.len() == 1
    &&& pays(txs.ark_tx, txs.checkpoint_txs@[0], receivers, seller, input, server)
    &&& writes_spend(texts, txs)
    &&& spend_is_short(1, server) ==> reads_spend(texts, txs)
}

/// Whether texts are those of the refund of the VTXO that a caller gives by its
/// outpoint and amount.
pub open spec fn is_refund(
    texts: SpendTexts,
    options: EscrowOptions,
    given: (Seq<char>, u64),
    seller: Seq<char>,
    signer_set: SignerSet,
    server: ServerTerms,
) -> bool {
    exists|txs: EscrowTransaction, vtxo: EscrowVtxo|
        is_vtxo_of(vtxo, given.0, given.1) && #[trigger] tells_refund(
            texts,
            txs,
            options,
            vtxo,
            seller,
            signer_set,
            server,
        )
}

/// Builds the offchain release of an escrow, unsigned: the ark transaction and its
/// checkpoints. What is looked at first is what the error is about.
pub fn build_release(
    contract: &EscrowContract,
    escrow_outpoint: &str,
    escrow_amount_sats: u64,
    buyer_dest_address: &str,
    fee_outputs: &Vec<(String, u64)>,
    signer_set: &str,
    server_info: &ServerInfo,
) -> (built: Result<SpendTexts, FfiError>)
    ensures
        ({
            let pairs = pair_views(fee_outputs@);
            let fees = fees_of(pairs);
            let payout = escrow_amount_sats - fee_sum(fees);
            let buyer = canonical_address(buyer_dest_address@);
            match built {
                Ok(texts) => {
                    &&& buyer is Some
                    &&& all_addresses(pairs)
                    &&& signer_set_of(signer_set@) is Some
                    &&& payout >= server_info.dust
                    &&& is_release(
                        texts,
                        contract.terms(),
                        (escrow_outpoint@, escrow_amount_sats),
                        buyer->0,
                        fees,
                        signer_set_of(signer_set@)->0,
                        server_info.terms(),
                    )
                },
                Err(error) => if outpoint_of_text(escrow_outpoint@) is None {
                    error is NotOutPoint
                } else if buyer is None || !all_addresses(pairs) {
                    error is Address
                } else if signer_set_of(signer_set@) is None {
                    error matches FfiError::UnknownSignerSet(u) && u@ == signer_set@
                } else if fee_sum(fees) > u64::MAX {
                    error is Overflow
                } else if payout < 0 {
                    error == FfiError::Spend(
                        SpendError::Plan(
                            PlanError::FeeExceedsEscrow {
                                total_fee: fee_sum(fees) as u64,
                                total_escrow_amount: escrow_amount_sats,
                            },
                        ),
                    )
                } else if payout < server_info.dust {
                    error == FfiError::Spend(
                        SpendError::Plan(
                            PlanError::DustExceedsPayout {
                                dust: server_info.dust,
                                buyer_amount: payout as u64,
                            },
                        ),
                    )
                } else {
                    &&& error matches FfiError::Spend(e) && e is BuildRelease
                    &&& exists|vtxo: EscrowVtxo| #[trigger]
                        is_vtxo_of(vtxo, escrow_outpoint@, escrow_amount_sats)
                    &&& forall|vtxo: EscrowVtxo| #[trigger]
                        is_vtxo_of(vtxo, escrow_outpoint@, escrow_amount_sats) ==> !payable(
                            release_receivers(buyer->0, vtxo.amount, fees),
                            escrow_input(
                                contract.terms(),
                                vtxo,
                                signer_set_of(signer_set@)->0,
                            ),
                            server_info.terms(),
                        )
                },
            }
        }),
{
    let outpoint = match OutPoint::parse(escrow_outpoint) {
        Some(outpoint) => outpoint,
        None => return Err(FfiError::NotOutPoint),
    };
    let escrow_vtxo = EscrowVtxo { outpoint, amount: escrow_amount_sats };
    let buyer_dest = match ArkAddress::decode(buyer_dest_address) {
        Ok(address) => address,
        Err(error) => return Err(FfiError::Address(error)),
    };
    let fee_outputs = match parse_fee_outputs(fee_outputs) {
        Ok(fee_outputs) => fee_outputs,
        Err(error) => return Err(error),
    };
    let signer_set = match parse_signer_set(signer_set) {
        Ok(signer_set) => signer_set,
        Err(error) => return Err(error),
    };
    proof {
        lemma_offchain_pays_every_fee(fee_views(fee_outputs@), server_info.dust);
        assert(is_vtxo_of(escrow_vtxo, escrow_outpoint@, escrow_amount_sats));
        assert(fee_views(fee_outputs@).len() == fee_outputs.len());
    }
    if !fees_fit(fee_outputs.as_slice(), ReleaseMode::Offchain, server_info.dust) {
        return Err(FfiError::Overflow);
    }
    match spend::build_release_tx(
        contract,
        &escrow_vtxo,
        &buyer_dest,
        fee_outputs.as_slice(),
        signer_set,
        server_info,
    ) {
        Ok(txs) => {
            let texts = spend_texts(&txs);
            assert(tells_release(
                texts,
                txs,
                contract.terms(),
                escrow_vtxo,
                buyer_dest@,
                fee_views(fee_outputs@),
                signer_set,
                server_info.terms(),
            ));
            Ok(texts)
        },
        Err(error) => {
            proof {
                assert forall|vtxo: EscrowVtxo| #[trigger]
                    is_vtxo_of(vtxo, escrow_outpoint@, escrow_amount_sats) implies vtxo
                    == escrow_vtxo by {
                    vtxo.outpoint.txid.lemma_bytes(outpoint.txid);
                }
            }
            Err(FfiError::Spend(error))
        },
    }
}

/// Builds the offchain refund of an escrow, unsigned: the ark transaction and its
/// checkpoints. What is looked at first is what the error is about.
pub fn build_refund(
    contract: &EscrowContract,
    escrow_outpoint: &str,
    escrow_amount_sats: u64,
    seller_dest_address: &str,
    signer_set: &str,
    server_info: &ServerInfo,
) -> (built: Result<SpendTexts, FfiError>)
    ensures
        ({
            let seller = canonical_address(seller_dest_address@);
            let terms = server_info.terms();
            match built {
                Ok(texts) => {
                    &&& seller is Some
                    &&& signer_set_of(signer_set@) is Some
                    &&& escrow_amount_sats >= terms.vtxo_min_amount
                    &&& is_refund(
                        texts,
                        contract.terms(),
                        (escrow_outpoint@, escrow_amount_sats),
                        seller->0,
                        signer_set_of(signer_set@)->0,
                        terms,
                    )
                },
                Err(error) => if outpoint_of_text(escrow_outpoint@) is None {
                    error is NotOutPoint
                } else if seller is None {
                    error is Address
                } else if signer_set_of(signer_set@) is None {
                    error matches FfiError::UnknownSignerSet(u) && u@ == signer_set@
                } else {
                    &&& error matches FfiError::Spend(e) && e is BuildRefund
                    &&& escrow_amount_sats < terms.vtxo_min_amount
                },
            }
        }),
{
    let outpoint = match OutPoint::parse(escrow_outpoint) {
        Some(outpoint) => outpoint,
        None => return Err(FfiError::NotOutPoint),
    };
    let escrow_vtxo = EscrowVtxo { outpoint, amount: escrow_amount_sats };
    let seller_dest = match ArkAddress::decode(seller_dest_address) {
        Ok(address) => address,
        Err(error) => return Err(FfiError::Address(error)),
    };
    let signer_set = match parse_signer_set(signer_set) {
        Ok(signer_set) => signer_set,
        Err(error) => return Err(error),
    };
    assert(is_vtxo_of(escrow_vtxo, escrow_outpoint@, escrow_amount_sats));
    match spend::build_refund_tx(contract, &escrow_vtxo, &seller_dest, signer_set, server_info) {
        Ok(txs) => {
            let texts = spend_texts(&txs);
            assert(tells_refund(
                texts,
                txs,
                contract.terms(),
                escrow_vtxo,
                seller_dest@,
                signer_set,
                server_info.terms(),
            ));
            Ok(texts)
        },
        Err(error) => Err(FfiError::Spend(error)),
    }
}

/// Whether all texts of all parties stand for PSBTs.
pub open spec fn all_party_psbts(parties: Seq<Vec<String>>) -> bool {
    forall|p: int| 0 <= p < parties.len() ==> all_psbts(text_views((#[trigger] parties[p])@))
}

/// Whether `error` says why the texts of the first party whose texts do not all stand
/// for PSBTs do not.
pub open spec fn party_fails(parties: Seq<Vec<String>>, error: FfiError) -> bool {
    exists|p: int|
        {
            &&& 0 <= p < parties.len()
            &&& forall|q: int| 0 <= q < p ==> all_psbts(text_views((#[trigger] parties[q])@))
            &&& psbts_fail(text_views((#[trigger] parties[p])@), error)
        }
}

/// What the PSBTs of each party hold.
pub open spec fn party_psbts(parties: Seq<Vec<String>>) -> Seq<Seq<PsbtView>> {
    parties.map_values(|party: Vec<String>| psbts_of_texts(text_views(party@)))
}

/// Reads an offchain spend: the ark transaction with all signatures but the server's,
/// the checkpoints without signatures, and each party's signed copies of them.
pub fn read_spend(
    id: &str,
    merged_ark_tx_b64: &str,
    unsigned_checkpoint_txs_b64: &Vec<String>,
    party_signed_checkpoints_b64: &Vec<Vec<String>>,
) -> (read: Result<OffchainSpend, FfiError>)
    ensures
        ({
            let ark_tx = psbt_of_text(merged_ark_tx_b64@);
            let unsigned = text_views(unsigned_checkpoint_txs_b64@);
            let all = ark_tx is Some && all_psbts(unsigned) && all_party_psbts(
                party_signed_checkpoints_b64@,
            );
            match read {
                Ok(spend) => all && spend@ == (SpendStateView::Loading {
                    id: id@,
                    ark_tx: ark_tx->0,
                    unsigned: psbts_of_texts(unsigned),
                    parties: party_psbts(party_signed_checkpoints_b64@),
                }),
                Err(error) => if ark_tx is None {
                    psbt_fails(merged_ark_tx_b64@, error)
                } else if !all_psbts(unsigned) {
                    psbts_fail(unsigned, error)
                } else {
                    party_fails(party_signed_checkpoints_b64@, error)
                },
            }
        }),
{
    let ark_tx = match psbt_from_base64(merged_ark_tx_b64) {
        Ok(psbt) => psbt,
        Err(error) => return Err(FfiError::Psbt(error)),
    };
    let unsigned = match psbts_from_base64(unsigned_checkpoint_txs_b64.as_slice()) {
        Ok(psbts) => psbts,
        Err(error) => return Err(FfiError::Psbt(error)),
    };
    let mut parties: Vec<Vec<Psbt>> = Vec::new();
    let mut p: usize = 0;
    while p < party_signed_checkpoints_b64.len()
        invariant
            psbt_of_text(merged_ark_tx_b64@) is Some,
            all_psbts(text_views(unsigned_checkpoint_txs_b64@)),
            p <= party_signed_checkpoints_b64.len(),
            parties.len() == p,
            forall|q: int|
                0 <= q < p ==> {
                    let texts = text_views((#[trigger] party_signed_checkpoints_b64@[q])@);
                    all_psbts(texts) && psbt_views(parties@[q]@) == psbts_of_texts(texts)
                },
        decreases party_signed_checkpoints_b64.len() - p,
    {
        match psbts_from_base64(party_signed_checkpoints_b64[p].as_slice()) {
            Ok(psbts) => parties.push(psbts),
            Err(error) => {
                let failure = FfiError::Psbt(error);
                assert(psbts_fail(
                    text_views(party_signed_checkpoints_b64@[p as int]@),
                    failure,
                ));
                return Err(failure);
            },
        }
        p = p + 1;
    }
    assert(party_views(parties@) =~= party_psbts(party_signed_checkpoints_b64@));
    Ok(OffchainSpend::new(id.to_owned(), ark_tx, unsigned, parties))
}

// -- Signatures --

/// Signs the ark transaction for the secret key of one party. The result reads back.
pub fn sign_ark_tx(psbt_b64: &str, secret_key_hex: &str) -> (signed: Result<String, FfiError>)
    ensures
        ({
            let psbt = psbt_of_text(psbt_b64@);
            let secret = secret_of_hex(secret_key_hex@);
            match signed {
                Ok(text) => {
                    let view = PsbtView {
                        inputs: spend::ark_tx_signed(psbt->0.frame, psbt->0.inputs, secret->0),
                        ..psbt->0
                    };
                    &&& psbt is Some && secret is Some && can_sign_with_all(psbt->0.inputs, 0)
                    &&& text@ == psbt_text(view)
                    &&& psbt_of_text(text@) == Some(view)
                },
                Err(error) => if psbt is None {
                    psbt_fails(psbt_b64@, error)
                } else if secret is None {
                    secret_fails(secret_key_hex@, error)
                } else {
                    error is Unsignable && !can_sign_with_all(psbt->0.inputs, 0)
                },
            }
        }),
{
    let mut psbt = match psbt_from_base64(psbt_b64) {
        Ok(psbt) => psbt,
        Err(error) => return Err(FfiError::Psbt(error)),
    };
    let keypair = match parse_secret_key(secret_key_hex) {
        Ok(keypair) => keypair,
        Err(error) => return Err(error),
    };
    if !is_signable_with_all(&psbt, 0) {
        return Err(FfiError::Unsignable);
    }
    match spend::sign_ark_tx(&mut psbt, &keypair) {
        Ok(_) => Ok(psbt_to_base64(&psbt)),
        Err(error) => Err(FfiError::Spend(error)),
    }
}

/// Signs a checkpoint transaction for the secret key of one party. The result reads
/// back.
pub fn sign_checkpoint(psbt_b64: &str, secret_key_hex: &str) -> (signed: Result<String, FfiError>)
    ensures
        ({
            let psbt = psbt_of_text(psbt_b64@);
            let secret = secret_of_hex(secret_key_hex@);
            match signed {
                Ok(text) => {
                    let view = PsbtView {
                        inputs: spend::checkpoint_signed(psbt->0.frame, psbt->0.inputs, secret->0),
                        ..psbt->0
                    };
                    &&& psbt is Some && secret is Some && can_sign_alone(psbt->0.inputs, 0)
                    &&& psbt->0.inputs.len() == 1
                    &&& text@ == psbt_text(view)
                    &&& psbt_of_text(text@) == Some(view)
                },
                Err(error) => if psbt is None {
                    psbt_fails(psbt_b64@, error)
                } else if secret is None {
                    secret_fails(secret_key_hex@, error)
                } else if !can_sign_alone(psbt->0.inputs, 0) {
                    error is Unsignable
                } else {
                    &&& error matches FfiError::Spend(e) && e is SignCheckpoint
                    &&& psbt->0.inputs.len() != 1
                },
            }
        }),
{
    let mut psbt = match psbt_from_base64(psbt_b64) {
        Ok(psbt) => psbt,
        Err(error) => return Err(FfiError::Psbt(error)),
    };
    let keypair = match parse_secret_key(secret_key_hex) {
        Ok(keypair) => keypair,
        Err(error) => return Err(error),
    };
    if !is_signable_alone(&psbt, 0) {
        return Err(FfiError::Unsignable);
    }
    match spend::sign_checkpoint(&mut psbt, &keypair) {
        Ok(_) => Ok(psbt_to_base64(&psbt)),
        Err(error) => Err(FfiError::Spend(error)),
    }
}

/// Signs the proof and the forfeits of a refresh or a direct release for the secret
/// key of one party. The results read back.
pub fn sign_intent_and_forfeits(
    intent_proof_b64: &str,
    forfeit_psbts_b64: &Vec<String>,
    secret_key_hex: &str,
) -> (signed: Result<(String, Vec<String>), FfiError>)
    ensures
        ({
            let proof = psbt_of_text(intent_proof_b64@);
            let secret = secret_of_hex(secret_key_hex@);
            let texts = text_views(forfeit_psbts_b64@);
            let forfeits = psbts_of_texts(texts);
            match signed {
                Ok((proof_text, forfeit_texts)) => {
                    let view = PsbtView {
                        inputs: proof_signed(proof->0.frame, proof->0.inputs, secret->0),
                        ..proof->0
                    };
                    let views = forfeits_signed(forfeits, secret->0);
                    &&& proof is Some && secret is Some && all_psbts(texts)
                    &&& can_sign_delegate(proof->0, forfeits) && is_complete(proof->0, forfeits)
                    &&& proof_text@ == psbt_text(view)
                    &&& psbt_of_text(proof_text@) == Some(view)
                    &&& text_views(forfeit_texts@) == psbt_texts(views)
                    &&& all_psbts(text_views(forfeit_texts@))
                    &&& psbts_of_texts(text_views(forfeit_texts@)) == views
                },
                Err(error) => if proof is None {
                    psbt_fails(intent_proof_b64@, error)
                } else if secret is None {
                    secret_fails(secret_key_hex@, error)
                } else if !all_psbts(texts) {
                    psbts_fail(texts, error)
                } else if !can_sign_delegate(proof->0, forfeits) {
                    error is Unsignable
                } else {
                    error is Sign && !is_complete(proof->0, forfeits)
                },
            }
        }),
{
    let mut proof_psbt = match psbt_from_base64(intent_proof_b64) {
        Ok(psbt) => psbt,
        Err(error) => return Err(FfiError::Psbt(error)),
    };
    let keypair = match parse_secret_key(secret_key_hex) {
        Ok(keypair) => keypair,
        Err(error) => return Err(error),
    };
    let mut forfeit_psbts = match psbts_from_base64(forfeit_psbts_b64.as_slice()) {
        Ok(psbts) => psbts,
        Err(error) => return Err(FfiError::Psbt(error)),
    };
    if !is_signable_delegate(&proof_psbt, &forfeit_psbts) {
        return Err(FfiError::Unsignable);
    }
    match sign_delegate_psbts(&mut proof_psbt, &mut forfeit_psbts, &keypair) {
        Ok(_) => {
            let proof_text = psbt_to_base64(&proof_psbt);
            let forfeit_texts = psbts_to_base64(forfeit_psbts.as_slice());
            proof {
                assert(text_views(forfeit_texts@).len() == psbt_views(forfeit_psbts@).len());
                lemma_texts_read_back(forfeit_texts@, forfeit_psbts@);
            }
            Ok((proof_text, forfeit_texts))
        },
        Err(error) => Err(FfiError::Sign(error)),
    }
}

/// Merges the tapscript signatures of one PSBT into another. The result reads back.
pub fn merge_sigs(base_b64: &str, other_b64: &str) -> (merged: Result<String, FfiError>)
    ensures
        ({
            let base = psbt_of_text(base_b64@);
            let other = psbt_of_text(other_b64@);
            let no_more = forall|i: int|
                base->0.inputs.len() <= i < other->0.inputs.len() ==> (
                #[trigger] other->0.inputs[i]).sigs == Map::<SigKey, Seq<u8>>::empty();
            match merged {
                Ok(text) => {
                    let view = PsbtView {
                        inputs: merge_inputs(base->0.inputs, other->0.inputs),
                        ..base->0
                    };
                    &&& base is Some && other is Some && no_more
                    &&& text@ == psbt_text(view)
                    &&& psbt_of_text(text@) == Some(view)
                },
                Err(error) => if base is None {
                    psbt_fails(base_b64@, error)
                } else if other is None {
                    psbt_fails(other_b64@, error)
                } else {
                    error is TooManyInputs && !no_more
                },
            }
        }),
{
    let mut base = match psbt_from_base64(base_b64) {
        Ok(psbt) => psbt,
        Err(error) => return Err(FfiError::Psbt(error)),
    };
    let other = match psbt_from_base64(other_b64) {
        Ok(psbt) => psbt,
        Err(error) => return Err(FfiError::Psbt(error)),
    };
    if !no_sigs_from(&other, input_count(&base)) {
        return Err(FfiError::TooManyInputs);
    }
    match spend::merge_ark_tx_sigs(&mut base, &other) {
        Ok(_) => Ok(psbt_to_base64(&base)),
        Err(error) => Err(FfiError::Spend(error)),
    }
}

// -- What holds of every text --

/// Whether a character is the hexadecimal digit of a number, in either case.
pub open spec fn is_hex_digit(byte: u8, value: int) -> bool {
    &&& 0 <= value < 16
    &&& byte == "0123456789abcdef"@[value] as u8 || byte == "0123456789ABCDEF"@[value] as u8
}

/// Hexadecimal is read digit by digit: a text stands for 32 bytes exactly if, without a
/// leading `0x`, it is 64 characters long and each of them is a digit, or a plus sign in place
/// of the first digit of a byte. Then it stands for the bytes that have these digits.
pub proof fn lemma_hex_is_read_by_digits(hex: &str, bytes: Result<[u8; 32], FfiError>)
    requires
        call_ensures(hex_to_32_bytes, (hex,), bytes),
    ensures
        ({
            let text = encode_utf8(hex@);
            let start = if text.len() >= 2 && text[0] == 0x30 && text[1] == 0x78 {
                2int
            } else {
                0int
            };
            let length = text.len() - start;
            match bytes {
                Ok(b) => {
                    &&& length == 64
                    &&& forall|i: int|
                        0 <= i < 32 ==> {
                            let first = text[start + 2 * i];
                            &&& is_hex_digit(first, (#[trigger] b@[i]) as int / 16) || first == 0x2b
                                && b@[i] < 16
                            &&& is_hex_digit(text[start + 2 * i + 1], b@[i] as int % 16)
                        }
                },
                Err(error) => {
                    ||| length != 64 && error == FfiError::HexLength(length as usize)
                    ||| length == 64 && error is HexDigit && exists|at: int|
                        {
                            &&& start <= at < text.len()
                            &&& #[trigger] text[at] == 0x2b ==> (at - start) % 2 == 1
                            &&& forall|value: int| !is_hex_digit(text[at], value)
                        }
                },
            }
        }),
{
    let text = encode_utf8(hex@);
    let start = if text.len() >= 2 && text[0] == 0x30 && text[1] == 0x78 {
        2int
    } else {
        0int
    };
    let digits = hex_digits(hex@);
    assert(digits =~= text.skip(start));
    match bytes {
        Ok(b) => {
            assert forall|i: int| 0 <= i < 32 implies {
                let first = text[start + 2 * i];
                &&& is_hex_digit(first, (#[trigger] b@[i]) as int / 16) || first == 0x2b && b@[i]
                    < 16
                &&& is_hex_digit(text[start + 2 * i + 1], b@[i] as int % 16)
            } by {
                assert(byte_at(digits, i) is Some);
                assert(bytes_of_hex(hex@)->0[i] == b@[i]);
                assert(digits[2 * i] == text[start + 2 * i]);
                assert(digits[2 * i + 1] == text[start + 2 * i + 1]);
                lemma_hex_digit(text[start + 2 * i]);
                lemma_hex_digit(text[start + 2 * i + 1]);
            }
        },
        Err(error) => {
            if digits.len() == 64 {
                let i = choose|i: int| 0 <= i < 32 && #[trigger] byte_at(digits, i) is None;
                assert(digits[2 * i] == text[start + 2 * i]);
                assert(digits[2 * i + 1] == text[start + 2 * i + 1]);
                lemma_hex_digit(text[start + 2 * i]);
                lemma_hex_digit(text[start + 2 * i + 1]);
                let at = if digit_value(text[start + 2 * i + 1]) is None {
                    start + 2 * i + 1
                } else {
                    start + 2 * i
                };
                assert forall|value: int| !is_hex_digit(text[at], value) by {}
            }
        },
    }
}

/// A character is the digit of the number that it is read as, and of no other.
proof fn lemma_hex_digit(byte: u8)
    ensures
        digit_value(byte) matches Some(v) ==> is_hex_digit(byte, v as int),
        digit_value(byte) is None ==> forall|value: int| !is_hex_digit(byte, value),
{
    reveal_strlit("0123456789abcdef");
    reveal_strlit("0123456789ABCDEF");
}

/// Networks and signer sets are known by these names and by no others.
pub proof fn lemma_names(
    name: &str,
    network: Result<Network, FfiError>,
    signer_set: Result<SignerSet, FfiError>,
)
    requires
        call_ensures(parse_network, (name,), network),
        call_ensures(parse_signer_set, (name,), signer_set),
    ensures
        network matches Ok(n) ==> match n {
            Network::Bitcoin => name@ == "mainnet"@ || name@ == "bitcoin"@,
            Network::Testnet => name@ == "testnet"@,
            Network::Signet => name@ == "signet"@ || name@ == "mutinynet"@,
            Network::Regtest => name@ == "regtest"@,
            Network::Testnet4 => false,
        },
        network is Err ==> name@ != "mainnet"@ && name@ != "bitcoin"@ && name@ != "testnet"@
            && name@ != "signet"@ && name@ != "mutinynet"@ && name@ != "regtest"@,
        signer_set matches Ok(s) ==> match s {
            SignerSet::BuyerArbiter => name@ == "buyer_arbiter"@,
            SignerSet::SellerArbiter => name@ == "seller_arbiter"@,
            SignerSet::SellerBuyer => name@ == "seller_buyer"@,
        },
        signer_set is Err ==> name@ != "buyer_arbiter"@ && name@ != "seller_arbiter"@ && name@
            != "seller_buyer"@,
{
}

/// Fees are read one for one, to the addresses that the texts stand for, and fail only if one
/// of these stands for none.
pub proof fn lemma_fees_are_read_one_for_one(
    fee_outputs: &Vec<(String, u64)>,
    outputs: Result<Vec<FeeOutput>, FfiError>,
)
    requires
        call_ensures(parse_fee_outputs, (fee_outputs,), outputs),
    ensures
        outputs matches Ok(o) ==> {
            &&& o@.len() == fee_outputs@.len()
            &&& forall|i: int|
                0 <= i < o@.len() ==> {
                    &&& canonical_address((#[trigger] fee_outputs@[i]).0@) == Some(o@[i].address@)
                    &&& o@[i].amount == fee_outputs@[i].1
                }
        },
        outputs is Err <==> exists|i: int|
            0 <= i < fee_outputs@.len() && canonical_address((#[trigger] fee_outputs@[i]).0@)
                is None,
{
    let pairs = pair_views(fee_outputs@);
    assert forall|i: int| 0 <= i < pairs.len() implies #[trigger] pairs[i] == (
        fee_outputs@[i].0@,
        fee_outputs@[i].1,
    ) by {}
    match outputs {
        Ok(o) => {
            assert(fee_views(o@).len() == pairs.len());
            assert forall|i: int| 0 <= i < o@.len() implies {
                &&& canonical_address((#[trigger] fee_outputs@[i]).0@) == Some(o@[i].address@)
                &&& o@[i].amount == fee_outputs@[i].1
            } by {
                assert(canonical_address(pairs[i].0) is Some);
                assert(fee_views(o@)[i] == fees_of(pairs)[i]);
                assert(fee_views(o@)[i] == o@[i]@);
            }
        },
        Err(_) => {
            let i = choose|i: int|
                0 <= i < pairs.len() && canonical_address((#[trigger] pairs[i]).0) is None;
            assert(canonical_address(fee_outputs@[i].0@) is None);
        },
    }
}

/// A quote says what a release pays: offchain all fees, in a batch those that reach the dust
/// limit, and to the buyer all that is left.
pub proof fn lemma_quote_says_what_is_paid(
    escrow_amount_sats: u64,
    fee_outputs: &Vec<(String, u64)>,
    use_delegate: bool,
    dust: u64,
    quote: Result<(u64, Vec<(String, u64)>, Vec<(String, u64)>), FfiError>,
)
    requires
        call_ensures(
            quote_release,
            (escrow_amount_sats, fee_outputs, use_delegate, dust),
            quote,
        ),
    ensures
        ({
            let fees = fee_outputs@.map_values(
                |pair: (String, u64)| (canonical_address(pair.0@)->0, pair.1),
            );
            let paid = fees.filter(|fee: (Seq<char>, u64)| !use_delegate || fee.1 >= dust);
            let unpaid = fees.filter(|fee: (Seq<char>, u64)| use_delegate && fee.1 < dust);
            let total = paid.fold_left(0, |sum: int, fee: (Seq<char>, u64)| sum + fee.1);
            let are_addresses = forall|i: int|
                0 <= i < fee_outputs@.len() ==> canonical_address((#[trigger] fee_outputs@[i]).0@)
                    is Some;
            &&& quote is Ok <==> are_addresses && escrow_amount_sats - total >= dust
            &&& quote matches Ok((buyer_amount, effective, discarded)) ==> {
                &&& buyer_amount == escrow_amount_sats - total
                &&& effective@.map_values(|pair: (String, u64)| (pair.0@, pair.1)) == paid
                &&& discarded@.map_values(|pair: (String, u64)| (pair.0@, pair.1)) == unpaid
            }
            &&& are_addresses && total <= u64::MAX && escrow_amount_sats < total ==> (quote
                matches Err(FfiError::Plan(error)) && error is FeeExceedsEscrow)
            &&& are_addresses && 0 <= escrow_amount_sats - total < dust ==> (quote matches Err(
                FfiError::Plan(error),
            ) && error is DustExceedsPayout)
        }),
{
    let pairs = pair_views(fee_outputs@);
    let mode = release_mode(use_delegate);
    let fees = fee_outputs@.map_values(
        |pair: (String, u64)| (canonical_address(pair.0@)->0, pair.1),
    );
    assert(fees_of(pairs) =~= fees);
    let pays = |fee: (Seq<char>, u64)| !use_delegate || fee.1 >= dust;
    let skips = |fee: (Seq<char>, u64)| use_delegate && fee.1 < dust;
    lemma_same_filter(fees, pays, |fee: (Seq<char>, u64)| fee_is_paid(fee.1, mode, dust));
    lemma_same_filter(fees, skips, |fee: (Seq<char>, u64)| !fee_is_paid(fee.1, mode, dust));
    lemma_fee_sum_folds(fees.filter(pays));
    assert forall|i: int| 0 <= i < pairs.len() implies (#[trigger] pairs[i]).0
        == fee_outputs@[i].0@ by {}
    if all_addresses(pairs) {
        assert forall|i: int| 0 <= i < fee_outputs@.len() implies canonical_address(
            (#[trigger] fee_outputs@[i]).0@,
        ) is Some by {
            assert(canonical_address(pairs[i].0) is Some);
        }
    } else {
        let i = choose|i: int|
            0 <= i < pairs.len() && canonical_address((#[trigger] pairs[i]).0) is None;
        assert(canonical_address(fee_outputs@[i].0@) is None);
    }
}

/// Tests that agree pick the same.
proof fn lemma_same_filter(
    fees: Seq<(Seq<char>, u64)>,
    picks: spec_fn((Seq<char>, u64)) -> bool,
    chooses: spec_fn((Seq<char>, u64)) -> bool,
)
    requires
        forall|fee: (Seq<char>, u64)| #[trigger] picks(fee) == chooses(fee),
    ensures
        fees.filter(picks) == fees.filter(chooses),
    decreases fees.len(),
{
    reveal(Seq::filter);
    if fees.len() > 0 {
        lemma_same_filter(fees.drop_last(), picks, chooses);
        assert(picks(fees.last()) == chooses(fees.last()));
    }
}

/// Whether texts write the transactions of a spend, one for one.
pub open spec fn is_written_as(txs: EscrowTransaction, texts: SpendTexts) -> bool {
    &&& texts.ark_tx@ == base64_text(psbt_bytes(psbt_frame(txs.ark_tx), psbt_inputs(txs.ark_tx)))
    &&& texts.checkpoint_txs@.len() == txs.checkpoint_txs@.len()
    &&& forall|i: int|
        0 <= i < txs.checkpoint_txs@.len() ==> (#[trigger] texts.checkpoint_txs@[i])@
            == base64_text(
            psbt_bytes(psbt_frame(txs.checkpoint_txs@[i]), psbt_inputs(txs.checkpoint_txs@[i])),
        )
}

proof fn lemma_is_written_as(txs: EscrowTransaction, texts: SpendTexts)
    requires
        writes_spend(texts, txs),
    ensures
        is_written_as(txs, texts),
{
    let views = psbt_views(txs.checkpoint_txs@);
    assert(text_views(texts.checkpoint_txs@).len() == psbt_texts(views).len());
    assert forall|i: int| 0 <= i < txs.checkpoint_txs@.len() implies (
    #[trigger] texts.checkpoint_txs@[i])@ == base64_text(
        psbt_bytes(psbt_frame(txs.checkpoint_txs@[i]), psbt_inputs(txs.checkpoint_txs@[i])),
    ) by {
        assert(text_views(texts.checkpoint_txs@)[i] == psbt_texts(views)[i]);
        assert(views[i] == psbt_view(txs.checkpoint_txs@[i]));
    }
}

/// A release in text is the release of the very VTXO that is given, through the leaf of the
/// signer set of that name: it pays the buyer all that the escrow holds but the fees, and
/// every fee of more than nothing to its own address. It is built exactly if all texts stand
/// for something and the amount can be paid out.
pub proof fn lemma_release_in_text_pays_buyer_and_every_fee(
    contract: &EscrowContract,
    escrow_outpoint: &str,
    escrow_amount_sats: u64,
    buyer_dest_address: &str,
    fee_outputs: &Vec<(String, u64)>,
    signer_set: &str,
    server_info: &ServerInfo,
    built: Result<SpendTexts, FfiError>,
)
    requires
        call_ensures(
            build_release,
            (
                contract,
                escrow_outpoint,
                escrow_amount_sats,
                buyer_dest_address,
                fee_outputs,
                signer_set,
                server_info,
            ),
            built,
        ),
    ensures
        ({
            let options = contract.terms();
            let fees = fee_outputs@.map_values(
                |pair: (String, u64)| (canonical_address(pair.0@)->0, pair.1),
            );
            let are_addresses = forall|i: int|
                0 <= i < fee_outputs@.len() ==> canonical_address((#[trigger] fee_outputs@[i]).0@)
                    is Some;
            &&& built is Ok <==> {
                &&& outpoint_of_text(escrow_outpoint@) is Some
                &&& canonical_address(buyer_dest_address@) is Some
                &&& are_addresses
                &&& signer_set_of(signer_set@) is Some
                &&& can_pay_out(
                    escrow_amount_sats,
                    fees,
                    server_info.dust,
                    server_info.vtxo_min_amount,
                )
            }
            &&& built matches Ok(texts) ==> exists|txs: EscrowTransaction|
                {
                    &&& #[trigger] is_written_as(txs, texts)
                    &&& pays_out(
                        frame_outputs(psbt_frame(txs.ark_tx)),
                        escrow_amount_sats,
                        canonical_address(buyer_dest_address@)->0,
                        fees,
                        server_info.dust,
                    )
                    &&& spends_through(
                        txs,
                        options,
                        outpoint_of_text(escrow_outpoint@)->0,
                        escrow_amount_sats,
                        leaf_of_parties(signer_set_of(signer_set@)->0, options),
                    )
                }
        }),
{
    let options = contract.terms();
    let pairs = pair_views(fee_outputs@);
    let fees = fee_outputs@.map_values(
        |pair: (String, u64)| (canonical_address(pair.0@)->0, pair.1),
    );
    assert(fees_of(pairs) =~= fees);
    lemma_fee_sum_folds(fees);
    assert forall|i: int| 0 <= i < pairs.len() implies (#[trigger] pairs[i]).0
        == fee_outputs@[i].0@ by {}
    if all_addresses(pairs) {
        assert forall|i: int| 0 <= i < fee_outputs@.len() implies canonical_address(
            (#[trigger] fee_outputs@[i]).0@,
        ) is Some by {
            assert(canonical_address(pairs[i].0) is Some);
        }
    } else {
        let i = choose|i: int|
            0 <= i < pairs.len() && canonical_address((#[trigger] pairs[i]).0) is None;
        assert(canonical_address(fee_outputs@[i].0@) is None);
    }
    let buyer = canonical_address(buyer_dest_address@)->0;
    let set = signer_set_of(signer_set@)->0;
    match built {
        Ok(texts) => {
            let (txs, vtxo) = choose|txs: EscrowTransaction, vtxo: EscrowVtxo|
                is_vtxo_of(vtxo, escrow_outpoint@, escrow_amount_sats) && #[trigger] tells_release(
                    texts,
                    txs,
                    options,
                    vtxo,
                    buyer,
                    fees,
                    set,
                    server_info.terms(),
                );
            lemma_is_written_as(txs, texts);
            lemma_payable_is_paid_out(options, vtxo, buyer, fees, set, *server_info);
            lemma_release_pays_out(txs, options, vtxo, buyer, fees, set, *server_info);
            lemma_payment_spends_the_escrow(
                txs,
                release_receivers(buyer, vtxo.amount, fees),
                buyer,
                options,
                vtxo,
                set,
                server_info.terms(),
            );
        },
        Err(error) => {
            if error is Spend && error->Spend_0 is BuildRelease && escrow_amount_sats - fee_sum(
                fees,
            ) >= server_info.dust && outpoint_of_text(escrow_outpoint@) is Some {
                let vtxo = choose|vtxo: EscrowVtxo| #[trigger]
                    is_vtxo_of(vtxo, escrow_outpoint@, escrow_amount_sats);
                lemma_payable_is_paid_out(options, vtxo, buyer, fees, set, *server_info);
            }
        },
    }
}

/// A refund in text is the refund of the very VTXO that is given, through the leaf of the
/// signer set of that name, and pays the seller all of it. It is built exactly if all texts
/// stand for something and the amount is no less than the server's least amount.
pub proof fn lemma_refund_in_text_pays_seller_all(
    contract: &EscrowContract,
    escrow_outpoint: &str,
    escrow_amount_sats: u64,
    seller_dest_address: &str,
    signer_set: &str,
    server_info: &ServerInfo,
    built: Result<SpendTexts, FfiError>,
)
    requires
        call_ensures(
            build_refund,
            (
                contract,
                escrow_outpoint,
                escrow_amount_sats,
                seller_dest_address,
                signer_set,
                server_info,
            ),
            built,
        ),
    ensures
        ({
            let options = contract.terms();
            let least = match server_info.vtxo_min_amount {
                Some(least) => least as int,
                None => 1,
            };
            &&& built is Ok <==> {
                &&& outpoint_of_text(escrow_outpoint@) is Some
                &&& canonical_address(seller_dest_address@) is Some
                &&& signer_set_of(signer_set@) is Some
                &&& escrow_amount_sats >= least
            }
            &&& built matches Ok(texts) ==> exists|txs: EscrowTransaction|
                {
                    &&& #[trigger] is_written_as(txs, texts)
                    &&& pays_back(
                        frame_outputs(psbt_frame(txs.ark_tx)),
                        escrow_amount_sats,
                        canonical_address(seller_dest_address@)->0,
                        server_info.dust,
                    )
                    &&& spends_through(
                        txs,
                        options,
                        outpoint_of_text(escrow_outpoint@)->0,
                        escrow_amount_sats,
                        leaf_of_parties(signer_set_of(signer_set@)->0, options),
                    )
                }
        }),
{
    if let Ok(texts) = built {
        let options = contract.terms();
        let seller = canonical_address(seller_dest_address@)->0;
        let set = signer_set_of(signer_set@)->0;
        let terms = server_info.terms();
        let (txs, vtxo) = choose|txs: EscrowTransaction, vtxo: EscrowVtxo|
            is_vtxo_of(vtxo, escrow_outpoint@, escrow_amount_sats) && #[trigger] tells_refund(
                texts,
                txs,
                options,
                vtxo,
                seller,
                set,
                terms,
            );
        lemma_is_written_as(txs, texts);
        lemma_refund_pays_back(txs, options, vtxo, seller, set, *server_info);
        lemma_payment_spends_the_escrow(
            txs,
            seq![(seller, vtxo.amount)],
            seller,
            options,
            vtxo,
            set,
            terms,
        );
    }
}

/// A contract in text is made exactly if the keys are four different x-only keys in
/// hexadecimal, the network is known and the delay is a relative lock-time other than zero. It
/// has each of the keys in its own role, the very delay and that network.
pub proof fn lemma_contract_in_text(
    seller_pk: &str,
    buyer_pk: &str,
    arbiter_pk: &str,
    server_pk: &str,
    unilateral_exit_delay: u32,
    network: &str,
    contract: Result<EscrowContract, FfiError>,
)
    requires
        call_ensures(
            contract_from_text,
            (seller_pk, buyer_pk, arbiter_pk, server_pk, unilateral_exit_delay, network),
            contract,
        ),
    ensures
        ({
            let seller = bytes_of_hex(seller_pk@);
            let buyer = bytes_of_hex(buyer_pk@);
            let arbiter = bytes_of_hex(arbiter_pk@);
            let server = bytes_of_hex(server_pk@);
            let are_keys = {
                &&& seller is Some && is_x_only_key(seller->0)
                &&& buyer is Some && is_x_only_key(buyer->0)
                &&& arbiter is Some && is_x_only_key(arbiter->0)
                &&& server is Some && is_x_only_key(server->0)
            };
            let are_distinct = {
                &&& seller != buyer && seller != arbiter && seller != server
                &&& buyer != arbiter && buyer != server && arbiter != server
            };
            &&& contract is Ok <==> {
                &&& are_keys
                &&& network_of(network@) is Some
                &&& are_distinct
                &&& 1 <= unilateral_exit_delay <= 0x7fff_ffff
            }
            &&& contract matches Ok(c) ==> {
                &&& c.terms().seller@ == seller->0
                &&& c.terms().buyer@ == buyer->0
                &&& c.terms().arbiter@ == arbiter->0
                &&& c.terms().server@ == server->0
                &&& c.terms().unilateral_exit_delay == unilateral_exit_delay
                &&& c.on_network() == network_of(network@)->0
            }
            &&& are_keys && contract is Err ==> match contract->Err_0 {
                FfiError::UnknownNetwork(name) => {
                    name@ == network@ && network_of(network@) is None
                },
                FfiError::Contract(error) => {
                    &&& network_of(network@) is Some
                    &&& error is DuplicateKeys <==> !are_distinct
                    &&& error is ZeroDelay <==> are_distinct && unilateral_exit_delay == 0
                    &&& error is NotRelativeLockTime <==> are_distinct && unilateral_exit_delay
                        > 0x7fff_ffff
                },
                _ => false,
            }
        }),
{
    if is_x_only_hex(seller_pk@) && is_x_only_hex(buyer_pk@) && is_x_only_hex(arbiter_pk@)
        && is_x_only_hex(server_pk@) {
        let keys = seq![
            bytes_of_hex(seller_pk@)->0,
            bytes_of_hex(buyer_pk@)->0,
            bytes_of_hex(arbiter_pk@)->0,
            bytes_of_hex(server_pk@)->0,
        ];
        assert(keys.len() == 4);
        if contract is Err && !keys.no_duplicates() {
            let (i, j) = choose|i: int, j: int|
                0 <= i < keys.len() && 0 <= j < keys.len() && i != j && keys[i] == keys[j];
            assert(keys[i] == keys[j]);
        }
        if contract is Err && keys.no_duplicates() {
            assert(keys[0] != keys[1] && keys[0] != keys[2] && keys[0] != keys[3]);
            assert(keys[1] != keys[2] && keys[1] != keys[3] && keys[2] != keys[3]);
        }
    }
}

/// VTXOs are read one for one and in order, each with its own outpoint, amount and whether it
/// is swept, and fail only if one of the texts is no outpoint.
pub proof fn lemma_vtxos_are_read_one_for_one(
    vtxos_data: &Vec<(String, u64, bool)>,
    vtxos: Result<Vec<RefreshVtxo>, FfiError>,
)
    requires
        call_ensures(parse_refresh_vtxos, (vtxos_data,), vtxos),
    ensures
        vtxos matches Ok(v) ==> {
            &&& v@.len() == vtxos_data@.len()
            &&& forall|i: int|
                0 <= i < v@.len() ==> {
                    let given = #[trigger] vtxos_data@[i];
                    &&& outpoint_of_text(given.0@) == Some(
                        (v@[i].outpoint.txid@, v@[i].outpoint.vout),
                    )
                    &&& v@[i].amount == given.1
                    &&& v@[i].is_swept == given.2
                }
        },
        vtxos is Err <==> exists|i: int|
            0 <= i < vtxos_data@.len() && outpoint_of_text((#[trigger] vtxos_data@[i]).0@) is None,
{
    let texts = vtxo_text_views(vtxos_data@);
    assert forall|i: int| 0 <= i < texts.len() implies (#[trigger] texts[i]).0
        == vtxos_data@[i].0@ && texts[i].1 == vtxos_data@[i].1 && texts[i].2
        == vtxos_data@[i].2 by {}
    match vtxos {
        Ok(v) => {
            assert forall|i: int| 0 <= i < v@.len() implies {
                let given = #[trigger] vtxos_data@[i];
                &&& outpoint_of_text(given.0@) == Some((v@[i].outpoint.txid@, v@[i].outpoint.vout))
                &&& v@[i].amount == given.1
                &&& v@[i].is_swept == given.2
            } by {
                assert(outpoint_of_text(texts[i].0) == Some(v@[i].outpoint@));
            }
        },
        Err(_) => {
            let i = choose|i: int|
                0 <= i < texts.len() && outpoint_of_text((#[trigger] texts[i]).0) is None;
            assert(outpoint_of_text(vtxos_data@[i].0@) is None);
        },
    }
}

/// VTXOs that are written are read back as they were: as many, in the same order.
pub proof fn lemma_vtxos_read_back(
    vtxos: &Vec<RefreshVtxo>,
    texts: Vec<(String, u64, bool)>,
    read: Result<Vec<RefreshVtxo>, FfiError>,
)
    requires
        call_ensures(refresh_vtxo_texts, (vtxos,), texts),
        call_ensures(parse_refresh_vtxos, (&texts,), read),
    ensures
        read matches Ok(v) && v@ == vtxos@,
{
    lemma_vtxos_are_read_one_for_one(&texts, read);
    let views = vtxo_text_views(texts@);
    assert forall|i: int| 0 <= i < texts@.len() implies outpoint_of_text((#[trigger] texts@[i]).0@)
        is Some by {
        assert(outpoint_of_text(views[i].0) == Some(vtxos@[i].outpoint@));
    }
    if let Ok(v) = read {
        assert forall|i: int| 0 <= i < v@.len() implies v@[i] == vtxos@[i] by {
            assert(outpoint_of_text(views[i].0) == Some(vtxos@[i].outpoint@));
            assert(outpoint_of_text(texts@[i].0@) == Some(v@[i].outpoint@));
            v@[i].outpoint.txid.lemma_bytes(vtxos@[i].outpoint.txid);
        }
        assert(v@ =~= vtxos@);
    }
}

/// A VTXO that is written keeps its outpoint and its amount.
pub proof fn lemma_vtxo_is_written(vtxo: Option<EscrowVtxo>, text: Option<(String, u64)>)
    requires
        call_ensures(escrow_vtxo_text, (vtxo,), text),
    ensures
        text is Some <==> vtxo is Some,
        text matches Some(t) ==> {
            &&& outpoint_of_text(t.0@) == Some((vtxo->0.outpoint.txid@, vtxo->0.outpoint.vout))
            &&& t.1 == vtxo->0.amount
        },
{
}

/// The server's key is written digit by digit, without its parity.
pub proof fn lemma_server_key_is_written(server_info: &ServerInfo, text: String)
    requires
        call_ensures(server_pk, (server_info,), text),
    ensures
        is_hex_of(text@, server_info.signer_pk@.subrange(1, 33)),
{
    lemma_is_hex_of(server_info.signer_pk@.subrange(1, 33));
}

/// Whether a text writes bytes in hexadecimal, two digits each.
pub open spec fn is_hex_of(text: Seq<char>, bytes: Seq<u8>) -> bool {
    &&& text.len() == 2 * bytes.len()
    &&& forall|i: int|
        0 <= i < bytes.len() ==> {
            &&& is_hex_digit(text[2 * i] as u8, (#[trigger] bytes[i]) as int / 16)
            &&& is_hex_digit(text[2 * i + 1] as u8, bytes[i] as int % 16)
        }
}

proof fn lemma_is_hex_of(bytes: Seq<u8>)
    ensures
        is_hex_of(lower_hex(bytes), bytes),
{
    let text = lower_hex(bytes);
    assert forall|i: int| 0 <= i < bytes.len() implies {
        &&& is_hex_digit(text[2 * i] as u8, (#[trigger] bytes[i]) as int / 16)
        &&& is_hex_digit(text[2 * i + 1] as u8, bytes[i] as int % 16)
    } by {
        assert((2 * i) / 2 == i && (2 * i + 1) / 2 == i);
        assert((2 * i) % 2 == 0 && (2 * i + 1) % 2 == 1);
        lemma_hex_digit(text[2 * i] as u8);
        lemma_hex_digit(text[2 * i + 1] as u8);
    }
}

/// Whether a text is the base64 of a PSBT of this frame and these inputs.
pub open spec fn is_psbt_text(text: Seq<char>, frame: Seq<u8>, inputs: Seq<InputView>) -> bool {
    base64_bytes(text) matches Some(bytes) && psbt_of_bytes(bytes) == Some((frame, inputs))
}

/// Whether a text is a secret key in hexadecimal.
pub open spec fn is_secret_hex(text: Seq<char>) -> bool {
    bytes_of_hex(text) matches Some(secret) && is_secret_key(secret)
}

/// Whether inputs are as they were, but for one more signature on the first: that of a key on
/// a digest, filed under the key and the leaf of the input.
pub open spec fn files_on_first(
    was: Seq<InputView>,
    now: Seq<InputView>,
    key: Seq<u8>,
    digest: Seq<u8>,
) -> bool {
    &&& now.len() == was.len() > 0
    &&& now.skip(1) == was.skip(1)
    &&& now[0].other == was[0].other
    &&& now[0].witness_script == was[0].witness_script
    &&& now[0].sigs == was[0].sigs.insert(
        (key, input_leaf_hash(was[0].other)->0),
        x_only_signature(key, digest),
    )
}

/// Signing an ark transaction in text files the signature of the secret key on its first input,
/// for all outputs that it spends, and gives back the text of a PSBT that is otherwise the
/// same.
pub proof fn lemma_ark_tx_in_text_is_signed(
    psbt_b64: &str,
    secret_key_hex: &str,
    frame: Seq<u8>,
    was: Seq<InputView>,
    signed: Result<String, FfiError>,
)
    requires
        is_psbt_text(psbt_b64@, frame, was),
        call_ensures(sign_ark_tx, (psbt_b64, secret_key_hex), signed),
    ensures
        signed is Ok <==> {
            &&& is_secret_hex(secret_key_hex@)
            &&& was.len() > 0
            &&& input_leaf_hash(was[0].other) is Some
            &&& forall|i: int| 0 <= i < was.len() ==> witness_utxo((#[trigger] was[i]).other) is Some
        },
        signed matches Ok(text) ==> exists|now: Seq<InputView>|
            {
                &&& #[trigger] is_psbt_text(text@, frame, now)
                &&& text@ == base64_text(psbt_bytes(frame, now))
                &&& files_on_first(
                    was,
                    now,
                    public_key_of(bytes_of_hex(secret_key_hex@)->0).subrange(1, 33),
                    script_spend_digest(frame, was.map_values(|input: InputView| input.other), 0),
                )
            },
{
    if let Ok(text) = signed {
        let secret = bytes_of_hex(secret_key_hex@)->0;
        let now = spend::ark_tx_signed(frame, was, secret);
        assert(is_psbt_text(text@, frame, now));
        assert(now.skip(1) =~= was.skip(1));
    }
}

/// Signing a checkpoint in text files the signature of the secret key on its only input, and
/// gives back the text of a PSBT that is otherwise the same.
pub proof fn lemma_checkpoint_in_text_is_signed(
    psbt_b64: &str,
    secret_key_hex: &str,
    frame: Seq<u8>,
    was: Seq<InputView>,
    signed: Result<String, FfiError>,
)
    requires
        is_psbt_text(psbt_b64@, frame, was),
        call_ensures(sign_checkpoint, (psbt_b64, secret_key_hex), signed),
    ensures
        signed is Ok <==> {
            &&& is_secret_hex(secret_key_hex@)
            &&& was.len() == 1
            &&& input_leaf_hash(was[0].other) is Some
            &&& witness_utxo(was[0].other) is Some
        },
        signed matches Ok(text) ==> exists|now: Seq<InputView>|
            {
                &&& #[trigger] is_psbt_text(text@, frame, now)
                &&& text@ == base64_text(psbt_bytes(frame, now))
                &&& files_on_first(
                    was,
                    now,
                    public_key_of(bytes_of_hex(secret_key_hex@)->0).subrange(1, 33),
                    script_spend_digest(frame, seq![was[0].other], 0),
                )
            },
{
    if let Ok(text) = signed {
        let secret = bytes_of_hex(secret_key_hex@)->0;
        let now = spend::checkpoint_signed(frame, was, secret);
        assert(is_psbt_text(text@, frame, now));
        assert(now.skip(1) =~= was.skip(1));
    }
}

/// Merging in text unites the signatures of two copies, input by input, and keeps all else of
/// the base.
pub proof fn lemma_merging_in_text_unites_signatures(
    base_b64: &str,
    other_b64: &str,
    frame: Seq<u8>,
    was: Seq<InputView>,
    other_frame: Seq<u8>,
    more: Seq<InputView>,
    merged: Result<String, FfiError>,
)
    requires
        is_psbt_text(base_b64@, frame, was),
        is_psbt_text(other_b64@, other_frame, more),
        call_ensures(merge_sigs, (base_b64, other_b64), merged),
    ensures
        merged is Ok <==> forall|i: int|
            was.len() <= i < more.len() ==> (#[trigger] more[i]).sigs.dom() =~= Set::<
                SigKey,
            >::empty(),
        merged matches Ok(text) ==> exists|now: Seq<InputView>|
            {
                &&& #[trigger] is_psbt_text(text@, frame, now)
                &&& now.len() == was.len()
                &&& forall|i: int|
                    0 <= i < was.len() ==> {
                        &&& (#[trigger] now[i]).other == was[i].other
                        &&& now[i].witness_script == was[i].witness_script
                        &&& now[i].sigs == (if i < more.len() {
                            more[i].sigs.union_prefer_right(was[i].sigs)
                        } else {
                            was[i].sigs
                        })
                    }
            },
{
    assert forall|i: int| was.len() <= i < more.len() implies ((#[trigger] more[i]).sigs == Map::<
        SigKey,
        Seq<u8>,
    >::empty() <==> more[i].sigs.dom() =~= Set::<SigKey>::empty()) by {
        if more[i].sigs.dom() =~= Set::<SigKey>::empty() {
            assert(more[i].sigs =~= Map::<SigKey, Seq<u8>>::empty());
        }
    }
    if let Ok(text) = merged {
        let now = merge_inputs(was, more);
        assert(is_psbt_text(text@, frame, now));
        assert forall|i: int| 0 <= i < was.len() implies (#[trigger] now[i]).sigs == (if i
            < more.len() {
            more[i].sigs.union_prefer_right(was[i].sigs)
        } else {
            was[i].sigs
        }) by {
            assert(now[i].sigs =~= (if i < more.len() {
                more[i].sigs.union_prefer_right(was[i].sigs)
            } else {
                was[i].sigs
            }));
        }
    }
}

/// A refresh or direct release in text is signed whole: the proof and every forfeit.
pub proof fn lemma_intent_in_text_is_signed(
    intent_proof_b64: &str,
    forfeit_psbts_b64: &Vec<String>,
    secret_key_hex: &str,
    proof_was: PsbtView,
    forfeits_were: Seq<PsbtView>,
    signed: Result<(String, Vec<String>), FfiError>,
)
    requires
        is_psbt_text(intent_proof_b64@, proof_was.frame, proof_was.inputs),
        are_psbt_texts(forfeit_psbts_b64@, forfeits_were),
        call_ensures(
            sign_intent_and_forfeits,
            (intent_proof_b64, forfeit_psbts_b64, secret_key_hex),
            signed,
        ),
    ensures
        signed is Ok <==> {
            &&& is_secret_hex(secret_key_hex@)
            &&& can_sign_delegate(proof_was, forfeits_were)
            &&& can_all_be_signed(proof_was, forfeits_were)
        },
        is_secret_hex(secret_key_hex@) && names_all_leaves(proof_was, forfeits_were)
            && can_all_be_signed(proof_was, forfeits_were) ==> signed is Ok,
        signed matches Ok((proof_text, forfeit_texts)) ==> exists|
            proof_now: PsbtView,
            forfeits_now: Seq<PsbtView>,
        |
            {
                &&& #[trigger] is_psbt_text(proof_text@, proof_now.frame, proof_now.inputs)
                &&& #[trigger] are_psbt_texts(forfeit_texts@, forfeits_now)
                &&& signs_everything(
                    proof_was,
                    proof_now,
                    forfeits_were,
                    forfeits_now,
                    public_key_of(bytes_of_hex(secret_key_hex@)->0).subrange(1, 33),
                )
            },
{
    let secret = bytes_of_hex(secret_key_hex@)->0;
    lemma_psbt_texts(forfeit_psbts_b64@, forfeits_were);
    lemma_signed_is_signed(proof_was, forfeits_were, secret);
    let proof_now = PsbtView {
        inputs: proof_signed(proof_was.frame, proof_was.inputs, secret),
        ..proof_was
    };
    let forfeits_now = forfeits_signed(forfeits_were, secret);
    if let Ok((proof_text, forfeit_texts)) = signed {
        assert(is_psbt_text(proof_text@, proof_now.frame, proof_now.inputs));
        lemma_psbts_of_texts(forfeit_texts@);
        assert(are_psbt_texts(forfeit_texts@, forfeits_now));
    }
}

/// Whether texts are the base64 of PSBTs, one for one.
pub open spec fn are_psbt_texts(texts: Seq<String>, psbts: Seq<PsbtView>) -> bool {
    &&& texts.len() == psbts.len()
    &&& forall|i: int|
        0 <= i < psbts.len() ==> is_psbt_text(
            (#[trigger] texts[i])@,
            psbts[i].frame,
            psbts[i].inputs,
        )
}

proof fn lemma_psbt_texts(texts: Seq<String>, psbts: Seq<PsbtView>)
    requires
        are_psbt_texts(texts, psbts),
    ensures
        all_psbts(text_views(texts)),
        psbts_of_texts(text_views(texts)) == psbts,
{
    let views = text_views(texts);
    assert forall|i: int| 0 <= i < views.len() implies psbt_of_text(#[trigger] views[i]) == Some(
        psbts[i],
    ) by {
        assert(is_psbt_text(texts[i]@, psbts[i].frame, psbts[i].inputs));
    }
    assert(psbts_of_texts(views) =~= psbts);
}

proof fn lemma_psbts_of_texts(texts: Seq<String>)
    requires
        all_psbts(text_views(texts)),
    ensures
        are_psbt_texts(texts, psbts_of_texts(text_views(texts))),
{
    let views = text_views(texts);
    let psbts = psbts_of_texts(views);
    assert forall|i: int| 0 <= i < psbts.len() implies is_psbt_text(
        (#[trigger] texts[i])@,
        psbts[i].frame,
        psbts[i].inputs,
    ) by {
        assert(views[i] == texts[i]@);
        assert(psbt_of_text(views[i]) is Some);
    }
}

/// A refresh is read as it was written: the proof, the message, every forfeit in its place, and
/// the key pair of the secret key with its public key.
pub proof fn lemma_refresh_is_read_whole(
    intent_proof_b64: &str,
    intent_message_json: &str,
    forfeit_psbts_b64: &Vec<String>,
    cosigner_sk_hex: &str,
    read: Result<(RefreshIntent, Keypair), FfiError>,
)
    requires
        call_ensures(
            read_refresh,
            (intent_proof_b64, intent_message_json, forfeit_psbts_b64, cosigner_sk_hex),
            read,
        ),
    ensures
        ({
            let secret = bytes_of_hex(cosigner_sk_hex@);
            &&& read matches Ok((refresh, cosigner)) ==> {
                &&& is_psbt_text(
                    intent_proof_b64@,
                    psbt_frame(refresh.intent.proof),
                    psbt_inputs(refresh.intent.proof),
                )
                &&& refresh.intent.message@ == intent_message_json@
                &&& are_psbt_texts(
                    forfeit_psbts_b64@,
                    refresh.forfeit_psbts@.map_values(
                        |psbt: Psbt| PsbtView { frame: psbt_frame(psbt), inputs: psbt_inputs(psbt) },
                    ),
                )
                &&& cosigner.secret_bytes() == secret->0
                &&& refresh.refresh_cosigner_pk@ == public_key_of(secret->0)
            }
            &&& read is Ok <==> {
                &&& exists|psbt: PsbtView| #[trigger]
                    is_psbt_text(intent_proof_b64@, psbt.frame, psbt.inputs)
                &&& is_intent_message(intent_message_json@)
                &&& exists|psbts: Seq<PsbtView>| #[trigger]
                    are_psbt_texts(forfeit_psbts_b64@, psbts)
                &&& secret is Some && is_secret_key(secret->0)
            }
        }),
{
    let forfeits = text_views(forfeit_psbts_b64@);
    match read {
        Ok((refresh, cosigner)) => {
            lemma_psbts_of_texts(forfeit_psbts_b64@);
            assert(psbt_views(refresh.forfeit_psbts@) =~= refresh.forfeit_psbts@.map_values(
                |psbt: Psbt| PsbtView { frame: psbt_frame(psbt), inputs: psbt_inputs(psbt) },
            ));
            let psbt = psbt_view(refresh.intent.proof);
            assert(is_psbt_text(intent_proof_b64@, psbt.frame, psbt.inputs));
        },
        Err(_) => {
            if exists|psbts: Seq<PsbtView>| #[trigger] are_psbt_texts(forfeit_psbts_b64@, psbts) {
                let psbts = choose|psbts: Seq<PsbtView>| #[trigger]
                    are_psbt_texts(forfeit_psbts_b64@, psbts);
                lemma_psbt_texts(forfeit_psbts_b64@, psbts);
            }
        },
    }
}

/// A spend is read as it was written: under its id, the ark transaction, each checkpoint in its
/// place, and each party's copies in theirs.
pub proof fn lemma_spend_is_read_whole(
    id: &str,
    merged_ark_tx_b64: &str,
    unsigned_checkpoint_txs_b64: &Vec<String>,
    party_signed_checkpoints_b64: &Vec<Vec<String>>,
    read: OffchainSpend,
)
    requires
        call_ensures(
            read_spend,
            (
                id,
                merged_ark_tx_b64,
                unsigned_checkpoint_txs_b64,
                party_signed_checkpoints_b64,
            ),
            Ok::<OffchainSpend, FfiError>(read),
        ),
    ensures
        read@ matches SpendStateView::Loading { id: kept, ark_tx, unsigned, parties } && {
            &&& kept == id@
            &&& is_psbt_text(merged_ark_tx_b64@, ark_tx.frame, ark_tx.inputs)
            &&& are_psbt_texts(unsigned_checkpoint_txs_b64@, unsigned)
            &&& parties.len() == party_signed_checkpoints_b64@.len()
            &&& forall|p: int|
                0 <= p < parties.len() ==> are_psbt_texts(
                    (#[trigger] party_signed_checkpoints_b64@[p])@,
                    parties[p],
                )
        },
{
    lemma_psbts_of_texts(unsigned_checkpoint_txs_b64@);
    let parties = party_psbts(party_signed_checkpoints_b64@);
    assert forall|p: int| 0 <= p < parties.len() implies are_psbt_texts(
        (#[trigger] party_signed_checkpoints_b64@[p])@,
        parties[p],
    ) by {
        lemma_psbts_of_texts(party_signed_checkpoints_b64@[p]@);
    }
}

/// The inputs by which VTXOs in text are settled: each through the leaf of a signer set.
pub open spec fn settled_from_text(
    vtxos_data: Seq<(String, u64, bool)>,
    options: EscrowOptions,
    leaf: Seq<u8>,
) -> Seq<IntentInputView> {
    vtxos_data.map_values(
        |vtxo: (String, u64, bool)|
            IntentInputView {
                spend: SpendInputView {
                    spend_script: leaf,
                    control_block: options.control_blocks()[leaf],
                    tapscripts: options.leaves(),
                    script_pubkey: options.output_script(),
                    amount: vtxo.1,
                    outpoint: outpoint_of_text(vtxo.0@)->0,
                },
                is_swept: vtxo.2,
            },
    )
}

/// Whether texts write a refresh: the proof, the message, each forfeit in its place, and the
/// cosigner's key.
pub open spec fn is_refresh_written_as(refresh: RefreshIntent, texts: RefreshTexts) -> bool {
    &&& texts.intent_proof@ == base64_text(
        psbt_bytes(psbt_frame(refresh.intent.proof), psbt_inputs(refresh.intent.proof)),
    )
    &&& texts.intent_message@ == refresh.intent.message@
    &&& texts.forfeit_psbts@.len() == refresh.forfeit_psbts@.len()
    &&& forall|i: int|
        0 <= i < refresh.forfeit_psbts@.len() ==> (#[trigger] texts.forfeit_psbts@[i])@
            == base64_text(
            psbt_bytes(
                psbt_frame(refresh.forfeit_psbts@[i]),
                psbt_inputs(refresh.forfeit_psbts@[i]),
            ),
        )
    &&& is_hex_of(texts.cosigner_pk@, refresh.refresh_cosigner_pk@)
}

proof fn lemma_is_refresh_written_as(refresh: RefreshIntent, texts: RefreshTexts)
    requires
        writes_refresh(texts, refresh),
    ensures
        is_refresh_written_as(refresh, texts),
{
    lemma_is_hex_of(refresh.refresh_cosigner_pk@);
    let views = psbt_views(refresh.forfeit_psbts@);
    assert(text_views(texts.forfeit_psbts@).len() == psbt_texts(views).len());
    assert forall|i: int| 0 <= i < refresh.forfeit_psbts@.len() implies (
    #[trigger] texts.forfeit_psbts@[i])@ == base64_text(
        psbt_bytes(psbt_frame(refresh.forfeit_psbts@[i]), psbt_inputs(refresh.forfeit_psbts@[i])),
    ) by {
        assert(text_views(texts.forfeit_psbts@)[i] == psbt_texts(views)[i]);
        assert(views[i] == psbt_view(refresh.forfeit_psbts@[i]));
    }
}

/// What is written of a refresh is all of it.
pub proof fn lemma_refresh_is_written_whole(refresh: &RefreshIntent, texts: RefreshTexts)
    requires
        call_ensures(refresh_texts, (refresh,), texts),
    ensures
        is_refresh_written_as(*refresh, texts),
{
    lemma_is_refresh_written_as(*refresh, texts);
}

/// What is written of a spend is all of it.
pub proof fn lemma_spend_is_written_whole(txs: &EscrowTransaction, texts: SpendTexts)
    requires
        call_ensures(spend_texts, (txs,), texts),
    ensures
        is_written_as(*txs, texts),
{
    lemma_is_written_as(*txs, texts);
}

/// A refresh in text settles exactly the VTXOs that are given, each through the leaf of the
/// signer set of that name, pays all that they hold back to the contract under the server's
/// active key, and is prepared for the key pair of the secret key. When all texts stand for
/// something and nothing overflows, it fails only if the key is that of a party, or if the
/// outside call refuses to settle just that.
pub proof fn lemma_refresh_in_text_pays_back_all(
    contract: &EscrowContract,
    vtxos_data: &Vec<(String, u64, bool)>,
    signer_set: &str,
    cosigner_sk_hex: &str,
    server_info: &ServerInfo,
    prepared: Result<RefreshTexts, FfiError>,
)
    requires
        call_ensures(
            prepare_refresh,
            (contract, vtxos_data, signer_set, cosigner_sk_hex, server_info),
            prepared,
        ),
    ensures
        ({
            let options = contract.terms();
            let active = EscrowOptions {
                server: server_info.signer_pk.without_parity(),
                ..options
            };
            let inputs = settled_from_text(
                vtxos_data@,
                options,
                leaf_of_parties(signer_set_of(signer_set@)->0, options),
            );
            let total = vtxos_data@.fold_left(
                0,
                |sum: int, vtxo: (String, u64, bool)| sum + vtxo.1,
            );
            let outputs = seq![(total as u64, active.output_script())];
            let cosigner = public_key_of(bytes_of_hex(cosigner_sk_hex@)->0);
            let are_outpoints = forall|i: int|
                0 <= i < vtxos_data@.len() ==> outpoint_of_text((#[trigger] vtxos_data@[i]).0@)
                    is Some;
            let can_give_up = forall|i: int|
                0 <= i < vtxos_data@.len() && !(#[trigger] vtxos_data@[i]).2 && vtxos_data@[i].1
                    >= server_info.dust ==> vtxos_data@[i].1 + server_info.dust <= u64::MAX;
            let is_asked = {
                &&& are_outpoints
                &&& signer_set_of(signer_set@) is Some
                &&& is_secret_hex(cosigner_sk_hex@)
                &&& total <= u64::MAX
                &&& active.keys_are_distinct()
                &&& can_give_up
            };
            &&& prepared is Ok ==> is_asked && vtxos_data@.len() > 0
            &&& is_asked && prepared is Err ==> {
                &&& prepared->Err_0 matches FfiError::Refresh(RefreshError::Prepare(e))
                &&& refuses(
                    inputs,
                    outputs,
                    cosigner,
                    server_info.forfeit_address@,
                    server_info.dust,
                    e,
                )
            }
            &&& prepared matches Ok(texts) ==> exists|refresh: RefreshIntent|
                {
                    &&& #[trigger] is_refresh_written_as(refresh, texts)
                    &&& settles_vtxos(
                        Delegate {
                            intent: refresh.intent,
                            forfeit_psbts: refresh.forfeit_psbts,
                            delegate_cosigner_pk: refresh.refresh_cosigner_pk,
                        },
                        inputs,
                        outputs,
                        cosigner,
                        onchain_script(server_info.forfeit_address@)->0,
                        server_info.dust,
                    )
                }
        }),
{
    let options = contract.terms();
    let set = signer_set_of(signer_set@)->0;
    let texts = vtxo_text_views(vtxos_data@);
    let vtxos = vtxos_of(texts);
    let cosigner = public_key_of(bytes_of_hex(cosigner_sk_hex@)->0);
    assert forall|i: int| 0 <= i < texts.len() implies (#[trigger] texts[i]).0
        == vtxos_data@[i].0@ && texts[i].1 == vtxos_data@[i].1 && texts[i].2
        == vtxos_data@[i].2 by {}
    if !all_outpoints(texts) {
        let i = choose|i: int|
            0 <= i < texts.len() && outpoint_of_text((#[trigger] texts[i]).0) is None;
        assert(outpoint_of_text(vtxos_data@[i].0@) is None);
    } else {
        assert forall|i: int| 0 <= i < vtxos_data@.len() implies outpoint_of_text(
            (#[trigger] vtxos_data@[i]).0@,
        ) is Some by {
            assert(outpoint_of_text(texts[i].0) is Some);
        }
        assert(are_vtxos_of(vtxos, texts));
        lemma_text_sum(vtxos_data@, vtxos);
        lemma_vtxo_sum_is_a_sum(vtxos);
        lemma_leaf_of_parties(set, options);
        let inputs = vtxos.map_values(|vtxo: RefreshVtxo| settled_input(options, vtxo, set));
        assert forall|i: int| 0 <= i < vtxos.len() implies inputs[i] == settled_from_text(
            vtxos_data@,
            options,
            leaf_of_parties(set, options),
        )[i] by {
            assert(outpoint_of_text(texts[i].0) == Some(vtxos[i].outpoint@));
        }
        assert(inputs =~= settled_from_text(vtxos_data@, options, leaf_of_parties(set, options)));
        assert forall|i: int| 0 <= i < vtxos.len() implies {
            &&& (#[trigger] vtxos[i]).amount == vtxos_data@[i].1
            &&& vtxos[i].is_swept == vtxos_data@[i].2
        } by {}
        if let Ok(texts) = prepared {
            let refresh = choose|refresh: RefreshIntent| #[trigger]
                tells_refresh(texts, refresh, options, vtxos, set, cosigner, *server_info);
            assert forall|i: int|
                0 <= i < vtxos_data@.len() && !(#[trigger] vtxos_data@[i]).2 && vtxos_data@[i].1
                    >= server_info.dust implies vtxos_data@[i].1 + server_info.dust
                <= u64::MAX by {
                assert(vtxos[i].amount == vtxos_data@[i].1);
            }
            lemma_is_refresh_written_as(refresh, texts);
            lemma_settling_is_settling_vtxos(
                refresh.as_delegate(),
                inputs,
                seq![
                    (
                        vtxo_sum(vtxos) as u64,
                        active_options(options, *server_info).output_script(),
                    ),
                ],
                cosigner,
                onchain_script(server_info.forfeit_address@)->0,
                server_info.dust,
            );
        } else {
            let can_give_up = forall|i: int|
                0 <= i < vtxos_data@.len() && !(#[trigger] vtxos_data@[i]).2 && vtxos_data@[i].1
                    >= server_info.dust ==> vtxos_data@[i].1 + server_info.dust <= u64::MAX;
            if can_give_up && !forfeits_fit(vtxos, server_info.dust) {
                let i = choose|i: int|
                    0 <= i < vtxos.len() && !(#[trigger] vtxos[i]).is_swept && vtxos[i].amount
                        >= server_info.dust && vtxos[i].amount + server_info.dust > u64::MAX;
                assert(vtxos_data@[i].1 == vtxos[i].amount);
            }
        }
    }
}

/// VTXOs that are given in text hold together what is said of each.
proof fn lemma_text_sum(vtxos_data: Seq<(String, u64, bool)>, vtxos: Seq<RefreshVtxo>)
    requires
        vtxos.len() == vtxos_data.len(),
        forall|i: int| 0 <= i < vtxos.len() ==> (#[trigger] vtxos[i]).amount == vtxos_data[i].1,
    ensures
        vtxo_sum(vtxos) == vtxos_data.fold_left(
            0,
            |sum: int, vtxo: (String, u64, bool)| sum + vtxo.1,
        ),
    decreases vtxos.len(),
{
    if vtxos.len() > 0 {
        assert(vtxos[vtxos.len() - 1].amount == vtxos_data[vtxos.len() - 1].1);
        lemma_text_sum(vtxos_data.drop_last(), vtxos.drop_last());
    }
}

/// The message of a name that is not known tells the whole name, and that of a text of the wrong
/// length tells its length.
pub proof fn lemma_error_in_text_tells_what_was_given(error: &FfiError, message: String)
    requires
        call_ensures(FfiError::message, (error,), message),
    ensures
        *error matches FfiError::UnknownNetwork(name) ==> message@ == "unknown network: "@ + name@,
        *error matches FfiError::UnknownSignerSet(name) ==> message@ == "unknown signer_set: "@
            + name@ + "; expected 'buyer_arbiter', 'seller_arbiter', or 'seller_buyer'"@,
        *error matches FfiError::HexLength(found) ==> message@ == "expected 64 hex chars, got "@
            + decimal(found as nat),
{
}

/// Keys are read from the bytes that their digits stand for. An error says what is wrong: the
/// length, a digit, or the bytes.
pub proof fn lemma_keys_are_read(
    hex: &str,
    key: Result<XOnlyPublicKey, FfiError>,
    keypair: Result<Keypair, FfiError>,
    bytes: Result<[u8; 32], FfiError>,
)
    requires
        call_ensures(parse_xonly, (hex,), key),
        call_ensures(parse_secret_key, (hex,), keypair),
        call_ensures(hex_to_32_bytes, (hex,), bytes),
    ensures
        match bytes {
            Ok(b) => {
                &&& key is Ok <==> is_x_only_key(b@)
                &&& key matches Ok(k) ==> k@ == b@
                &&& key is Err ==> key->Err_0 is NotXOnlyKey
                &&& keypair is Ok <==> is_secret_key(b@)
                &&& keypair matches Ok(k) ==> k.secret_bytes() == b@
                &&& keypair is Err ==> keypair->Err_0 is NotSecretKey
            },
            Err(error) => {
                &&& key == Err::<XOnlyPublicKey, FfiError>(error)
                &&& keypair == Err::<Keypair, FfiError>(error)
            },
        },
{
}

/// A release in text fails for the first thing that is wrong with it, in the order in which the
/// texts are given, and then for the amounts.
pub proof fn lemma_release_in_text_fails_for_a_reason(
    contract: &EscrowContract,
    escrow_outpoint: &str,
    escrow_amount_sats: u64,
    buyer_dest_address: &str,
    fee_outputs: &Vec<(String, u64)>,
    signer_set: &str,
    server_info: &ServerInfo,
    error: FfiError,
)
    requires
        call_ensures(
            build_release,
            (
                contract,
                escrow_outpoint,
                escrow_amount_sats,
                buyer_dest_address,
                fee_outputs,
                signer_set,
                server_info,
            ),
            Err::<SpendTexts, FfiError>(error),
        ),
    ensures
        ({
            let are_addresses = canonical_address(buyer_dest_address@) is Some && forall|i: int|
                0 <= i < fee_outputs@.len() ==> canonical_address((#[trigger] fee_outputs@[i]).0@)
                    is Some;
            let total = fee_outputs@.fold_left(0, |sum: int, pair: (String, u64)| sum + pair.1);
            match error {
                FfiError::NotOutPoint => outpoint_of_text(escrow_outpoint@) is None,
                FfiError::Address(_) => {
                    outpoint_of_text(escrow_outpoint@) is Some && !are_addresses
                },
                FfiError::UnknownSignerSet(name) => {
                    &&& outpoint_of_text(escrow_outpoint@) is Some && are_addresses
                    &&& name@ == signer_set@ && signer_set_of(name@) is None
                },
                FfiError::Overflow => {
                    &&& outpoint_of_text(escrow_outpoint@) is Some && are_addresses
                    &&& signer_set_of(signer_set@) is Some
                    &&& total > u64::MAX
                },
                FfiError::Spend(SpendError::Plan(_)) => {
                    &&& outpoint_of_text(escrow_outpoint@) is Some && are_addresses
                    &&& signer_set_of(signer_set@) is Some
                    &&& total <= u64::MAX && escrow_amount_sats - total < server_info.dust
                },
                FfiError::Spend(SpendError::BuildRelease(_)) => {
                    &&& outpoint_of_text(escrow_outpoint@) is Some && are_addresses
                    &&& signer_set_of(signer_set@) is Some
                    &&& escrow_amount_sats - total >= server_info.dust
                },
                _ => false,
            }
        }),
{
    let pairs = pair_views(fee_outputs@);
    lemma_pair_sum(fee_outputs@);
    assert forall|i: int| 0 <= i < pairs.len() implies (#[trigger] pairs[i]).0
        == fee_outputs@[i].0@ by {}
    if all_addresses(pairs) {
        assert forall|i: int| 0 <= i < fee_outputs@.len() implies canonical_address(
            (#[trigger] fee_outputs@[i]).0@,
        ) is Some by {
            assert(canonical_address(pairs[i].0) is Some);
        }
    } else {
        let i = choose|i: int|
            0 <= i < pairs.len() && canonical_address((#[trigger] pairs[i]).0) is None;
        assert(canonical_address(fee_outputs@[i].0@) is None);
    }
}

proof fn lemma_pair_sum(fee_outputs: Seq<(String, u64)>)
    ensures
        fee_sum(fees_of(pair_views(fee_outputs))) == fee_outputs.fold_left(
            0,
            |sum: int, pair: (String, u64)| sum + pair.1,
        ),
    decreases fee_outputs.len(),
{
    if fee_outputs.len() > 0 {
        lemma_pair_sum(fee_outputs.drop_last());
        let fees = fees_of(pair_views(fee_outputs));
        assert(fees.drop_last() =~= fees_of(pair_views(fee_outputs.drop_last())));
        assert(fees.last().1 == fee_outputs.last().1);
    }
}

} // verus!
