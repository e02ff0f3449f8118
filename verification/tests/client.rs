use std::collections::HashMap;

use ark_core::server;
use ark_escrow::address::{ArkAddress, Network};
use ark_escrow::client::{OffchainSpend, SpendAction, SpendEvent, SpendFailure};
use ark_escrow::contract::{EscrowContract, EscrowOptions, SignerSet};
use ark_escrow::keys::{Keypair, PublicKey};
use ark_escrow::psbt::{compute_txid, psbt_to_base64, psbts_to_base64, PsbtTextError};
use ark_escrow::server::{OnchainAddress, ServerInfo};
use ark_escrow::spend::{
    build_release_tx, merge_ark_tx_sigs, sign_ark_tx, sign_checkpoint, EscrowTransaction,
    EscrowVtxo,
};
use ark_escrow::spend_store::PendingSpend;
use ark_escrow::tx::{OutPoint, Txid};
use bitcoin::secp256k1::{self, Secp256k1};
use bitcoin::{Amount, Psbt, ScriptBuf};

const SELLER: u8 = 1;
const BUYER: u8 = 2;
const ARBITER: u8 = 3;
const SERVER: u8 = 4;

fn keypair(n: u8) -> Keypair {
    Keypair::from_secret([n; 32]).unwrap()
}

fn outside_pk(n: u8) -> secp256k1::PublicKey {
    secp256k1::PublicKey::from_slice(&keypair(n).public_key().serialize()).unwrap()
}

fn x_only(n: u8) -> bitcoin::XOnlyPublicKey {
    outside_pk(n).x_only_public_key().0
}

fn checkpoint_script() -> ScriptBuf {
    ScriptBuf::builder()
        .push_int(10)
        .push_opcode(bitcoin::opcodes::all::OP_CSV)
        .push_opcode(bitcoin::opcodes::all::OP_DROP)
        .push_x_only_key(&x_only(SERVER))
        .push_opcode(bitcoin::opcodes::all::OP_CHECKSIG)
        .into_script()
}

fn forfeit_address() -> bitcoin::Address {
    let secp = Secp256k1::new();
    bitcoin::Address::p2tr(&secp, x_only(6), None, bitcoin::Network::Regtest)
}

fn raw_info(dust: u64, vtxo_min_amount: Option<u64>) -> server::Info {
    server::Info {
        version: String::new(),
        signer_pk: outside_pk(SERVER),
        forfeit_pk: outside_pk(6),
        forfeit_address: forfeit_address(),
        checkpoint_tapscript: checkpoint_script(),
        network: bitcoin::Network::Regtest,
        session_duration: 10,
        unilateral_exit_delay: bitcoin::Sequence::from_height(144),
        boarding_exit_delay: bitcoin::Sequence::from_height(1008),
        utxo_min_amount: None,
        utxo_max_amount: None,
        vtxo_min_amount: vtxo_min_amount.map(Amount::from_sat),
        vtxo_max_amount: None,
        dust: Amount::from_sat(dust),
        fees: None,
        scheduled_session: None,
        deprecated_signers: Vec::new(),
        service_status: HashMap::new(),
        digest: String::new(),
        max_tx_weight: 40_000,
        max_op_return_outputs: 3,
    }
}

fn server_info(dust: u64, vtxo_min_amount: Option<u64>) -> ServerInfo {
    ServerInfo {
        signer_pk: keypair(SERVER).public_key(),
        forfeit_pk: keypair(6).public_key(),
        forfeit_address: OnchainAddress::parse(&forfeit_address().to_string()).unwrap(),
        checkpoint_tapscript: checkpoint_script().into_bytes(),
        network: Network::Regtest,
        unilateral_exit_delay: 144,
        vtxo_min_amount,
        dust,
        deprecated_signers: Vec::<PublicKey>::new(),
        raw: raw_info(dust, vtxo_min_amount),
    }
}

fn contract() -> EscrowContract {
    let options = EscrowOptions {
        seller: keypair(SELLER).x_only_public_key(),
        buyer: keypair(BUYER).x_only_public_key(),
        arbiter: keypair(ARBITER).x_only_public_key(),
        server: keypair(SERVER).x_only_public_key(),
        unilateral_exit_delay: 144,
    };
    EscrowContract::new(options, Network::Regtest).unwrap()
}

fn address(n: u8) -> ArkAddress {
    let server = keypair(SERVER).x_only_public_key();
    ArkAddress::new(Network::Regtest, &server, keypair(n).x_only_public_key().serialize())
}

fn vtxo(amount: u64) -> EscrowVtxo {
    EscrowVtxo { outpoint: OutPoint { txid: Txid { bytes: [0xab; 32] }, vout: 1 }, amount }
}

fn release() -> EscrowTransaction {
    build_release_tx(
        &contract(),
        &vtxo(100_000),
        &address(20),
        &[],
        SignerSet::BuyerArbiter,
        &server_info(330, None),
    )
    .unwrap()
}

fn signed(checkpoints: &[Psbt], n: u8) -> Vec<Psbt> {
    let mut signed = checkpoints.to_vec();
    for checkpoint in &mut signed {
        sign_checkpoint(checkpoint, &keypair(n)).unwrap();
    }
    signed
}

fn begin(txs: &EscrowTransaction, parties: Vec<Vec<Psbt>>) -> OffchainSpend {
    let mut ark_tx = txs.ark_tx.clone();
    sign_ark_tx(&mut ark_tx, &keypair(BUYER)).unwrap();
    let mut arbiters = txs.ark_tx.clone();
    sign_ark_tx(&mut arbiters, &keypair(ARBITER)).unwrap();
    merge_ark_tx_sigs(&mut ark_tx, &arbiters).unwrap();
    OffchainSpend::new("trade".to_string(), ark_tx, txs.checkpoint_txs.clone(), parties)
}

fn parties(txs: &EscrowTransaction) -> Vec<Vec<Psbt>> {
    vec![signed(&txs.checkpoint_txs, BUYER), signed(&txs.checkpoint_txs, ARBITER)]
}

fn step(spend: OffchainSpend, event: SpendEvent) -> (OffchainSpend, SpendAction) {
    assert!(spend.accepts(&event));
    spend.step(event)
}

/// What the server returns: its own signature, and no witness scripts.
fn returned(txs: &EscrowTransaction) -> Vec<Psbt> {
    let mut checkpoints = signed(&txs.checkpoint_txs, SERVER);
    for checkpoint in &mut checkpoints {
        checkpoint.inputs[0].witness_script = None;
    }
    checkpoints
}

#[test]
fn a_fresh_spend_is_submitted_saved_finalized_and_removed() {
    let txs = release();
    let txid = compute_txid(&txs.ark_tx);
    let spend = begin(&txs, parties(&txs));

    let (spend, action) = step(spend, SpendEvent::Loaded(None));
    let SpendAction::Submit { ark_tx, checkpoints } = action else { panic!("not submitted") };
    assert_eq!(ark_tx.inputs[0].tap_script_sigs.len(), 2);
    assert_eq!(checkpoints, txs.checkpoint_txs);

    let (spend, action) = step(spend, SpendEvent::Submitted(returned(&txs)));
    let SpendAction::Save(pending) = action else { panic!("not saved") };
    let mut expected = signed(&txs.checkpoint_txs, SERVER);
    sign_checkpoint(&mut expected[0], &keypair(BUYER)).unwrap();
    sign_checkpoint(&mut expected[0], &keypair(ARBITER)).unwrap();
    assert_eq!(
        pending,
        PendingSpend {
            id: "trade".to_string(),
            ark_txid: txid.to_string(),
            signed_checkpoints: psbts_to_base64(&expected),
        }
    );

    let (spend, action) = step(spend, SpendEvent::Saved);
    let SpendAction::Finalize { ark_txid, checkpoints } = action else { panic!("not finalized") };
    assert_eq!(ark_txid, txid);
    assert_eq!(checkpoints, expected);

    let (spend, action) = step(spend, SpendEvent::Finalized);
    let SpendAction::Remove(id) = action else { panic!("not removed") };
    assert_eq!(id, "trade");

    let (spend, action) = step(spend, SpendEvent::Removed);
    let SpendAction::Finish(ark_txid) = action else { panic!("not finished") };
    assert_eq!(ark_txid, txid);
    assert!(matches!(spend, OffchainSpend::Ended));
}

#[test]
fn a_saved_spend_goes_straight_to_finalization() {
    let txs = release();
    let spend = begin(&txs, parties(&txs));
    let (spend, _) = step(spend, SpendEvent::Loaded(None));
    let (spend, action) = step(spend, SpendEvent::Submitted(returned(&txs)));
    let SpendAction::Save(pending) = action else { panic!("not saved") };
    let (_, action) = step(spend, SpendEvent::Saved);
    let SpendAction::Finalize { ark_txid, checkpoints } = action else { panic!("not finalized") };

    let again = begin(&txs, Vec::new());
    let (again, action) = step(again, SpendEvent::Loaded(Some(pending)));
    let SpendAction::Finalize { ark_txid: txid, checkpoints: kept } = action else {
        panic!("not resumed")
    };
    assert_eq!(txid, ark_txid);
    assert_eq!(kept, checkpoints);
    let (again, action) = step(again, SpendEvent::Finalized);
    assert!(matches!(action, SpendAction::Remove(id) if id == "trade"));
    let (_, action) = step(again, SpendEvent::Removed);
    assert!(matches!(action, SpendAction::Finish(txid) if txid == ark_txid));
}

fn pending(ark_txid: &str, signed_checkpoints: Vec<String>) -> SpendEvent {
    SpendEvent::Loaded(Some(PendingSpend {
        id: "trade".to_string(),
        ark_txid: ark_txid.to_string(),
        signed_checkpoints,
    }))
}

#[test]
fn a_pending_spend_needs_a_txid() {
    let txs = release();
    let (spend, action) = step(begin(&txs, Vec::new()), pending("nonsense", Vec::new()));
    let SpendAction::Fail(failure) = action else { panic!("not failed") };
    assert!(matches!(failure, SpendFailure::InvalidArkTxid));
    assert_eq!(failure.message(), "invalid ark_txid in pending spend");
    assert!(matches!(spend, OffchainSpend::Ended));
}

#[test]
fn a_pending_spend_needs_psbts() {
    let txs = release();
    let txid = compute_txid(&txs.ark_tx).to_string();
    let texts = vec![psbt_to_base64(&txs.ark_tx), "AAAA".to_string()];
    let (_, action) = step(begin(&txs, Vec::new()), pending(&txid, texts));
    let SpendAction::Fail(failure) = action else { panic!("not failed") };
    assert!(matches!(failure, SpendFailure::DecodeCheckpoints(PsbtTextError::NotPsbt(_))));
    assert_eq!(failure.message(), "decoding persisted checkpoint PSBTs");
}

#[test]
fn the_first_checkpoint_that_cannot_be_read_is_the_cause() {
    let txs = release();
    let txid = compute_txid(&txs.ark_tx).to_string();
    let texts = vec!["***".to_string(), "AAAA".to_string()];
    let (_, action) = step(begin(&txs, Vec::new()), pending(&txid, texts));
    let SpendAction::Fail(failure) = action else { panic!("not failed") };
    assert!(matches!(failure, SpendFailure::DecodeCheckpoints(PsbtTextError::NotBase64)));
}

#[test]
fn counts_are_checked_before_anything_is_submitted() {
    let txs = release();
    let mut parties = parties(&txs);
    parties[1].clear();
    let (_, action) = step(begin(&txs, parties), SpendEvent::Loaded(None));
    let SpendAction::Fail(failure) = action else { panic!("not failed") };
    assert!(matches!(
        failure,
        SpendFailure::PartyCheckpoints { party: 1, found: 0, expected: 1 }
    ));
    assert_eq!(failure.message(), "party 1 has 0 checkpoints, expected 1");
}

#[test]
fn the_server_must_return_every_checkpoint() {
    let txs = release();
    let (spend, _) = step(begin(&txs, parties(&txs)), SpendEvent::Loaded(None));
    let mut twice = returned(&txs);
    twice.extend(returned(&txs));
    let (_, action) = step(spend, SpendEvent::Submitted(twice));
    let SpendAction::Fail(failure) = action else { panic!("not failed") };
    let SpendFailure::MergeCheckpoints(count) = &failure else { panic!("another failure") };
    assert_eq!((count.found, count.expected), (1, 2));
    assert_eq!(failure.message(), "party has 1 checkpoints, expected 2");
}

#[test]
fn events_out_of_turn_are_not_accepted() {
    let txs = release();
    let spend = begin(&txs, parties(&txs));
    assert!(!spend.accepts(&SpendEvent::Saved));
    assert!(!spend.accepts(&SpendEvent::Submitted(Vec::new())));
    let (spend, _) = step(spend, SpendEvent::Loaded(None));
    assert!(!spend.accepts(&SpendEvent::Loaded(None)));
    assert!(!spend.accepts(&SpendEvent::Finalized));
    assert!(!spend.accepts(&SpendEvent::Removed));
    assert!(spend.accepts(&SpendEvent::Submitted(returned(&txs))));
}

#[test]
fn a_checkpoint_without_inputs_cannot_be_restored() {
    let txs = release();
    let (spend, _) = step(begin(&txs, parties(&txs)), SpendEvent::Loaded(None));
    let mut empty = returned(&txs);
    empty[0].inputs.clear();
    assert!(!spend.accepts(&SpendEvent::Submitted(empty)));
}

#[test]
fn a_spend_of_nothing_is_submitted_too() {
    let txs = release();
    let spend =
        OffchainSpend::new("id".to_string(), txs.ark_tx.clone(), Vec::new(), vec![Vec::new()]);
    let (spend, action) = step(spend, SpendEvent::Loaded(None));
    assert!(matches!(action, SpendAction::Submit { checkpoints, .. } if checkpoints.is_empty()));
    let (_, action) = step(spend, SpendEvent::Submitted(Vec::new()));
    assert!(matches!(action, SpendAction::Save(p) if p.signed_checkpoints.is_empty()));
}
