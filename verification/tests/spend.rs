use std::collections::HashMap;

use ark_core::server;
use ark_escrow::address::{ArkAddress, Network};
use ark_escrow::checkpoint::{merge_all_checkpoint_sigs, restore_witness_scripts};
use ark_escrow::contract::{EscrowContract, EscrowOptions, SignerSet};
use ark_escrow::keys::{Keypair, PublicKey};
use ark_escrow::psbt::{
    compute_txid, first_spend, is_signable_alone, is_signable_with_all, no_sigs_from,
    psbt_from_base64, psbt_to_base64, psbts_from_base64, psbts_to_base64, PsbtTextError,
};
use ark_escrow::server::{OnchainAddress, ServerInfo};
use ark_escrow::spend::{
    build_refund_tx, build_release_tx, merge_ark_tx_sigs, sign_ark_tx, sign_checkpoint,
    EscrowTransaction, EscrowVtxo, SpendError,
};
use ark_escrow::tx::{OutPoint, Txid};
use ark_escrow::{FeeOutput, PlanError};
use bitcoin::secp256k1::{self, Secp256k1};
use bitcoin::sighash::{Prevouts, SighashCache, TapSighashType};
use bitcoin::{Amount, Psbt, ScriptBuf, TapLeafHash};

const SELLER: u8 = 1;
const BUYER: u8 = 2;
const ARBITER: u8 = 3;
const SERVER: u8 = 4;

fn keypair(n: u8) -> Keypair {
    Keypair::from_secret([n; 32]).unwrap()
}

fn outside_pk(n: u8) -> secp256k1::PublicKey {
    secp256k1::PublicKey::from_slice(&keypair(n).public_key().serialize()).unwrap()
}

fn x_only(n: u8) -> bitcoin::XOnlyPublicKey {
    outside_pk(n).x_only_public_key().0
}

fn checkpoint_script() -> ScriptBuf {
    ScriptBuf::builder()
        .push_int(10)
        .push_opcode(bitcoin::opcodes::all::OP_CSV)
        .push_opcode(bitcoin::opcodes::all::OP_DROP)
        .push_x_only_key(&x_only(SERVER))
        .push_opcode(bitcoin::opcodes::all::OP_CHECKSIG)
        .into_script()
}

fn forfeit_address() -> bitcoin::Address {
    let secp = Secp256k1::new();
    bitcoin::Address::p2tr(&secp, x_only(6), None, bitcoin::Network::Regtest)
}

fn raw_info(dust: u64, vtxo_min_amount: Option<u64>) -> server::Info {
    server::Info {
        version: String::new(),
        signer_pk: outside_pk(SERVER),
        forfeit_pk: outside_pk(6),
        forfeit_address: forfeit_address(),
        checkpoint_tapscript: checkpoint_script(),
        network: bitcoin::Network::Regtest,
        session_duration: 10,
        unilateral_exit_delay: bitcoin::Sequence::from_height(144),
        boarding_exit_delay: bitcoin::Sequence::from_height(1008),
        utxo_min_amount: None,
        utxo_max_amount: None,
        vtxo_min_amount: vtxo_min_amount.map(Amount::from_sat),
        vtxo_max_amount: None,
        dust: Amount::from_sat(dust),
        fees: None,
        scheduled_session: None,
        deprecated_signers: Vec::new(),
        service_status: HashMap::new(),
        digest: String::new(),
        max_tx_weight: 40_000,
        max_op_return_outputs: 3,
    }
}

fn server_info(dust: u64, vtxo_min_amount: Option<u64>) -> ServerInfo {
    ServerInfo {
        signer_pk: keypair(SERVER).public_key(),
        forfeit_pk: keypair(6).public_key(),
        forfeit_address: OnchainAddress::parse(&forfeit_address().to_string()).unwrap(),
        checkpoint_tapscript: checkpoint_script().into_bytes(),
        network: Network::Regtest,
        unilateral_exit_delay: 144,
        vtxo_min_amount,
        dust,
        deprecated_signers: Vec::<PublicKey>::new(),
        raw: raw_info(dust, vtxo_min_amount),
    }
}

fn contract() -> EscrowContract {
    let options = EscrowOptions {
        seller: keypair(SELLER).x_only_public_key(),
        buyer: keypair(BUYER).x_only_public_key(),
        arbiter: keypair(ARBITER).x_only_public_key(),
        server: keypair(SERVER).x_only_public_key(),
        unilateral_exit_delay: 144,
    };
    EscrowContract::new(options, Network::Regtest).unwrap()
}

fn address(n: u8) -> ArkAddress {
    let server = keypair(SERVER).x_only_public_key();
    ArkAddress::new(Network::Regtest, &server, keypair(n).x_only_public_key().serialize())
}

fn vtxo(amount: u64) -> EscrowVtxo {
    EscrowVtxo { outpoint: OutPoint { txid: Txid { bytes: [0xab; 32] }, vout: 1 }, amount }
}

fn fee(n: u8, amount: u64) -> FeeOutput {
    FeeOutput { address: address(n), amount }
}

fn release(amount: u64, fees: &[FeeOutput]) -> EscrowTransaction {
    build_release_tx(
        &contract(),
        &vtxo(amount),
        &address(20),
        fees,
        SignerSet::BuyerArbiter,
        &server_info(330, None),
    )
    .unwrap()
}

fn outputs(psbt: &Psbt) -> Vec<(u64, Vec<u8>)> {
    psbt.unsigned_tx
        .output
        .iter()
        .map(|output| (output.value.to_sat(), output.script_pubkey.to_bytes()))
        .collect()
}

fn anchor() -> (u64, Vec<u8>) {
    (0, vec![0x51, 0x02, 0x4e, 0x73])
}

/// Whether the signature of a key on the first input verifies.
fn is_signed_by(psbt: &Psbt, n: u8) -> bool {
    let secp = Secp256k1::verification_only();
    let (_, (script, version)) = psbt.inputs[0].tap_scripts.first_key_value().unwrap();
    let leaf = TapLeafHash::from_script(script, *version);
    let Some(signature) = psbt.inputs[0].tap_script_sigs.get(&(x_only(n), leaf)) else {
        return false;
    };
    let spent: Vec<_> =
        psbt.inputs.iter().map(|input| input.witness_utxo.clone().unwrap()).collect();
    let digest = SighashCache::new(&psbt.unsigned_tx)
        .taproot_script_spend_signature_hash(
            0,
            &Prevouts::All(&spent),
            leaf,
            TapSighashType::Default,
        )
        .unwrap();
    let message = secp256k1::Message::from_digest(bitcoin::hashes::Hash::to_byte_array(digest));
    secp.verify_schnorr(&signature.signature, &message, &x_only(n)).is_ok()
}

#[test]
fn a_release_pays_buyer_and_fees() {
    let txs = release(100_000, &[fee(30, 1_000), fee(31, 500)]);
    let script = |n: u8| address(n).to_p2tr_script_pubkey();
    assert_eq!(
        outputs(&txs.ark_tx),
        vec![(98_500, script(20)), (1_000, script(30)), (500, script(31)), anchor()]
    );
    assert_eq!(txs.checkpoint_txs.len(), 1);
    let spent = first_spend(&txs.checkpoint_txs[0]).unwrap();
    assert_eq!(spent, vtxo(0).outpoint);
    let spends = first_spend(&txs.ark_tx).unwrap();
    assert_eq!(spends.txid, compute_txid(&txs.checkpoint_txs[0]));
    assert_eq!(outputs(&txs.checkpoint_txs[0])[0].0, 100_000);
}

#[test]
fn fees_of_nothing_get_no_output() {
    let txs = release(100_000, &[fee(30, 0), fee(31, 500), fee(32, 0)]);
    let script = |n: u8| address(n).to_p2tr_script_pubkey();
    assert_eq!(
        outputs(&txs.ark_tx),
        vec![(99_500, script(20)), (500, script(31)), anchor()]
    );
}

#[test]
fn what_is_below_dust_becomes_an_op_return() {
    let txs = release(100_000, &[fee(30, 329)]);
    let paid = &outputs(&txs.ark_tx)[1];
    assert_eq!(paid.0, 329);
    assert_eq!(paid.1[0], 0x6a);
    let key = address(30).to_p2tr_script_pubkey()[2..].to_vec();
    assert_eq!(paid.1[2..], key);
}

#[test]
fn a_release_spends_the_leaf_of_its_signer_set() {
    for signer_set in [SignerSet::BuyerArbiter, SignerSet::SellerArbiter, SignerSet::SellerBuyer] {
        let txs = build_release_tx(
            &contract(),
            &vtxo(50_000),
            &address(20),
            &[],
            signer_set,
            &server_info(330, None),
        )
        .unwrap();
        let leaf = signer_set.script(contract().options());
        for psbt in [&txs.ark_tx, &txs.checkpoint_txs[0]] {
            let (_, (script, _)) = psbt.inputs[0].tap_scripts.first_key_value().unwrap();
            assert_eq!(script.to_bytes(), leaf);
            assert!(psbt.inputs[0].tap_script_sigs.is_empty());
        }
    }
}

#[test]
fn a_release_fails_as_its_plan_does() {
    let build = |amount: u64, fees: &[FeeOutput]| {
        build_release_tx(
            &contract(),
            &vtxo(amount),
            &address(20),
            fees,
            SignerSet::BuyerArbiter,
            &server_info(330, None),
        )
        .err()
        .unwrap()
    };
    let error = build(1_000, &[fee(30, 1_001)]);
    assert!(matches!(
        error,
        SpendError::Plan(PlanError::FeeExceedsEscrow {
            total_fee: 1_001,
            total_escrow_amount: 1_000
        })
    ));
    assert!(error.message().starts_with("fee exceeds amount"));
    let error = build(1_000, &[fee(30, 671)]);
    assert!(matches!(
        error,
        SpendError::Plan(PlanError::DustExceedsPayout { dust: 330, buyer_amount: 329 })
    ));
}

#[test]
fn a_release_below_the_least_amount_is_not_built() {
    let error = build_release_tx(
        &contract(),
        &vtxo(10_000),
        &address(20),
        &[fee(30, 400)],
        SignerSet::BuyerArbiter,
        &server_info(330, Some(500)),
    )
    .err()
    .unwrap();
    assert!(matches!(error, SpendError::BuildRelease(_)));
    assert_eq!(error.message(), "building release offchain transactions");
}

#[test]
fn a_refund_pays_all_to_the_seller() {
    let txs = build_refund_tx(
        &contract(),
        &vtxo(77_000),
        &address(21),
        SignerSet::SellerArbiter,
        &server_info(330, None),
    )
    .unwrap();
    assert_eq!(
        outputs(&txs.ark_tx),
        vec![(77_000, address(21).to_p2tr_script_pubkey()), anchor()]
    );
}

#[test]
fn a_refund_below_the_least_amount_is_not_built() {
    let build = |amount: u64| {
        build_refund_tx(
            &contract(),
            &vtxo(amount),
            &address(21),
            SignerSet::SellerArbiter,
            &server_info(330, Some(500)),
        )
    };
    let error = build(499).err().unwrap();
    assert!(matches!(error, SpendError::BuildRefund(_)));
    assert_eq!(error.message(), "building refund offchain transactions");
    build(500).unwrap();
}

#[test]
fn what_is_built_can_be_signed() {
    let mut txs = release(100_000, &[fee(30, 1_000)]);
    assert!(is_signable_with_all(&txs.ark_tx, 0));
    assert!(is_signable_alone(&txs.checkpoint_txs[0], 0));
    sign_ark_tx(&mut txs.ark_tx, &keypair(BUYER)).unwrap();
    sign_checkpoint(&mut txs.checkpoint_txs[0], &keypair(BUYER)).unwrap();
    assert!(is_signed_by(&txs.ark_tx, BUYER));
    assert!(is_signed_by(&txs.checkpoint_txs[0], BUYER));
    assert!(!is_signed_by(&txs.ark_tx, ARBITER));
    assert!(is_signable_with_all(&txs.ark_tx, 0));
}

#[test]
fn signing_twice_changes_nothing() {
    let mut txs = release(100_000, &[]);
    sign_ark_tx(&mut txs.ark_tx, &keypair(BUYER)).unwrap();
    let once = txs.ark_tx.clone();
    sign_ark_tx(&mut txs.ark_tx, &keypair(BUYER)).unwrap();
    assert_eq!(txs.ark_tx, once);
}

#[test]
fn merging_is_signing_in_turn() {
    let txs = release(100_000, &[]);
    let mut in_turn = txs.ark_tx.clone();
    sign_ark_tx(&mut in_turn, &keypair(BUYER)).unwrap();
    sign_ark_tx(&mut in_turn, &keypair(ARBITER)).unwrap();

    let mut merged = txs.ark_tx.clone();
    sign_ark_tx(&mut merged, &keypair(BUYER)).unwrap();
    let mut arbiters = txs.ark_tx.clone();
    sign_ark_tx(&mut arbiters, &keypair(ARBITER)).unwrap();
    let buyers = merged.clone();
    merge_ark_tx_sigs(&mut merged, &arbiters).unwrap();
    assert_eq!(merged, in_turn);
    assert!(is_signed_by(&merged, BUYER) && is_signed_by(&merged, ARBITER));

    merge_ark_tx_sigs(&mut merged, &arbiters).unwrap();
    assert_eq!(merged, in_turn);
    merge_ark_tx_sigs(&mut arbiters, &buyers).unwrap();
    assert_eq!(arbiters, in_turn);
}

#[test]
fn merging_keeps_the_signature_of_the_base() {
    let txs = release(100_000, &[]);
    let mut base = txs.ark_tx.clone();
    sign_ark_tx(&mut base, &keypair(BUYER)).unwrap();
    let mut other = base.clone();
    let signature = keypair(BUYER).sign_digest([1; 32]).0;
    for sig in other.inputs[0].tap_script_sigs.values_mut() {
        sig.signature = secp256k1::schnorr::Signature::from_slice(&signature).unwrap();
    }
    let before = base.clone();
    merge_ark_tx_sigs(&mut base, &other).unwrap();
    assert_eq!(base, before);
}

#[test]
fn signatures_beyond_the_base_are_noticed() {
    let txs = release(100_000, &[]);
    let mut signed = txs.ark_tx.clone();
    assert!(no_sigs_from(&signed, 0));
    sign_ark_tx(&mut signed, &keypair(BUYER)).unwrap();
    assert!(!no_sigs_from(&signed, 0));
    assert!(no_sigs_from(&signed, 1));
}

#[test]
fn an_ark_tx_without_the_right_inputs_is_not_signed() {
    let mut psbt = release(100_000, &[]).ark_tx;
    let input = psbt.inputs[0].clone();
    psbt.inputs.push(input);
    assert!(is_signable_with_all(&psbt, 0));
    let before = psbt.clone();
    let error = sign_ark_tx(&mut psbt, &keypair(BUYER)).unwrap_err();
    assert!(matches!(error, SpendError::SignArkTx(_)));
    assert_eq!(error.message(), "signing ark transaction");
    assert_eq!(psbt, before);
}

#[test]
fn a_checkpoint_with_two_inputs_is_not_signed() {
    let mut psbt = release(100_000, &[]).checkpoint_txs.remove(0);
    let input = psbt.unsigned_tx.input[0].clone();
    psbt.unsigned_tx.input.push(input);
    let before = psbt.clone();
    let error = sign_checkpoint(&mut psbt, &keypair(BUYER)).unwrap_err();
    assert!(matches!(error, SpendError::SignCheckpoint(_)));
    assert_eq!(error.message(), "signing checkpoint transaction");
    assert_eq!(psbt, before);
}

#[test]
fn what_a_signature_needs_is_noticed_when_missing() {
    let psbt = release(100_000, &[]).ark_tx;
    let mut without = psbt.clone();
    without.inputs[0].witness_utxo = None;
    assert!(!is_signable_with_all(&without, 0));
    assert!(!is_signable_alone(&without, 0));
    let mut without = psbt.clone();
    without.inputs[0].tap_scripts.clear();
    assert!(!is_signable_alone(&without, 0));
    assert!(!is_signable_with_all(&psbt, 1));
}

#[test]
fn psbts_read_back_from_their_text() {
    let mut txs = release(100_000, &[fee(30, 100)]);
    sign_ark_tx(&mut txs.ark_tx, &keypair(BUYER)).unwrap();
    sign_checkpoint(&mut txs.checkpoint_txs[0], &keypair(BUYER)).unwrap();
    for psbt in [&txs.ark_tx, &txs.checkpoint_txs[0]] {
        let text = psbt_to_base64(psbt);
        assert_eq!(&psbt_from_base64(&text).unwrap(), psbt);
        assert!(text.starts_with("cHNidP8"));
    }
    let texts = psbts_to_base64(&txs.checkpoint_txs);
    assert_eq!(psbts_from_base64(&texts).unwrap(), txs.checkpoint_txs);
}

#[test]
fn other_texts_are_no_psbts() {
    assert!(matches!(psbt_from_base64("***"), Err(PsbtTextError::NotBase64)));
    assert!(matches!(psbt_from_base64("AAAA"), Err(PsbtTextError::NotPsbt(_))));
    let good = psbt_to_base64(&release(100_000, &[]).ark_tx);
    let texts = vec![good, "AAAA".to_string(), "***".to_string()];
    assert!(matches!(psbts_from_base64(&texts), Err(PsbtTextError::NotPsbt(_))));
    assert!(psbts_from_base64(&texts[..1]).is_ok());
}

#[test]
fn stripped_witness_scripts_are_restored() {
    let txs = release(100_000, &[]);
    let original = txs.checkpoint_txs[0].clone();
    assert!(original.inputs[0].witness_script.is_some());
    let mut stripped = original.clone();
    stripped.inputs[0].witness_script = None;
    let other = release(50_000, &[]).checkpoint_txs.remove(0);
    let mut foreign = other.clone();
    foreign.inputs[0].witness_script = None;
    let restored =
        restore_witness_scripts(vec![stripped, foreign.clone()], std::slice::from_ref(&original));
    assert_eq!(restored, vec![original, foreign]);
}

#[test]
fn checkpoints_collect_all_signatures() {
    let server = release(100_000, &[]).checkpoint_txs;
    let party = |n: u8| {
        let mut signed = server.clone();
        sign_checkpoint(&mut signed[0], &keypair(n)).unwrap();
        signed
    };
    let merged = merge_all_checkpoint_sigs(&server, &[party(BUYER), party(ARBITER)]).unwrap();
    assert_eq!(merged.len(), 1);
    assert!(is_signed_by(&merged[0], BUYER) && is_signed_by(&merged[0], ARBITER));
    let count = merge_all_checkpoint_sigs(&server, &[party(BUYER), Vec::new()]).err().unwrap();
    assert_eq!((count.found, count.expected), (0, 1));
    assert!(merge_all_checkpoint_sigs(&[], &[party(BUYER)]).unwrap().is_empty());
}

#[test]
fn txids_and_outpoints_read_back() {
    let txid = compute_txid(&release(100_000, &[]).ark_tx);
    assert_eq!(Txid::parse(&txid.to_string()), Some(txid));
    let outside: bitcoin::Txid = bitcoin::hashes::Hash::from_byte_array(txid.bytes);
    assert_eq!(txid.to_string(), outside.to_string());
    let outpoint = OutPoint { txid, vout: u32::MAX };
    assert_eq!(OutPoint::parse(&outpoint.to_string()), Some(outpoint));
    assert!(outpoint.same(&outpoint) && !outpoint.same(&OutPoint { txid, vout: 0 }));
    assert!(!txid.same(&Txid { bytes: [0; 32] }));
    assert_eq!(Txid::parse("nonsense"), None);
    assert_eq!(OutPoint::parse(&txid.to_string()), None);
}
