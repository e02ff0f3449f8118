use std::collections::HashMap;

use ark_core::server::{self, NoncePks, TreeTxNoncePks};
use ark_escrow::address::Network;
use ark_escrow::contract::{EscrowContract, EscrowOptions, SignerSet};
use ark_escrow::intent::Delegate;
use ark_escrow::keys::{Keypair, PublicKey};
use ark_escrow::psbt::compute_txid;
use ark_escrow::refresh::{prepare_refresh, sign_refresh, RefreshVtxo};
use ark_escrow::server::{OnchainAddress, ServerInfo};
use ark_escrow::settle::{Phase, SettleAction, SettleEvent, SettleFailure, Settlement, TreeKind};
use ark_escrow::tree::{are_final, can_walk, chunks_have_inputs, tx_has_input, TreeChunk};
use ark_escrow::tx::{OutPoint, Txid};
use bitcoin::absolute::LockTime;
use bitcoin::psbt::raw;
use bitcoin::secp256k1::{self, Secp256k1};
use bitcoin::transaction::Version;
use bitcoin::{Amount, Psbt, ScriptBuf, Sequence, Transaction, TxIn, TxOut};

const COSIGNER: u8 = 40;

const SELLER: u8 = 1;
const BUYER: u8 = 2;
const ARBITER: u8 = 3;
const SERVER: u8 = 4;

fn keypair(n: u8) -> Keypair {
    Keypair::from_secret([n; 32]).unwrap()
}

fn outside_pk(n: u8) -> secp256k1::PublicKey {
    secp256k1::PublicKey::from_slice(&keypair(n).public_key().serialize()).unwrap()
}

fn x_only(n: u8) -> bitcoin::XOnlyPublicKey {
    outside_pk(n).x_only_public_key().0
}

fn checkpoint_script() -> ScriptBuf {
    ScriptBuf::builder()
        .push_int(10)
        .push_opcode(bitcoin::opcodes::all::OP_CSV)
        .push_opcode(bitcoin::opcodes::all::OP_DROP)
        .push_x_only_key(&x_only(SERVER))
        .push_opcode(bitcoin::opcodes::all::OP_CHECKSIG)
        .into_script()
}

fn forfeit_address() -> bitcoin::Address {
    let secp = Secp256k1::new();
    bitcoin::Address::p2tr(&secp, x_only(6), None, bitcoin::Network::Regtest)
}

fn raw_info(dust: u64, vtxo_min_amount: Option<u64>) -> server::Info {
    server::Info {
        version: String::new(),
        signer_pk: outside_pk(SERVER),
        forfeit_pk: outside_pk(6),
        forfeit_address: forfeit_address(),
        checkpoint_tapscript: checkpoint_script(),
        network: bitcoin::Network::Regtest,
        session_duration: 10,
        unilateral_exit_delay: bitcoin::Sequence::from_height(144),
        boarding_exit_delay: bitcoin::Sequence::from_height(1008),
        utxo_min_amount: None,
        utxo_max_amount: None,
        vtxo_min_amount: vtxo_min_amount.map(Amount::from_sat),
        vtxo_max_amount: None,
        dust: Amount::from_sat(dust),
        fees: None,
        scheduled_session: None,
        deprecated_signers: Vec::new(),
        service_status: HashMap::new(),
        digest: String::new(),
        max_tx_weight: 40_000,
        max_op_return_outputs: 3,
    }
}

fn server_info(dust: u64, vtxo_min_amount: Option<u64>) -> ServerInfo {
    ServerInfo {
        signer_pk: keypair(SERVER).public_key(),
        forfeit_pk: keypair(6).public_key(),
        forfeit_address: OnchainAddress::parse(&forfeit_address().to_string()).unwrap(),
        checkpoint_tapscript: checkpoint_script().into_bytes(),
        network: Network::Regtest,
        unilateral_exit_delay: 144,
        vtxo_min_amount,
        dust,
        deprecated_signers: Vec::<PublicKey>::new(),
        raw: raw_info(dust, vtxo_min_amount),
    }
}

fn contract() -> EscrowContract {
    let options = EscrowOptions {
        seller: keypair(SELLER).x_only_public_key(),
        buyer: keypair(BUYER).x_only_public_key(),
        arbiter: keypair(ARBITER).x_only_public_key(),
        server: keypair(SERVER).x_only_public_key(),
        unilateral_exit_delay: 144,
    };
    EscrowContract::new(options, Network::Regtest).unwrap()
}

fn delegate() -> Delegate {
    let vtxos = [1u8, 2].map(|n| RefreshVtxo {
        outpoint: OutPoint { txid: Txid { bytes: [n; 32] }, vout: 0 },
        amount: 10_000,
        is_swept: false,
    });
    let mut refresh = prepare_refresh(
        &contract(),
        &vtxos,
        SignerSet::BuyerArbiter,
        &keypair(COSIGNER).public_key(),
        &server_info(330, None),
    )
    .unwrap();
    sign_refresh(&mut refresh, &keypair(BUYER)).unwrap();
    sign_refresh(&mut refresh, &keypair(ARBITER)).unwrap();
    refresh.into_delegate()
}

fn begin() -> Settlement {
    let begun = Settlement::try_new(
        delegate(),
        keypair(COSIGNER),
        &keypair(6).public_key(),
    );
    begun.unwrap().unwrap().0
}

fn handle(settlement: Settlement, event: SettleEvent) -> (Settlement, SettleAction) {
    assert!(settlement.accepts(&event));
    settlement.handle(event)
}

fn waits(settlement: Settlement, event: SettleEvent) -> Settlement {
    let (settlement, action) = handle(settlement, event);
    assert!(matches!(action, SettleAction::Wait));
    settlement
}

fn fails(settlement: Settlement, event: SettleEvent) -> SettleFailure {
    let (settlement, action) = handle(settlement, event);
    assert!(matches!(settlement.phase, Phase::Ended));
    let SettleAction::Fail { failure } = action else { panic!("not failed") };
    failure
}

fn spending(previous: bitcoin::OutPoint, values: &[u64]) -> Psbt {
    Psbt::from_unsigned_tx(Transaction {
        version: Version::non_standard(3),
        lock_time: LockTime::ZERO,
        input: vec![TxIn { previous_output: previous, ..Default::default() }],
        output: values
            .iter()
            .map(|value| TxOut {
                value: Amount::from_sat(*value),
                script_pubkey: contract().script_pubkey().into(),
            })
            .collect(),
    })
    .unwrap()
}

fn commitment_tx() -> Psbt {
    spending(bitcoin::OutPoint::null(), &[20_000, 660])
}

fn output_of(psbt: &Psbt, vout: u32) -> bitcoin::OutPoint {
    bitcoin::OutPoint { txid: psbt.unsigned_tx.compute_txid(), vout }
}

fn with_cosigner(mut psbt: Psbt, n: u8) -> Psbt {
    let mut key = ark_core::VTXO_COSIGNER_PSBT_KEY.to_vec();
    key.push(0);
    psbt.inputs[0]
        .unknown
        .insert(raw::Key { type_value: 0, key }, keypair(n).public_key().serialize().to_vec());
    psbt
}

/// A tree of VTXOs: a root and a child that spends its only output.
fn vtxo_chunks() -> Vec<TreeChunk> {
    let root = with_cosigner(spending(output_of(&commitment_tx(), 0), &[20_000]), COSIGNER);
    let child = with_cosigner(spending(output_of(&root, 0), &[20_000]), COSIGNER);
    vec![
        TreeChunk { children: vec![(0, compute_txid(&child))], tx: root },
        TreeChunk { children: Vec::new(), tx: child },
    ]
}

fn connector() -> TreeChunk {
    TreeChunk {
        tx: spending(output_of(&commitment_tx(), 1), &[330, 330]),
        children: Vec::new(),
    }
}

fn intent_hash(id: &str) -> String {
    let hash: bitcoin::hashes::sha256::Hash = bitcoin::hashes::Hash::hash(id.as_bytes());
    hash.to_string()
}

fn started(hashes: &[&str]) -> SettleEvent {
    SettleEvent::BatchStarted {
        id: "batch".to_string(),
        intent_id_hashes: hashes.iter().map(|id| intent_hash(id)).collect(),
        expiry: 512,
    }
}

fn registered() -> SettleEvent {
    SettleEvent::Registered { intent_id: "intent".to_string() }
}

fn tree_tx(kind: TreeKind, chunk: TreeChunk) -> SettleEvent {
    SettleEvent::TreeTx { kind, chunk }
}

fn signing_started(cosigners: &[u8]) -> SettleEvent {
    SettleEvent::TreeSigningStarted {
        id: "batch".to_string(),
        cosigners: cosigners.iter().map(|n| keypair(*n).public_key()).collect(),
        commitment_tx: commitment_tx(),
    }
}

/// A settlement whose batch has started.
fn in_batch() -> Settlement {
    let (settlement, _) = handle(begin(), registered());
    let (settlement, action) = handle(settlement, started(&["intent"]));
    let SettleAction::ConfirmRegistration { intent_id } = action else { panic!("no batch") };
    assert_eq!(intent_id, "intent");
    settlement
}

fn with_trees() -> Settlement {
    let mut settlement = in_batch();
    for chunk in vtxo_chunks() {
        settlement = waits(settlement, tree_tx(TreeKind::Vtxo, chunk));
    }
    waits(settlement, tree_tx(TreeKind::Connector, connector()))
}

/// A settlement that signs, and the nonces that it submitted.
fn signing() -> (Settlement, NoncePks) {
    let (settlement, action) = handle(with_trees(), signing_started(&[7, COSIGNER]));
    let SettleAction::SubmitNonces { batch_id, cosigner, nonces } = action else {
        panic!("no nonces")
    };
    assert_eq!(batch_id, "batch");
    assert_eq!(cosigner, keypair(COSIGNER).public_key());
    (settlement, nonces)
}

fn outside_txid(txid: Txid) -> bitcoin::Txid {
    bitcoin::hashes::Hash::from_byte_array(txid.bytes)
}

fn tree_nonces(nonces: &NoncePks, at: usize, signer: u8) -> SettleEvent {
    let txid = compute_txid(&vtxo_chunks()[at].tx);
    let nonce = nonces.get(&outside_txid(txid)).unwrap();
    let nonces = TreeTxNoncePks::new(HashMap::from([(x_only(signer), nonce)]));
    SettleEvent::TreeNonces { id: "batch".to_string(), txid, nonces }
}

#[test]
fn a_settlement_listens_to_its_vtxos_and_its_cosigner() {
    let (settlement, action) = handle(begin(), registered());
    let SettleAction::Listen { topics } = action else { panic!("not listening") };
    let cosigner: String =
        keypair(COSIGNER).public_key().serialize().iter().map(|b| format!("{b:02x}")).collect();
    let vtxo = |n: u8| OutPoint { txid: Txid { bytes: [n; 32] }, vout: 0 }.to_string();
    assert_eq!(topics, vec![vtxo(1), vtxo(2), cosigner]);
    assert!(matches!(settlement.phase, Phase::Waiting { .. }));
    assert!(!settlement.accepts(&registered()));
}

#[test]
fn a_settlement_hands_its_intent_on() {
    let delegate = delegate();
    let message = delegate.intent.message.clone();
    let proof = delegate.intent.proof.clone();
    let begun = Settlement::new(delegate, keypair(COSIGNER), &keypair(6).public_key());
    let (settlement, intent) = begun.ok().unwrap();
    assert_eq!(intent.message, message);
    assert_eq!(intent.proof, proof);
    assert_eq!(settlement.forfeit_key, keypair(6).x_only_public_key());
}

#[test]
fn another_key_cannot_settle() {
    let begun = Settlement::new(delegate(), keypair(41), &keypair(6).public_key());
    let failure = begun.err().unwrap();
    assert!(matches!(failure, SettleFailure::CosignerMismatch));
    assert_eq!(failure.message(), "cosigner keypair does not match delegate_cosigner_pk");
}

#[test]
fn forfeits_without_inputs_cannot_be_settled() {
    let mut delegate = delegate();
    delegate.forfeit_psbts[1].unsigned_tx.input.clear();
    let begun = Settlement::try_new(delegate, keypair(COSIGNER), &keypair(6).public_key());
    assert!(begun.is_none());
}

#[test]
fn batches_without_the_intent_are_ignored() {
    let (settlement, _) = handle(begin(), registered());
    let settlement = waits(settlement, started(&[]));
    let settlement = waits(settlement, started(&["other"]));
    assert!(matches!(settlement.phase, Phase::Waiting { .. }));
    let (settlement, action) = handle(settlement, started(&["other", "intent"]));
    assert!(matches!(action, SettleAction::ConfirmRegistration { .. }));
    let settlement = waits(settlement, started(&["intent"]));
    assert!(matches!(settlement.phase, Phase::Started { expiry: 512, .. }));
}

#[test]
fn a_batch_is_settled_from_start_to_end() {
    let (settlement, nonces) = signing();
    let settlement = waits(settlement, tree_nonces(&nonces, 0, COSIGNER));
    let settlement = waits(settlement, tree_nonces(&nonces, 0, COSIGNER));
    let (settlement, action) = handle(settlement, tree_nonces(&nonces, 1, COSIGNER));
    let SettleAction::SubmitSignatures { batch_id, cosigner, signatures } = action else {
        panic!("not signed")
    };
    assert_eq!(batch_id, "batch");
    assert_eq!(cosigner, keypair(COSIGNER).public_key());
    assert_eq!(signatures.0.len(), 2);
    for chunk in vtxo_chunks() {
        assert!(signatures.0.contains_key(&outside_txid(compute_txid(&chunk.tx))));
    }

    let signature = bitcoin::taproot::Signature {
        signature: secp256k1::schnorr::Signature::from_slice(&[1; 64]).unwrap(),
        sighash_type: bitcoin::TapSighashType::Default,
    };
    let txid = compute_txid(&vtxo_chunks()[1].tx);
    let settlement = waits(
        settlement,
        SettleEvent::TreeSignature { kind: TreeKind::Connector, txid, signature },
    );
    let settlement =
        waits(settlement, SettleEvent::TreeSignature { kind: TreeKind::Vtxo, txid, signature });
    let Phase::Signing { graph, .. } = &settlement.phase else { panic!("not signing") };
    let txs = graph.as_map();
    assert_eq!(txs[&outside_txid(txid)].inputs[0].tap_key_sig, Some(signature));
    let root = compute_txid(&vtxo_chunks()[0].tx);
    assert_eq!(txs[&outside_txid(root)].inputs[0].tap_key_sig, None);

    let (settlement, action) = handle(settlement, SettleEvent::BatchFinalization);
    let SettleAction::SubmitForfeits { forfeits } = action else { panic!("no forfeits") };
    let unfinished = delegate().forfeit_psbts;
    assert_eq!(forfeits.len(), 2);
    let mut connectors = Vec::new();
    for (forfeit, unfinished) in forfeits.iter().zip(&unfinished) {
        assert_eq!(forfeit.unsigned_tx.input[1], unfinished.unsigned_tx.input[0]);
        assert_eq!(forfeit.unsigned_tx.output, unfinished.unsigned_tx.output);
        assert_eq!(forfeit.inputs[1].tap_script_sigs, unfinished.inputs[0].tap_script_sigs);
        connectors.push(forfeit.unsigned_tx.input[0].previous_output);
    }
    connectors.sort();
    assert_eq!(connectors, vec![output_of(&connector().tx, 0), output_of(&connector().tx, 1)]);

    let commitment_txid = compute_txid(&commitment_tx());
    let (settlement, action) =
        handle(settlement, SettleEvent::BatchFinalized { commitment_txid });
    let SettleAction::Finish { commitment_txid: txid } = action else { panic!("not finished") };
    assert_eq!(txid, commitment_txid);
    assert!(matches!(settlement.phase, Phase::Ended));
}

fn sha256(bytes: &[u8]) -> [u8; 32] {
    let hash: bitcoin::hashes::sha256::Hash = bitcoin::hashes::Hash::hash(bytes);
    bitcoin::hashes::Hash::to_byte_array(hash)
}

fn tagged(tag: &str, parts: &[&[u8]]) -> [u8; 32] {
    let tag = sha256(tag.as_bytes());
    let mut bytes = [tag, tag].concat();
    for part in parts {
        bytes.extend_from_slice(part);
    }
    sha256(&bytes)
}

fn tagged_scalar(tag: &str, parts: &[&[u8]]) -> secp256k1::Scalar {
    secp256k1::Scalar::from_be_bytes(tagged(tag, parts)).unwrap()
}

/// Whether a partial signature of the only cosigner of a transaction is right by the
/// rules of MuSig2, for an output that can also be swept after `expiry`.
fn is_signed(tx: &Psbt, parent: &Psbt, expiry: i64, nonce: &[u8; 66], s: &[u8; 32]) -> bool {
    let secp = Secp256k1::new();
    let even = |key: &secp256k1::PublicKey| key.serialize()[0] == 2;
    let turn = |key: secp256k1::PublicKey, keep: bool| {
        if keep { key } else { key.negate(&secp) }
    };

    let own = outside_pk(COSIGNER);
    let list = tagged("KeyAgg list", &[&own.serialize()]);
    let weight = tagged_scalar("KeyAgg coefficient", &[&list, &own.serialize()]);
    let weighted = own.mul_tweak(&secp, &weight).unwrap();

    let sweep = ScriptBuf::builder()
        .push_int(expiry)
        .push_opcode(bitcoin::opcodes::all::OP_CSV)
        .push_opcode(bitcoin::opcodes::all::OP_DROP)
        .push_x_only_key(&x_only(6))
        .push_opcode(bitcoin::opcodes::all::OP_CHECKSIG)
        .into_script();
    let leaf = bitcoin::TapLeafHash::from_script(&sweep, bitcoin::taproot::LeafVersion::TapScript);
    let internal = weighted.x_only_public_key().0;
    let tweak = bitcoin::TapTweakHash::from_key_and_tweak(internal, Some(leaf.into()));
    let output =
        turn(weighted, even(&weighted)).add_exp_tweak(&secp, &tweak.to_scalar()).unwrap();
    let output_x = output.x_only_public_key().0.serialize();

    let prevout = &parent.unsigned_tx.output[tx.unsigned_tx.input[0].previous_output.vout as usize];
    let digest = bitcoin::sighash::SighashCache::new(&tx.unsigned_tx)
        .taproot_key_spend_signature_hash(
            0,
            &bitcoin::sighash::Prevouts::All(&[prevout]),
            bitcoin::TapSighashType::Default,
        )
        .unwrap();
    let digest: [u8; 32] = bitcoin::hashes::Hash::to_byte_array(digest);

    let first = secp256k1::PublicKey::from_slice(&nonce[..33]).unwrap();
    let second = secp256k1::PublicKey::from_slice(&nonce[33..]).unwrap();
    let binding = tagged_scalar("MuSig/noncecoef", &[nonce, &output_x, &digest]);
    let point = first.combine(&second.mul_tweak(&secp, &binding).unwrap()).unwrap();
    let challenge = tagged_scalar(
        "BIP0340/challenge",
        &[&point.x_only_public_key().0.serialize(), &output_x, &digest],
    );
    let share = weighted.mul_tweak(&secp, &challenge).unwrap();
    let right = turn(point, even(&point))
        .combine(&turn(share, even(&weighted) == even(&output)))
        .unwrap();
    let left = secp256k1::SecretKey::from_slice(s).unwrap().public_key(&secp);
    left == right
}

#[test]
fn the_tree_is_signed_for_its_expiry_and_commitment() {
    let (settlement, nonces) = signing();
    let settlement = waits(settlement, tree_nonces(&nonces, 0, COSIGNER));
    let (_, action) = handle(settlement, tree_nonces(&nonces, 1, COSIGNER));
    let SettleAction::SubmitSignatures { signatures, .. } = action else { panic!("not signed") };

    let chunks = vtxo_chunks();
    let parents = [&commitment_tx(), &chunks[0].tx];
    for (chunk, parent) in chunks.iter().zip(parents) {
        let txid = chunk.tx.unsigned_tx.compute_txid();
        let nonce = nonces.get(&txid).unwrap().serialize();
        let signature = signatures.0[&txid].serialize();
        assert!(is_signed(&chunk.tx, parent, 512, &nonce, &signature));
        assert!(!is_signed(&chunk.tx, parent, 513, &nonce, &signature));
    }
}

#[test]
fn nonces_are_used_once() {
    let (settlement, nonces) = signing();
    let settlement = waits(settlement, tree_nonces(&nonces, 0, COSIGNER));
    let (settlement, action) = handle(settlement, tree_nonces(&nonces, 1, COSIGNER));
    assert!(matches!(action, SettleAction::SubmitSignatures { .. }));
    let failure = fails(settlement, tree_nonces(&nonces, 1, COSIGNER));
    assert!(matches!(failure, SettleFailure::SignTree(_)));
    assert_eq!(failure.message(), "signing VTXO tree");
}

#[test]
fn nonces_without_the_cosigners_are_ignored() {
    let (settlement, nonces) = signing();
    let settlement = waits(settlement, tree_nonces(&nonces, 0, 7));
    let settlement = waits(settlement, tree_nonces(&nonces, 1, 7));
    let Phase::Signing { all_nonces, .. } = &settlement.phase else { panic!("not signing") };
    assert!(all_nonces.is_empty());
}

#[test]
fn every_transaction_needs_its_nonces() {
    let (settlement, nonces) = signing();
    let settlement = waits(settlement, tree_nonces(&nonces, 0, COSIGNER));
    let SettleEvent::TreeNonces { nonces, .. } = tree_nonces(&nonces, 1, COSIGNER) else {
        unreachable!()
    };
    let stray = SettleEvent::TreeNonces {
        id: "batch".to_string(),
        txid: Txid { bytes: [0; 32] },
        nonces,
    };
    let failure = fails(settlement, stray);
    assert!(matches!(failure, SettleFailure::MissingNonce));
    assert_eq!(failure.message(), "missing agg nonce for TX");
}

#[test]
fn a_batch_without_connectors_takes_no_forfeits() {
    let mut settlement = in_batch();
    for chunk in vtxo_chunks() {
        settlement = waits(settlement, tree_tx(TreeKind::Vtxo, chunk));
    }
    let (settlement, _) = handle(settlement, signing_started(&[COSIGNER]));
    let settlement = waits(settlement, SettleEvent::BatchFinalization);
    assert!(matches!(settlement.phase, Phase::Finalized { .. }));
}

#[test]
fn too_few_connectors_complete_no_forfeits() {
    let mut settlement = in_batch();
    for chunk in vtxo_chunks() {
        settlement = waits(settlement, tree_tx(TreeKind::Vtxo, chunk));
    }
    let chunk = TreeChunk {
        tx: spending(output_of(&commitment_tx(), 1), &[330, 0]),
        children: Vec::new(),
    };
    let settlement = waits(settlement, tree_tx(TreeKind::Connector, chunk));
    let (settlement, _) = handle(settlement, signing_started(&[COSIGNER]));
    let failure = fails(settlement, SettleEvent::BatchFinalization);
    assert!(matches!(failure, SettleFailure::CompleteForfeits(_)));
    assert_eq!(failure.message(), "completing forfeit TXs");
}

#[test]
fn connectors_must_make_a_tree() {
    let settlement = waits(with_trees(), tree_tx(TreeKind::Connector, vtxo_chunks().remove(1)));
    let (settlement, _) = handle(settlement, signing_started(&[COSIGNER]));
    let failure = fails(settlement, SettleEvent::BatchFinalization);
    assert!(matches!(failure, SettleFailure::ConnectorGraph(_)));
    assert_eq!(failure.message(), "building connectors graph");
}

#[test]
fn vtxos_must_make_a_tree() {
    let failure = fails(in_batch(), signing_started(&[COSIGNER]));
    assert!(matches!(failure, SettleFailure::VtxoGraph(_)));
    assert_eq!(failure.message(), "building VTXO graph");
}

#[test]
fn a_tree_that_is_not_final_is_no_tree() {
    let mut chunk = vtxo_chunks().remove(1);
    chunk.tx.unsigned_tx.input[0].sequence = Sequence::from_height(1);
    chunk.children.push((0, compute_txid(&chunk.tx)));
    let chunks = [chunk];
    assert!(!are_final(&chunks) && can_walk(&chunks));
    let [chunk] = chunks;
    let settlement = waits(in_batch(), tree_tx(TreeKind::Vtxo, chunk));
    let failure = fails(settlement, signing_started(&[COSIGNER]));
    assert!(matches!(failure, SettleFailure::VtxoGraph(_)));

    let mut chunk = vtxo_chunks().remove(1);
    chunk.tx.unsigned_tx.lock_time = LockTime::from_consensus(1);
    assert!(!are_final(&[chunk]));
    assert!(are_final(&vtxo_chunks()));
}

#[test]
fn the_cosigner_must_take_part() {
    let failure = fails(with_trees(), signing_started(&[7]));
    let SettleFailure::NotACosigner { cosigner } = &failure else { panic!("another failure") };
    assert_eq!(cosigner, &keypair(COSIGNER).public_key());
    let hex: String = cosigner.serialize().iter().map(|b| format!("{b:02x}")).collect();
    assert_eq!(failure.message(), format!("own cosigner PK not in batch cosigners: {hex}"));
}

#[test]
fn the_tree_must_name_the_cosigner() {
    let chunk = TreeChunk {
        tx: with_cosigner(spending(output_of(&commitment_tx(), 0), &[20_000]), 7),
        children: Vec::new(),
    };
    let settlement = waits(in_batch(), tree_tx(TreeKind::Vtxo, chunk));
    let failure = fails(settlement, signing_started(&[COSIGNER]));
    assert!(matches!(failure, SettleFailure::GenerateNonces(_)));
    assert_eq!(failure.message(), "generating nonce tree");
}

#[test]
fn the_tree_is_complete_when_its_signing_starts() {
    let (settlement, _) = signing();
    let settlement = waits(settlement, tree_tx(TreeKind::Connector, connector()));
    let failure = fails(settlement, tree_tx(TreeKind::Vtxo, vtxo_chunks().remove(0)));
    assert!(matches!(failure, SettleFailure::UnexpectedVtxoChunk));
    assert_eq!(failure.message(), "unexpected VTXO graph chunk");
}

#[test]
fn trees_are_ignored_outside_a_batch() {
    let (settlement, _) = handle(begin(), registered());
    let settlement = waits(settlement, tree_tx(TreeKind::Vtxo, connector()));
    let settlement = waits(settlement, signing_started(&[COSIGNER]));
    let settlement = waits(settlement, SettleEvent::BatchFinalization);
    let commitment_txid = compute_txid(&commitment_tx());
    let settlement = waits(settlement, SettleEvent::BatchFinalized { commitment_txid });
    let settlement = waits(settlement, SettleEvent::Other);
    assert!(matches!(settlement.phase, Phase::Waiting { .. }));
}

#[test]
fn only_the_own_batch_can_fail() {
    let failed = |id: &str| SettleEvent::BatchFailed {
        id: id.to_string(),
        reason: "no reason".to_string(),
    };
    let (settlement, _) = handle(begin(), registered());
    let settlement = waits(settlement, failed("batch"));
    let (settlement, _) = handle(settlement, started(&["intent"]));
    let settlement = waits(settlement, failed("other"));
    let failure = fails(settlement, failed("batch"));
    assert!(matches!(&failure, SettleFailure::BatchFailed { id, .. } if id == "batch"));
    assert_eq!(failure.message(), "batch failed batch: no reason");
}

#[test]
fn without_events_a_settlement_fails() {
    let failure = fails(in_batch(), SettleEvent::StreamError);
    assert!(matches!(failure, SettleFailure::StreamError));
    assert_eq!(failure.message(), "event stream error");
    let failure = fails(in_batch(), SettleEvent::StreamEnded);
    assert!(matches!(failure, SettleFailure::StreamEnded));
    assert_eq!(failure.message(), "event stream ended unexpectedly");
}

#[test]
fn endless_trees_are_noticed() {
    assert!(can_walk(&vtxo_chunks()));
    assert!(can_walk(&[]));
    let mut chunks = vtxo_chunks();
    let root = compute_txid(&chunks[0].tx);
    chunks[0].children.push((1, root));
    assert!(!can_walk(&chunks));
    let mut chunks = vtxo_chunks();
    chunks[1].children.push((0, root));
    // Without a root there is nothing to walk.
    assert!(can_walk(&chunks));
    let mut chunks = vtxo_chunks();
    let child = compute_txid(&chunks[1].tx);
    chunks[0].children.push((0, child));
    assert!(!can_walk(&chunks));
}

#[test]
fn endless_trees_are_not_handled() {
    let mut settlement = in_batch();
    let mut chunks = vtxo_chunks();
    let child = compute_txid(&chunks[1].tx);
    chunks[1].children.push((0, child));
    for chunk in chunks {
        settlement = waits(settlement, tree_tx(TreeKind::Vtxo, chunk));
    }
    assert!(!settlement.accepts(&signing_started(&[COSIGNER])));
}

#[test]
fn transactions_without_inputs_are_not_signed() {
    let mut chunk = vtxo_chunks().remove(1);
    chunk.tx.inputs.clear();
    assert!(!tx_has_input(&chunk.tx));
    assert!(!chunks_have_inputs(std::slice::from_ref(&chunk)));
    assert!(chunks_have_inputs(&vtxo_chunks()));
    let settlement = waits(in_batch(), tree_tx(TreeKind::Vtxo, chunk));
    assert!(!settlement.accepts(&signing_started(&[COSIGNER])));
    assert!(settlement.accepts(&signing_started(&[7])));
}

#[test]
fn the_last_chunk_of_a_transaction_counts() {
    let mut settlement = in_batch();
    let mut chunks = vtxo_chunks();
    chunks.insert(0, TreeChunk { tx: chunks[0].tx.clone(), children: Vec::new() });
    for chunk in chunks {
        settlement = waits(settlement, tree_tx(TreeKind::Vtxo, chunk));
    }
    let (settlement, action) = handle(settlement, signing_started(&[COSIGNER]));
    assert!(matches!(action, SettleAction::SubmitNonces { .. }));
    let Phase::Signing { graph, .. } = &settlement.phase else { panic!("not signing") };
    assert_eq!(graph.nb_of_nodes(), 2);
}
