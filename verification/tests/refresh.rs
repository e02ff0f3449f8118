use std::collections::HashMap;

use ark_core::server;
use ark_escrow::address::{ArkAddress, Network};
use ark_escrow::contract::{ContractError, EscrowContract, EscrowOptions, SignerSet};
use ark_escrow::delegate::{
    prepare_release_delegate, sign_delegate, try_sign_delegate, DelegateError, DelegateVtxo,
};
use ark_escrow::intent::{
    delegate_of, is_signable_delegate, prepare_delegate_psbts, IntentInput, IntentOutput,
};
use ark_escrow::keys::{Keypair, PublicKey};
use ark_escrow::psbt::{psbt_from_base64, psbt_to_base64};
use ark_escrow::refresh::{
    can_forfeit, prepare_refresh, sign_refresh, sum_fits, try_sign_refresh, RefreshError,
    RefreshIntent, RefreshVtxo,
};
use ark_escrow::server::{OnchainAddress, ServerInfo};
use ark_escrow::spend::{merge_ark_tx_sigs, EscrowVtxo};
use ark_escrow::tx::{OutPoint, Txid};
use ark_escrow::{FeeOutput, PlanError};
use bitcoin::secp256k1::{self, Secp256k1};
use bitcoin::sighash::{Prevouts, SighashCache, TapSighashType};
use bitcoin::{Amount, Psbt, ScriptBuf, TapLeafHash};

const COSIGNER: u8 = 40;

const SELLER: u8 = 1;
const BUYER: u8 = 2;
const ARBITER: u8 = 3;
const SERVER: u8 = 4;

fn keypair(n: u8) -> Keypair {
    Keypair::from_secret([n; 32]).unwrap()
}

fn outside_pk(n: u8) -> secp256k1::PublicKey {
    secp256k1::PublicKey::from_slice(&keypair(n).public_key().serialize()).unwrap()
}

fn x_only(n: u8) -> bitcoin::XOnlyPublicKey {
    outside_pk(n).x_only_public_key().0
}

fn checkpoint_script() -> ScriptBuf {
    ScriptBuf::builder()
        .push_int(10)
        .push_opcode(bitcoin::opcodes::all::OP_CSV)
        .push_opcode(bitcoin::opcodes::all::OP_DROP)
        .push_x_only_key(&x_only(SERVER))
        .push_opcode(bitcoin::opcodes::all::OP_CHECKSIG)
        .into_script()
}

fn forfeit_address() -> bitcoin::Address {
    let secp = Secp256k1::new();
    bitcoin::Address::p2tr(&secp, x_only(6), None, bitcoin::Network::Regtest)
}

fn raw_info(dust: u64, vtxo_min_amount: Option<u64>) -> server::Info {
    server::Info {
        version: String::new(),
        signer_pk: outside_pk(SERVER),
        forfeit_pk: outside_pk(6),
        forfeit_address: forfeit_address(),
        checkpoint_tapscript: checkpoint_script(),
        network: bitcoin::Network::Regtest,
        session_duration: 10,
        unilateral_exit_delay: bitcoin::Sequence::from_height(144),
        boarding_exit_delay: bitcoin::Sequence::from_height(1008),
        utxo_min_amount: None,
        utxo_max_amount: None,
        vtxo_min_amount: vtxo_min_amount.map(Amount::from_sat),
        vtxo_max_amount: None,
        dust: Amount::from_sat(dust),
        fees: None,
        scheduled_session: None,
        deprecated_signers: Vec::new(),
        service_status: HashMap::new(),
        digest: String::new(),
        max_tx_weight: 40_000,
        max_op_return_outputs: 3,
    }
}

fn server_info(dust: u64, vtxo_min_amount: Option<u64>) -> ServerInfo {
    ServerInfo {
        signer_pk: keypair(SERVER).public_key(),
        forfeit_pk: keypair(6).public_key(),
        forfeit_address: OnchainAddress::parse(&forfeit_address().to_string()).unwrap(),
        checkpoint_tapscript: checkpoint_script().into_bytes(),
        network: Network::Regtest,
        unilateral_exit_delay: 144,
        vtxo_min_amount,
        dust,
        deprecated_signers: Vec::<PublicKey>::new(),
        raw: raw_info(dust, vtxo_min_amount),
    }
}

fn contract() -> EscrowContract {
    let options = EscrowOptions {
        seller: keypair(SELLER).x_only_public_key(),
        buyer: keypair(BUYER).x_only_public_key(),
        arbiter: keypair(ARBITER).x_only_public_key(),
        server: keypair(SERVER).x_only_public_key(),
        unilateral_exit_delay: 144,
    };
    EscrowContract::new(options, Network::Regtest).unwrap()
}

fn address(n: u8) -> ArkAddress {
    let server = keypair(SERVER).x_only_public_key();
    ArkAddress::new(Network::Regtest, &server, keypair(n).x_only_public_key().serialize())
}

fn vtxo(amount: u64) -> EscrowVtxo {
    EscrowVtxo { outpoint: OutPoint { txid: Txid { bytes: [0xab; 32] }, vout: 1 }, amount }
}

fn fee(n: u8, amount: u64) -> FeeOutput {
    FeeOutput { address: address(n), amount }
}

fn recoverable(n: u8, amount: u64, is_swept: bool) -> RefreshVtxo {
    RefreshVtxo {
        outpoint: OutPoint { txid: Txid { bytes: [n; 32] }, vout: n as u32 },
        amount,
        is_swept,
    }
}

fn some_vtxos() -> Vec<RefreshVtxo> {
    vec![
        recoverable(1, 10_000, false),
        recoverable(2, 20_000, true),
        recoverable(3, 100, false),
        recoverable(4, 330, false),
    ]
}

fn refresh_of(vtxos: &[RefreshVtxo], info: &ServerInfo) -> Result<RefreshIntent, RefreshError> {
    prepare_refresh(
        &contract(),
        vtxos,
        SignerSet::BuyerArbiter,
        &keypair(COSIGNER).public_key(),
        info,
    )
}

fn refresh() -> RefreshIntent {
    refresh_of(&some_vtxos(), &server_info(330, None)).unwrap()
}

fn outputs(psbt: &Psbt) -> Vec<(u64, Vec<u8>)> {
    psbt.unsigned_tx
        .output
        .iter()
        .map(|output| (output.value.to_sat(), output.script_pubkey.to_bytes()))
        .collect()
}

fn spends(psbt: &Psbt, i: usize) -> OutPoint {
    OutPoint::parse(&psbt.unsigned_tx.input[i].previous_output.to_string()).unwrap()
}

/// Whether the signature of a key on an input verifies.
fn is_signed_by(psbt: &Psbt, i: usize, n: u8, kind: TapSighashType) -> bool {
    let secp = Secp256k1::verification_only();
    let (_, (script, version)) = psbt.inputs[i].tap_scripts.first_key_value().unwrap();
    let leaf = TapLeafHash::from_script(script, *version);
    let Some(signature) = psbt.inputs[i].tap_script_sigs.get(&(x_only(n), leaf)) else {
        return false;
    };
    let spent: Vec<_> =
        psbt.inputs.iter().map(|input| input.witness_utxo.clone().unwrap()).collect();
    let digest = SighashCache::new(&psbt.unsigned_tx)
        .taproot_script_spend_signature_hash(i, &Prevouts::All(&spent), leaf, kind)
        .unwrap();
    let message = secp256k1::Message::from_digest(bitcoin::hashes::Hash::to_byte_array(digest));
    signature.sighash_type == kind
        && secp.verify_schnorr(&signature.signature, &message, &x_only(n)).is_ok()
}

#[test]
fn a_refresh_settles_all_into_one_output_of_the_contract() {
    let refresh = refresh();
    let proof = &refresh.intent.proof;
    assert_eq!(outputs(proof), vec![(30_430, contract().script_pubkey())]);
    assert_eq!(proof.unsigned_tx.input.len(), 5);
    assert_eq!(proof.inputs.len(), 5);
    for (i, vtxo) in some_vtxos().iter().enumerate() {
        assert_eq!(spends(proof, i + 1), vtxo.outpoint);
        let utxo = proof.inputs[i + 1].witness_utxo.as_ref().unwrap();
        assert_eq!(utxo.value.to_sat(), vtxo.amount);
        assert_eq!(utxo.script_pubkey.to_bytes(), contract().script_pubkey());
    }
    let leaf = contract().options().buyer_arbiter_script();
    for input in &proof.inputs {
        let (_, (script, _)) = input.tap_scripts.first_key_value().unwrap();
        assert_eq!(script.to_bytes(), leaf);
        assert!(input.tap_script_sigs.is_empty());
    }
    assert_eq!(refresh.refresh_cosigner_pk, keypair(COSIGNER).public_key());
}

#[test]
fn what_is_not_swept_and_reaches_dust_is_forfeited() {
    let refresh = refresh();
    let script = forfeit_address().script_pubkey().into_bytes();
    let given_up: Vec<_> = refresh
        .forfeit_psbts
        .iter()
        .map(|forfeit| (spends(forfeit, 0), outputs(forfeit)))
        .collect();
    let anchor = (0, vec![0x51, 0x02, 0x4e, 0x73]);
    assert_eq!(
        given_up,
        vec![
            (some_vtxos()[0].outpoint, vec![(10_330, script.clone()), anchor.clone()]),
            (some_vtxos()[3].outpoint, vec![(660, script), anchor]),
        ]
    );
}

#[test]
fn the_message_names_the_cosigner_and_two_minutes() {
    let message = refresh().intent.message;
    let key: String = keypair(COSIGNER)
        .public_key()
        .serialize()
        .iter()
        .map(|byte| format!("{byte:02x}"))
        .collect();
    let rest = message
        .strip_prefix("{\"type\":\"register\",\"onchain_output_indexes\":[],\"valid_at\":")
        .unwrap();
    let (valid_at, rest) = rest.split_once(",\"expire_at\":").unwrap();
    let (expire_at, rest) = rest.split_once(",\"cosigners_public_keys\":[\"").unwrap();
    assert_eq!(rest, format!("{key}\"]}}"));
    let valid_at: u64 = valid_at.parse().unwrap();
    let expire_at: u64 = expire_at.parse().unwrap();
    assert_eq!(expire_at, valid_at + 120);
}

#[test]
fn a_refresh_goes_to_the_active_server_key() {
    let mut info = server_info(330, None);
    info.signer_pk = keypair(50).public_key();
    let refresh = refresh_of(&some_vtxos(), &info).unwrap();
    let active = contract().with_server(keypair(50).x_only_public_key()).unwrap();
    assert_eq!(outputs(&refresh.intent.proof)[0].1, active.script_pubkey());
    let utxo = refresh.intent.proof.inputs[1].witness_utxo.as_ref().unwrap();
    assert_eq!(utxo.script_pubkey.to_bytes(), contract().script_pubkey());
}

#[test]
fn the_active_key_cannot_be_a_partys() {
    let mut info = server_info(330, None);
    info.signer_pk = keypair(BUYER).public_key();
    let error = refresh_of(&some_vtxos(), &info).err().unwrap();
    assert!(matches!(error, RefreshError::Contract(ContractError::DuplicateKeys)));
    assert_eq!(error.message(), "all public keys must be distinct");
}

#[test]
fn nothing_cannot_be_refreshed() {
    let error = refresh_of(&[], &server_info(330, None)).err().unwrap();
    assert!(matches!(error, RefreshError::Prepare(_)));
    assert_eq!(error.message(), "preparing refresh PSBTs");
}

#[test]
fn what_was_prepared_makes_a_delegate() {
    let cosigner = keypair(COSIGNER).public_key();
    let prepared = refresh();
    let parts =
        (prepared.intent.proof.clone(), "message".to_string(), prepared.forfeit_psbts.clone());
    let delegate = delegate_of(Ok(parts), &cosigner).unwrap();
    assert_eq!(delegate.intent.proof, prepared.intent.proof);
    assert_eq!(delegate.intent.message, "message");
    assert_eq!(delegate.forfeit_psbts, prepared.forfeit_psbts);
    assert_eq!(delegate.delegate_cosigner_pk, cosigner);
}

#[test]
fn what_was_not_prepared_makes_no_delegate() {
    let cosigner = keypair(COSIGNER).public_key();
    let info = server_info(330, None);
    let output = IntentOutput { amount: 1_000, script_pubkey: contract().script_pubkey() };
    let prepare = |inputs: &Vec<IntentInput>, outputs: &Vec<IntentOutput>| {
        prepare_delegate_psbts(inputs, outputs, &cosigner, &info.forfeit_address, info.dust)
    };
    let error = prepare(&Vec::new(), &vec![output]).err().unwrap();
    let text = error.to_string();
    assert!(text.contains("missing inputs"), "{text}");
    assert_eq!(delegate_of(Err(error), &cosigner).err().unwrap().to_string(), text);

    let leaf = SignerSet::BuyerArbiter.script(contract().options());
    let block = contract().control_block(&leaf).unwrap();
    let input = IntentInput::new(
        leaf,
        block,
        contract().tapscripts(),
        contract().script_pubkey(),
        1_000,
        recoverable(1, 1_000, false).outpoint,
        false,
    );
    let output = IntentOutput { amount: 1_000, script_pubkey: contract().script_pubkey() };
    let delegate = prepare(&vec![input], &vec![output]).unwrap();
    assert_eq!(delegate.forfeit_psbts.len(), 1);
    assert_eq!(delegate.delegate_cosigner_pk, cosigner);
}

#[test]
fn a_prepared_refresh_can_be_signed_by_all() {
    let mut refresh = refresh();
    assert!(is_signable_delegate(&refresh.intent.proof, &refresh.forfeit_psbts));
    sign_refresh(&mut refresh, &keypair(BUYER)).unwrap();
    sign_refresh(&mut refresh, &keypair(ARBITER)).unwrap();
    for n in [BUYER, ARBITER] {
        for i in 0..5 {
            assert!(is_signed_by(&refresh.intent.proof, i, n, TapSighashType::Default));
        }
        for forfeit in &refresh.forfeit_psbts {
            assert!(is_signed_by(forfeit, 0, n, TapSighashType::AllPlusAnyoneCanPay));
        }
    }
    assert!(is_signable_delegate(&refresh.intent.proof, &refresh.forfeit_psbts));
    for psbt in refresh.forfeit_psbts.iter().chain([&refresh.intent.proof]) {
        assert_eq!(&psbt_from_base64(&psbt_to_base64(psbt)).unwrap(), psbt);
    }
}

#[test]
fn an_incomplete_proof_is_not_signed() {
    let mut refresh = refresh();
    refresh.intent.proof.inputs[2].witness_utxo = None;
    let error = sign_refresh(&mut refresh, &keypair(BUYER)).unwrap_err();
    assert!(matches!(error, RefreshError::Sign(_)));
    assert_eq!(error.message(), "signing refresh PSBTs");
    assert!(refresh.intent.proof.inputs[0].tap_script_sigs.is_empty());
}

#[test]
fn an_incomplete_forfeit_is_not_signed() {
    let mut refresh = refresh();
    refresh.forfeit_psbts[1].inputs[0].witness_utxo = None;
    assert!(matches!(
        try_sign_refresh(&mut refresh, &keypair(BUYER)),
        Some(Err(RefreshError::Sign(_)))
    ));
    assert!(is_signed_by(&refresh.forfeit_psbts[0], 0, BUYER, TapSighashType::AllPlusAnyoneCanPay));
    assert!(refresh.forfeit_psbts[1].inputs[0].tap_script_sigs.is_empty());
}

#[test]
fn leaves_are_missed_only_where_signing_gets() {
    let mut without = refresh();
    without.intent.proof.inputs[3].tap_scripts.clear();
    assert!(!is_signable_delegate(&without.intent.proof, &without.forfeit_psbts));
    let before = without.intent.proof.clone();
    assert!(try_sign_refresh(&mut without, &keypair(BUYER)).is_none());
    assert_eq!(without.intent.proof, before);

    without.intent.proof.inputs[1].witness_utxo = None;
    assert!(is_signable_delegate(&without.intent.proof, &without.forfeit_psbts));
    assert!(matches!(try_sign_refresh(&mut without, &keypair(BUYER)), Some(Err(_))));

    let mut without = refresh();
    without.forfeit_psbts[1].inputs[0].tap_scripts.clear();
    assert!(!is_signable_delegate(&without.intent.proof, &without.forfeit_psbts));
    without.forfeit_psbts[0].inputs[0].witness_utxo = None;
    assert!(is_signable_delegate(&without.intent.proof, &without.forfeit_psbts));
    assert!(matches!(try_sign_refresh(&mut without, &keypair(BUYER)), Some(Err(_))));

    let mut without = refresh();
    without.forfeit_psbts[0].inputs.clear();
    assert!(!is_signable_delegate(&without.intent.proof, &without.forfeit_psbts));
}

#[test]
fn surplus_inputs_are_signed_if_their_leaf_is_known() {
    let mut refresh = refresh();
    let mut surplus = refresh.intent.proof.inputs[1].clone();
    surplus.witness_utxo = None;
    refresh.intent.proof.inputs.push(surplus.clone());
    assert!(is_signable_delegate(&refresh.intent.proof, &refresh.forfeit_psbts));
    assert!(matches!(try_sign_refresh(&mut refresh, &keypair(BUYER)), Some(Ok(()))));
    assert_eq!(refresh.intent.proof.inputs[5].tap_script_sigs.len(), 1);
    surplus.tap_scripts.clear();
    refresh.intent.proof.inputs.push(surplus);
    assert!(!is_signable_delegate(&refresh.intent.proof, &refresh.forfeit_psbts));
}

#[test]
fn a_refresh_is_the_delegate_that_carries_it_out() {
    let refresh = refresh();
    let proof = refresh.intent.proof.clone();
    let message = refresh.intent.message.clone();
    let forfeits = refresh.forfeit_psbts.clone();
    let back = RefreshIntent::from_delegate(refresh.into_delegate());
    assert_eq!(back.intent.proof, proof);
    assert_eq!(back.intent.message, message);
    assert_eq!(back.forfeit_psbts, forfeits);
    assert_eq!(back.refresh_cosigner_pk, keypair(COSIGNER).public_key());
}

#[test]
fn amounts_that_cannot_be_written_are_noticed() {
    let most = recoverable(1, u64::MAX, true);
    assert!(sum_fits(&[most]) && !sum_fits(&[most, recoverable(2, 1, true)]));
    assert!(can_forfeit(&[most], 330));
    assert!(!can_forfeit(&[recoverable(1, u64::MAX, false)], 330));
    assert!(can_forfeit(&[recoverable(1, u64::MAX - 330, false)], 330));
}

fn delegate_vtxos() -> Vec<DelegateVtxo> {
    some_vtxos()
        .into_iter()
        .map(|v| DelegateVtxo { outpoint: v.outpoint, amount: v.amount, is_swept: v.is_swept })
        .collect()
}

#[test]
fn a_direct_release_pays_buyer_and_fees_from_dust_on() {
    let mut delegate = prepare_release_delegate(
        &contract(),
        &delegate_vtxos(),
        &address(20),
        &[fee(30, 329), fee(31, 1_000), fee(32, 330)],
        SignerSet::SellerBuyer,
        &keypair(COSIGNER).public_key(),
        &server_info(330, None),
    )
    .unwrap();
    assert_eq!(
        outputs(&delegate.intent.proof),
        vec![
            (30_430 - 1_330, address(20).to_p2tr_script_pubkey()),
            (1_000, address(31).to_p2tr_script_pubkey()),
            (330, address(32).to_p2tr_script_pubkey()),
        ]
    );
    assert_eq!(delegate.forfeit_psbts.len(), 2);
    assert_eq!(delegate.delegate_cosigner_pk, keypair(COSIGNER).public_key());
    sign_delegate(&mut delegate, &keypair(SELLER)).unwrap();
    assert!(is_signed_by(&delegate.intent.proof, 0, SELLER, TapSighashType::Default));
    assert!(matches!(try_sign_delegate(&mut delegate, &keypair(BUYER)), Some(Ok(()))));
    assert!(is_signed_by(
        &delegate.forfeit_psbts[1],
        0,
        BUYER,
        TapSighashType::AllPlusAnyoneCanPay
    ));
    delegate.intent.proof.inputs[0].witness_utxo = None;
    let error = sign_delegate(&mut delegate, &keypair(SELLER)).unwrap_err();
    assert!(matches!(error, DelegateError::Sign(_)));
    assert_eq!(error.message(), "signing delegate PSBTs");
    delegate.intent.proof.inputs[0].tap_scripts.clear();
    assert!(try_sign_delegate(&mut delegate, &keypair(SELLER)).is_none());
}

#[test]
fn a_direct_release_fails_as_its_plan_does() {
    let prepare = |vtxos: &[DelegateVtxo], fees: &[FeeOutput]| {
        prepare_release_delegate(
            &contract(),
            vtxos,
            &address(20),
            fees,
            SignerSet::SellerBuyer,
            &keypair(COSIGNER).public_key(),
            &server_info(330, None),
        )
        .err()
        .unwrap()
    };
    assert!(matches!(
        prepare(&delegate_vtxos(), &[fee(30, 30_431)]),
        DelegateError::Plan(PlanError::FeeExceedsEscrow {
            total_fee: 30_431,
            total_escrow_amount: 30_430
        })
    ));
    let error = prepare(&delegate_vtxos(), &[fee(30, 30_430)]);
    assert!(matches!(
        error,
        DelegateError::Plan(PlanError::DustExceedsPayout { dust: 330, buyer_amount: 0 })
    ));
    assert!(error.message().contains("exceeds buyer payout"));
    assert!(matches!(prepare(&[], &[]), DelegateError::Plan(_)));
}

#[test]
fn a_direct_release_of_nothing_is_not_prepared() {
    let error = prepare_release_delegate(
        &contract(),
        &[],
        &address(20),
        &[],
        SignerSet::SellerBuyer,
        &keypair(COSIGNER).public_key(),
        &server_info(0, None),
    )
    .err()
    .unwrap();
    assert!(matches!(error, DelegateError::Prepare(_)));
    assert_eq!(error.message(), "preparing delegate PSBTs");
}

#[test]
fn escrow_vtxos_are_compared_by_their_fields() {
    let one = EscrowVtxo { outpoint: some_vtxos()[0].outpoint, amount: 1 };
    assert_eq!(one, one);
    assert_ne!(one, vtxo(1));
}

#[test]
fn onchain_addresses_are_checked() {
    let text = forfeit_address().to_string();
    assert_eq!(OnchainAddress::parse(&text).unwrap().as_text(), text);
    assert!(OnchainAddress::parse("nonsense").is_none());
}

fn signed_by(refresh: &RefreshIntent, signers: &[u8]) -> (Psbt, Vec<Psbt>) {
    let mut copy = RefreshIntent {
        intent: ark_escrow::intent::Intent {
            proof: refresh.intent.proof.clone(),
            message: refresh.intent.message.clone(),
        },
        forfeit_psbts: refresh.forfeit_psbts.clone(),
        refresh_cosigner_pk: refresh.refresh_cosigner_pk,
    };
    for signer in signers {
        sign_refresh(&mut copy, &keypair(*signer)).unwrap();
    }
    assert_eq!(copy.intent.message, refresh.intent.message);
    assert_eq!(copy.refresh_cosigner_pk, refresh.refresh_cosigner_pk);
    (copy.intent.proof, copy.forfeit_psbts)
}

#[test]
fn signers_of_a_refresh_come_in_any_order_and_count_once() {
    let refresh = refresh();
    let both = signed_by(&refresh, &[BUYER, ARBITER]);
    assert_eq!(both, signed_by(&refresh, &[ARBITER, BUYER]));
    assert_eq!(both, signed_by(&refresh, &[BUYER, ARBITER, BUYER]));
    assert_ne!(both, signed_by(&refresh, &[BUYER]));
    assert_eq!(both.0.unsigned_tx, refresh.intent.proof.unsigned_tx);
}

#[test]
fn copies_of_a_refresh_are_merged_to_what_both_signed() {
    let refresh = refresh();
    let both = signed_by(&refresh, &[BUYER, ARBITER]);
    let (mut proof, mut forfeits) = signed_by(&refresh, &[BUYER]);
    let (other_proof, other_forfeits) = signed_by(&refresh, &[ARBITER]);
    merge_ark_tx_sigs(&mut proof, &other_proof).unwrap();
    for (forfeit, other) in forfeits.iter_mut().zip(&other_forfeits) {
        merge_ark_tx_sigs(forfeit, other).unwrap();
    }
    assert_eq!((proof, forfeits), both);
}

#[test]
fn every_proof_input_carries_what_its_vtxo_is_locked_by() {
    let vtxos = some_vtxos();
    let refresh = refresh();
    let leaf = SignerSet::BuyerArbiter.script(contract().options());
    let block = contract().control_block(&leaf).unwrap();
    let proof = &refresh.intent.proof;
    let front = proof.inputs[0].witness_utxo.as_ref().unwrap();
    assert_eq!(front.value, Amount::ZERO);
    assert_eq!(front.script_pubkey.to_bytes(), contract().script_pubkey());
    for (i, input) in proof.inputs.iter().enumerate() {
        let (found, (script, _)) = input.tap_scripts.first_key_value().unwrap();
        assert_eq!(found.serialize(), block);
        assert_eq!(script.to_bytes(), leaf);
        if i == 0 {
            continue;
        }
        let utxo = input.witness_utxo.as_ref().unwrap();
        assert_eq!(utxo.value.to_sat(), vtxos[i - 1].amount);
        assert_eq!(utxo.script_pubkey.to_bytes(), contract().script_pubkey());
        let listed = input.unknown.values().next().unwrap();
        for script in contract().tapscripts() {
            assert!(listed.windows(script.len()).any(|part| part == script));
        }
    }
    let message = refresh.intent.message.as_bytes();
    assert!(proof.unknown.values().any(|value| value == message));
}

#[test]
fn opposite_secret_keys_sign_alike() {
    let secret = keypair(BUYER).secret();
    let opposite = secp256k1::SecretKey::from_slice(&secret).unwrap().negate();
    let opposite = Keypair::from_secret(opposite.secret_bytes()).unwrap();
    assert_ne!(opposite.public_key(), keypair(BUYER).public_key());
    assert_eq!(opposite.x_only_public_key(), keypair(BUYER).x_only_public_key());
    assert_eq!(opposite.sign_digest([7; 32]), keypair(BUYER).sign_digest([7; 32]));
    assert_ne!(opposite.sign_digest([7; 32]), keypair(ARBITER).sign_digest([7; 32]));
}
