use std::collections::HashMap;

use ark_core::server;
use ark_escrow::address::{ArkAddress, Network};
use ark_escrow::client::{SpendAction, SpendEvent};
use ark_escrow::contract::{ContractError, EscrowContract, EscrowOptions, SignerSet};
use ark_escrow::ffi::{
    build_refund, build_release, contract_from_text, escrow_vtxo_text, hex_to_32_bytes,
    merge_sigs, parse_fee_outputs, parse_network, parse_refresh_vtxos, parse_secret_key,
    parse_signer_set, parse_xonly, prepare_refresh, quote_release, read_refresh, read_spend,
    refresh_vtxo_texts, server_pk, sign_ark_tx, sign_checkpoint, sign_intent_and_forfeits,
    FfiError,
};
use ark_escrow::keys::{Keypair, PublicKey};
use ark_escrow::psbt::{compute_txid, psbt_from_base64, psbt_to_base64, PsbtTextError};
use ark_escrow::refresh::{RefreshError, RefreshVtxo};
use ark_escrow::server::{OnchainAddress, ServerInfo};
use ark_escrow::spend::{self, EscrowVtxo, SpendError};
use ark_escrow::tx::{OutPoint, Txid};
use ark_escrow::{refresh, PlanError};
use bitcoin::secp256k1::{self, Secp256k1};
use bitcoin::{Amount, ScriptBuf};

const SELLER: u8 = 1;
const BUYER: u8 = 2;
const ARBITER: u8 = 3;
const SERVER: u8 = 4;

fn keypair(n: u8) -> Keypair {
    Keypair::from_secret([n; 32]).unwrap()
}

fn outside_pk(n: u8) -> secp256k1::PublicKey {
    secp256k1::PublicKey::from_slice(&keypair(n).public_key().serialize()).unwrap()
}

fn x_only(n: u8) -> bitcoin::XOnlyPublicKey {
    outside_pk(n).x_only_public_key().0
}

fn checkpoint_script() -> ScriptBuf {
    ScriptBuf::builder()
        .push_int(10)
        .push_opcode(bitcoin::opcodes::all::OP_CSV)
        .push_opcode(bitcoin::opcodes::all::OP_DROP)
        .push_x_only_key(&x_only(SERVER))
        .push_opcode(bitcoin::opcodes::all::OP_CHECKSIG)
        .into_script()
}

fn forfeit_address() -> bitcoin::Address {
    let secp = Secp256k1::new();
    bitcoin::Address::p2tr(&secp, x_only(6), None, bitcoin::Network::Regtest)
}

fn raw_info(dust: u64, vtxo_min_amount: Option<u64>) -> server::Info {
    server::Info {
        version: String::new(),
        signer_pk: outside_pk(SERVER),
        forfeit_pk: outside_pk(6),
        forfeit_address: forfeit_address(),
        checkpoint_tapscript: checkpoint_script(),
        network: bitcoin::Network::Regtest,
        session_duration: 10,
        unilateral_exit_delay: bitcoin::Sequence::from_height(144),
        boarding_exit_delay: bitcoin::Sequence::from_height(1008),
        utxo_min_amount: None,
        utxo_max_amount: None,
        vtxo_min_amount: vtxo_min_amount.map(Amount::from_sat),
        vtxo_max_amount: None,
        dust: Amount::from_sat(dust),
        fees: None,
        scheduled_session: None,
        deprecated_signers: Vec::new(),
        service_status: HashMap::new(),
        digest: String::new(),
        max_tx_weight: 40_000,
        max_op_return_outputs: 3,
    }
}

fn server_info(dust: u64, vtxo_min_amount: Option<u64>) -> ServerInfo {
    ServerInfo {
        signer_pk: keypair(SERVER).public_key(),
        forfeit_pk: keypair(6).public_key(),
        forfeit_address: OnchainAddress::parse(&forfeit_address().to_string()).unwrap(),
        checkpoint_tapscript: checkpoint_script().into_bytes(),
        network: Network::Regtest,
        unilateral_exit_delay: 144,
        vtxo_min_amount,
        dust,
        deprecated_signers: Vec::<PublicKey>::new(),
        raw: raw_info(dust, vtxo_min_amount),
    }
}

fn contract() -> EscrowContract {
    let options = EscrowOptions {
        seller: keypair(SELLER).x_only_public_key(),
        buyer: keypair(BUYER).x_only_public_key(),
        arbiter: keypair(ARBITER).x_only_public_key(),
        server: keypair(SERVER).x_only_public_key(),
        unilateral_exit_delay: 144,
    };
    EscrowContract::new(options, Network::Regtest).unwrap()
}

fn address(n: u8) -> ArkAddress {
    let server = keypair(SERVER).x_only_public_key();
    ArkAddress::new(Network::Regtest, &server, keypair(n).x_only_public_key().serialize())
}

fn vtxo(amount: u64) -> EscrowVtxo {
    EscrowVtxo { outpoint: OutPoint { txid: Txid { bytes: [0xab; 32] }, vout: 1 }, amount }
}

fn hex(bytes: &[u8]) -> String {
    bytes.iter().map(|byte| format!("{byte:02x}")).collect()
}

fn secret(n: u8) -> String {
    hex(&[n; 32])
}

fn key_text(n: u8) -> String {
    hex(&keypair(n).x_only_public_key().serialize())
}

fn outpoint_text() -> String {
    vtxo(0).outpoint.to_string()
}

fn fees(list: &[(u8, u64)]) -> Vec<(String, u64)> {
    list.iter().map(|(n, amount)| (address(*n).to_string(), *amount)).collect()
}

#[test]
fn hexadecimal_reads_back() {
    let bytes: Vec<u8> = (0..32).map(|n| n * 7 + 3).collect();
    let text = hex(&bytes);
    assert_eq!(hex_to_32_bytes(&text).unwrap().to_vec(), bytes);
    assert_eq!(hex_to_32_bytes(&format!("0x{text}")).unwrap().to_vec(), bytes);
    assert_eq!(hex_to_32_bytes(&text.to_uppercase()).unwrap().to_vec(), bytes);
}

#[test]
fn a_plus_sign_may_stand_for_a_digit() {
    let text = format!("+f{}", "00".repeat(31));
    assert_eq!(hex_to_32_bytes(&text).unwrap()[0], 0x0f);
    assert!(hex_to_32_bytes(&format!("f+{}", "00".repeat(31))).is_err());
    assert!(hex_to_32_bytes(&format!("-1{}", "00".repeat(31))).is_err());
}

#[test]
fn other_lengths_are_refused() {
    let error = hex_to_32_bytes("abc").unwrap_err();
    assert!(matches!(error, FfiError::HexLength(3)));
    assert_eq!(error.message(), "expected 64 hex chars, got 3");
    assert!(matches!(hex_to_32_bytes("0x"), Err(FfiError::HexLength(0))));
    assert!(matches!(hex_to_32_bytes(""), Err(FfiError::HexLength(0))));
    assert!(matches!(hex_to_32_bytes(&"0".repeat(66)), Err(FfiError::HexLength(66))));
    assert!(matches!(
        hex_to_32_bytes(&format!("0x0x{}", "0".repeat(62))),
        Err(FfiError::HexDigit)
    ));
}

#[test]
fn other_digits_are_refused() {
    for wrong in ["g0", "0g", " 0", "/0", ":0", "@0", "G0", "`0"] {
        let error = hex_to_32_bytes(&format!("{wrong}{}", "00".repeat(31))).unwrap_err();
        assert!(matches!(error, FfiError::HexDigit));
        assert_eq!(error.message(), "invalid digit found in string");
    }
    let wide = format!("\u{e9}{}", "0".repeat(62));
    assert!(matches!(hex_to_32_bytes(&wide), Err(FfiError::HexDigit)));
    let split = format!("0\u{e9}{}", "0".repeat(61));
    assert!(matches!(hex_to_32_bytes(&split), Err(FfiError::HexDigit)));
}

#[test]
fn keys_are_read() {
    assert_eq!(parse_xonly(&key_text(1)).unwrap(), keypair(1).x_only_public_key());
    let error = parse_xonly(&"00".repeat(32)).unwrap_err();
    assert!(matches!(error, FfiError::NotXOnlyKey));
    assert_eq!(error.message(), "malformed public key");
    assert!(matches!(parse_xonly("12"), Err(FfiError::HexLength(2))));
    assert_eq!(parse_secret_key(&secret(1)).ok().unwrap().secret(), [1; 32]);
    let error = parse_secret_key(&"00".repeat(32)).err().unwrap();
    assert!(matches!(error, FfiError::NotSecretKey));
    assert_eq!(error.message(), "malformed or out-of-range secret key");
    assert!(matches!(parse_secret_key("zz"), Err(FfiError::HexLength(2))));
}

#[test]
fn networks_have_names() {
    assert_eq!(parse_network("mainnet").unwrap(), Network::Bitcoin);
    assert_eq!(parse_network("bitcoin").unwrap(), Network::Bitcoin);
    assert_eq!(parse_network("testnet").unwrap(), Network::Testnet);
    assert_eq!(parse_network("signet").unwrap(), Network::Signet);
    assert_eq!(parse_network("mutinynet").unwrap(), Network::Signet);
    assert_eq!(parse_network("regtest").unwrap(), Network::Regtest);
    assert_eq!(
        parse_network("Regtest").unwrap_err().message(),
        "unknown network: Regtest"
    );
}

#[test]
fn signer_sets_have_names() {
    assert_eq!(parse_signer_set("buyer_arbiter").unwrap(), SignerSet::BuyerArbiter);
    assert_eq!(parse_signer_set("seller_arbiter").unwrap(), SignerSet::SellerArbiter);
    assert_eq!(parse_signer_set("seller_buyer").unwrap(), SignerSet::SellerBuyer);
    assert_eq!(
        parse_signer_set("all").unwrap_err().message(),
        "unknown signer_set: all; expected 'buyer_arbiter', 'seller_arbiter', or 'seller_buyer'"
    );
}

fn contract_text(keys: [&str; 4], delay: u32, network: &str) -> Result<String, FfiError> {
    contract_from_text(keys[0], keys[1], keys[2], keys[3], delay, network)
        .map(|contract| contract.address().to_string())
}

#[test]
fn a_contract_is_read_from_text() {
    let keys = [SELLER, BUYER, ARBITER, SERVER].map(key_text);
    let keys = [&keys[0][..], &keys[1], &keys[2], &keys[3]];
    assert_eq!(
        contract_text(keys, 144, "regtest").unwrap(),
        contract().address().to_string()
    );
    let network = contract_text(keys, 0, "moon").unwrap_err();
    assert!(matches!(network, FfiError::UnknownNetwork(_)));
    let delay = contract_text(keys, 0, "regtest").unwrap_err();
    assert!(matches!(delay, FfiError::Contract(ContractError::ZeroDelay)));
    let delay = contract_text(keys, u32::MAX, "regtest").unwrap_err();
    assert!(matches!(delay, FfiError::Contract(ContractError::NotRelativeLockTime)));
    let twice = contract_text([keys[0], keys[0], keys[2], keys[3]], 0, "regtest").unwrap_err();
    assert!(matches!(twice, FfiError::Contract(ContractError::DuplicateKeys)));
    assert_eq!(twice.message(), "all public keys must be distinct");
    for i in 0..4 {
        let mut wrong = keys;
        wrong[i] = "12";
        let error = contract_text(wrong, 0, "moon").unwrap_err();
        assert!(matches!(error, FfiError::HexLength(2)));
    }
}

#[test]
fn the_delay_is_a_sequence_number() {
    let keys = [SELLER, BUYER, ARBITER, SERVER].map(key_text);
    let keys = [&keys[0][..], &keys[1], &keys[2], &keys[3]];
    let seconds = bitcoin::Sequence::from_seconds_ceil(512).unwrap().to_consensus_u32();
    let options = EscrowOptions { unilateral_exit_delay: seconds, ..*contract().options() };
    let expected = EscrowContract::new(options, Network::Regtest).unwrap();
    assert_eq!(
        contract_text(keys, seconds, "regtest").unwrap(),
        expected.address().to_string()
    );
}

#[test]
fn fees_are_read() {
    let outputs = parse_fee_outputs(&fees(&[(30, 1), (31, 2)])).unwrap();
    assert_eq!(outputs[1].address, address(31));
    assert_eq!(outputs[1].amount, 2);
    let error = parse_fee_outputs(&vec![("nonsense".to_string(), 1)]).unwrap_err();
    assert!(matches!(error, FfiError::Address(_)));
    assert_eq!(error.message(), "invalid Arkade address");
}

#[test]
fn releases_are_quoted() {
    let list = fees(&[(30, 329), (31, 400)]);
    assert_eq!(
        quote_release(10_000, &list, false, 330).unwrap(),
        (9_271, list.clone(), Vec::new())
    );
    assert_eq!(
        quote_release(10_000, &list, true, 330).unwrap(),
        (9_600, list[1..].to_vec(), list[..1].to_vec())
    );
    assert!(matches!(
        quote_release(728, &list, false, 0),
        Err(FfiError::Plan(PlanError::FeeExceedsEscrow {
            total_fee: 729,
            total_escrow_amount: 728
        }))
    ));
    assert!(matches!(
        quote_release(730, &list, false, 2),
        Err(FfiError::Plan(PlanError::DustExceedsPayout { dust: 2, buyer_amount: 1 }))
    ));
    assert!(matches!(
        quote_release(1, &vec![("x".to_string(), 1)], false, 0),
        Err(FfiError::Address(_))
    ));
    let error = quote_release(1, &fees(&[(30, u64::MAX), (31, 1)]), false, 0).unwrap_err();
    assert!(matches!(error, FfiError::Overflow));
    assert_eq!(error.message(), "amounts overflow");
}

#[test]
fn vtxos_read_back() {
    let vtxos = vec![
        RefreshVtxo { outpoint: vtxo(0).outpoint, amount: 5, is_swept: true },
        RefreshVtxo {
            outpoint: OutPoint { txid: Txid { bytes: [9; 32] }, vout: 7 },
            amount: 6,
            is_swept: false,
        },
    ];
    let texts = refresh_vtxo_texts(&vtxos);
    assert_eq!(texts[0], (outpoint_text(), 5, true));
    assert_eq!(parse_refresh_vtxos(&texts).unwrap(), vtxos);
    let error = parse_refresh_vtxos(&vec![("x".to_string(), 1, false)]).unwrap_err();
    assert!(matches!(error, FfiError::NotOutPoint));
    assert_eq!(error.message(), "invalid outpoint");
    assert_eq!(escrow_vtxo_text(Some(vtxo(8))), Some((outpoint_text(), 8)));
    assert_eq!(escrow_vtxo_text(None), None);
}

#[test]
fn the_server_key_is_written_without_parity() {
    let text = server_pk(&server_info(330, None));
    assert_eq!(text, key_text(SERVER));
    assert_eq!(parse_xonly(&text).unwrap(), keypair(SERVER).x_only_public_key());
}

#[test]
fn a_release_is_built_signed_and_merged_in_text() {
    let texts = build_release(
        &contract(),
        &outpoint_text(),
        50_000,
        &address(20).to_string(),
        &fees(&[(30, 500)]),
        "buyer_arbiter",
        &server_info(330, None),
    )
    .unwrap();
    let buyers = sign_ark_tx(&texts.ark_tx, &secret(BUYER)).unwrap();
    let arbiters = sign_ark_tx(&texts.ark_tx, &secret(ARBITER)).unwrap();
    let merged = merge_sigs(&buyers, &arbiters).unwrap();

    let mut psbt = psbt_from_base64(&texts.ark_tx).unwrap();
    spend::sign_ark_tx(&mut psbt, &keypair(BUYER)).unwrap();
    assert_eq!(psbt_from_base64(&buyers).unwrap(), psbt);
    spend::sign_ark_tx(&mut psbt, &keypair(ARBITER)).unwrap();
    assert_eq!(psbt_from_base64(&merged).unwrap(), psbt);
    assert_eq!(psbt.unsigned_tx.output[0].value.to_sat(), 49_500);

    let checkpoint = sign_checkpoint(&texts.checkpoint_txs[0], &secret(BUYER)).unwrap();
    let mut psbt = psbt_from_base64(&texts.checkpoint_txs[0]).unwrap();
    spend::sign_checkpoint(&mut psbt, &keypair(BUYER)).unwrap();
    assert_eq!(checkpoint, psbt_to_base64(&psbt));
}

#[test]
fn what_is_wrong_with_a_release_is_told_in_order() {
    let build = |outpoint: &str, buyer: &str, list: &Vec<(String, u64)>, signers: &str| {
        build_release(
            &contract(),
            outpoint,
            1_000,
            buyer,
            list,
            signers,
            &server_info(330, Some(400)),
        )
        .unwrap_err()
    };
    let buyer = address(20).to_string();
    let nobody = vec![("x".to_string(), 1)];
    let too_much = fees(&[(30, u64::MAX), (31, 1)]);
    assert!(matches!(build("x", "x", &nobody, "x"), FfiError::NotOutPoint));
    assert!(matches!(build(&outpoint_text(), "x", &nobody, "x"), FfiError::Address(_)));
    assert!(matches!(build(&outpoint_text(), &buyer, &nobody, "x"), FfiError::Address(_)));
    let signers = build(&outpoint_text(), &buyer, &too_much, "x");
    assert!(matches!(signers, FfiError::UnknownSignerSet(_)));
    let overflow = build(&outpoint_text(), &buyer, &too_much, "seller_buyer");
    assert!(matches!(overflow, FfiError::Overflow));
    let fee = build(&outpoint_text(), &buyer, &fees(&[(30, 1_001)]), "seller_buyer");
    assert!(matches!(
        fee,
        FfiError::Spend(SpendError::Plan(PlanError::FeeExceedsEscrow { .. }))
    ));
    let dust = build(&outpoint_text(), &buyer, &fees(&[(30, 700)]), "seller_buyer");
    assert!(matches!(
        dust,
        FfiError::Spend(SpendError::Plan(PlanError::DustExceedsPayout { .. }))
    ));
    let least = build(&outpoint_text(), &buyer, &fees(&[(30, 399)]), "seller_buyer");
    assert!(matches!(least, FfiError::Spend(SpendError::BuildRelease(_))));
}

#[test]
fn a_refund_is_built_in_text() {
    let build = |outpoint: &str, seller: &str, signers: &str, amount: u64| {
        let info = server_info(330, Some(400));
        build_refund(&contract(), outpoint, amount, seller, signers, &info)
    };
    let seller = address(21).to_string();
    let texts = build(&outpoint_text(), &seller, "seller_arbiter", 9_000).unwrap();
    let psbt = psbt_from_base64(&texts.ark_tx).unwrap();
    assert_eq!(psbt.unsigned_tx.output[0].value.to_sat(), 9_000);
    assert_eq!(texts.checkpoint_txs.len(), 1);
    let error = |outpoint: &str, seller: &str, signers: &str, amount: u64| {
        build(outpoint, seller, signers, amount).unwrap_err()
    };
    assert!(matches!(error("x", "x", "x", 1), FfiError::NotOutPoint));
    assert!(matches!(error(&outpoint_text(), "x", "x", 1), FfiError::Address(_)));
    assert!(matches!(
        error(&outpoint_text(), &seller, "x", 1),
        FfiError::UnknownSignerSet(_)
    ));
    assert!(matches!(
        error(&outpoint_text(), &seller, "seller_arbiter", 399),
        FfiError::Spend(SpendError::BuildRefund(_))
    ));
}

fn a_spend() -> ark_escrow::ffi::SpendTexts {
    let seller = address(21).to_string();
    let info = server_info(330, None);
    build_refund(&contract(), &outpoint_text(), 9_000, &seller, "seller_arbiter", &info).unwrap()
}

#[test]
fn what_cannot_be_signed_is_told() {
    let texts = a_spend();
    assert!(matches!(
        sign_ark_tx("***", "x"),
        Err(FfiError::Psbt(PsbtTextError::NotBase64))
    ));
    assert!(matches!(sign_ark_tx(&texts.ark_tx, "x"), Err(FfiError::HexLength(1))));
    let mut psbt = psbt_from_base64(&texts.ark_tx).unwrap();
    psbt.inputs[0].tap_scripts.clear();
    let bare = psbt_to_base64(&psbt);
    let error = sign_ark_tx(&bare, &secret(BUYER)).unwrap_err();
    assert!(matches!(error, FfiError::Unsignable));
    assert_eq!(error.message(), "PSBT lacks what a signature needs");
    assert!(matches!(sign_checkpoint(&bare, &secret(BUYER)), Err(FfiError::Unsignable)));
    assert!(matches!(sign_checkpoint("AAAA", "x"), Err(FfiError::Psbt(_))));
    assert!(matches!(sign_checkpoint(&texts.ark_tx, "x"), Err(FfiError::HexLength(1))));

    let mut two = psbt_from_base64(&texts.checkpoint_txs[0]).unwrap();
    let mut input = two.unsigned_tx.input[0].clone();
    input.previous_output.vout += 1;
    two.unsigned_tx.input.push(input);
    let input = two.inputs[0].clone();
    two.inputs.push(input);
    assert!(matches!(
        sign_checkpoint(&psbt_to_base64(&two), &secret(BUYER)),
        Err(FfiError::Spend(SpendError::SignCheckpoint(_)))
    ));
}

#[test]
fn what_cannot_be_merged_is_told() {
    let texts = a_spend();
    assert!(matches!(
        merge_sigs("***", "AAAA"),
        Err(FfiError::Psbt(PsbtTextError::NotBase64))
    ));
    assert!(matches!(
        merge_sigs(&texts.ark_tx, "AAAA"),
        Err(FfiError::Psbt(PsbtTextError::NotPsbt(_)))
    ));
    let mut two = psbt_from_base64(&texts.checkpoint_txs[0]).unwrap();
    let mut input = two.unsigned_tx.input[0].clone();
    input.previous_output.vout += 1;
    two.unsigned_tx.input.push(input);
    let mut second = two.inputs[0].clone();
    let signed = sign_ark_tx(&texts.ark_tx, &secret(BUYER)).unwrap();
    second.tap_script_sigs =
        psbt_from_base64(&signed).unwrap().inputs[0].tap_script_sigs.clone();
    two.inputs.push(second.clone());
    let error = merge_sigs(&texts.ark_tx, &psbt_to_base64(&two)).unwrap_err();
    assert!(matches!(error, FfiError::TooManyInputs));
    assert_eq!(error.message(), "PSBT has signatures on inputs that the base lacks");
    second.tap_script_sigs.clear();
    two.inputs[1] = second;
    merge_sigs(&texts.ark_tx, &psbt_to_base64(&two)).unwrap();
}

#[test]
fn a_spend_is_read_from_text() {
    let texts = a_spend();
    let signed = vec![sign_checkpoint(&texts.checkpoint_txs[0], &secret(SELLER)).unwrap()];
    let spend =
        read_spend("trade", &texts.ark_tx, &texts.checkpoint_txs, &vec![signed.clone()]).unwrap();
    assert!(spend.accepts(&SpendEvent::Loaded(None)));
    let (_, action) = spend.step(SpendEvent::Loaded(None));
    let SpendAction::Submit { ark_tx, checkpoints } = action else { panic!("not submitted") };
    assert_eq!(psbt_to_base64(&ark_tx), texts.ark_tx);
    assert_eq!(psbt_to_base64(&checkpoints[0]), texts.checkpoint_txs[0]);
    let bad = vec!["AAAA".to_string()];
    assert!(matches!(
        read_spend("trade", "***", &bad, &Vec::new()),
        Err(FfiError::Psbt(PsbtTextError::NotBase64))
    ));
    assert!(matches!(
        read_spend("trade", &texts.ark_tx, &bad, &vec![vec!["***".to_string()]]),
        Err(FfiError::Psbt(PsbtTextError::NotPsbt(_)))
    ));
    assert!(matches!(
        read_spend("trade", &texts.ark_tx, &texts.checkpoint_txs, &vec![signed, bad]),
        Err(FfiError::Psbt(PsbtTextError::NotPsbt(_)))
    ));
}

fn vtxo_texts() -> Vec<(String, u64, bool)> {
    vec![(outpoint_text(), 10_000, false), ("22".repeat(32) + ":3", 20_000, true)]
}

#[test]
fn a_refresh_is_prepared_signed_and_read_in_text() {
    let texts = prepare_refresh(
        &contract(),
        &vtxo_texts(),
        "buyer_arbiter",
        &secret(40),
        &server_info(330, None),
    )
    .unwrap();
    assert_eq!(texts.cosigner_pk, hex(&keypair(40).public_key().serialize()));
    assert_eq!(texts.forfeit_psbts.len(), 1);
    let (proof, forfeits) =
        sign_intent_and_forfeits(&texts.intent_proof, &texts.forfeit_psbts, &secret(BUYER))
            .unwrap();
    let (proof, forfeits) =
        sign_intent_and_forfeits(&proof, &forfeits, &secret(ARBITER)).unwrap();
    let (read, cosigner) =
        read_refresh(&proof, &texts.intent_message, &forfeits, &secret(40)).ok().unwrap();
    assert_eq!(cosigner.secret(), [40; 32]);
    assert_eq!(read.refresh_cosigner_pk, keypair(40).public_key());
    assert_eq!(read.intent.message, texts.intent_message);
    assert_eq!(read.intent.proof.unsigned_tx.output[0].value.to_sat(), 30_000);

    let (mut expected, _) = read_refresh(
        &texts.intent_proof,
        &texts.intent_message,
        &texts.forfeit_psbts,
        &secret(40),
    )
    .ok()
    .unwrap();
    refresh::sign_refresh(&mut expected, &keypair(BUYER)).unwrap();
    refresh::sign_refresh(&mut expected, &keypair(ARBITER)).unwrap();
    assert_eq!(read.intent.proof, expected.intent.proof);
    assert_eq!(read.forfeit_psbts, expected.forfeit_psbts);
}

#[test]
fn what_is_wrong_with_a_refresh_is_told_in_order() {
    let mut info = server_info(330, None);
    let prepare = |vtxos: &[(&str, u64, bool)], signers: &str, secret: &str, info: &ServerInfo| {
        let vtxos = vtxos.iter().map(|(o, amount, swept)| (o.to_string(), *amount, *swept));
        prepare_refresh(&contract(), &vtxos.collect(), signers, secret, info).unwrap_err()
    };
    let outpoint = outpoint_text();
    let most = (&outpoint[..], u64::MAX, false);
    let one = (&outpoint[..], 1, false);
    let by = "seller_buyer";
    assert!(matches!(prepare(&[("x", 1, false)], "x", "x", &info), FfiError::NotOutPoint));
    assert!(matches!(prepare(&[most, one], "x", "x", &info), FfiError::UnknownSignerSet(_)));
    assert!(matches!(prepare(&[most, one], by, "x", &info), FfiError::HexLength(1)));
    assert!(matches!(prepare(&[most, one], by, &secret(40), &info), FfiError::Overflow));
    assert!(matches!(prepare(&[most], by, &secret(40), &info), FfiError::Overflow));
    assert!(matches!(
        prepare(&[], by, &secret(40), &info),
        FfiError::Refresh(RefreshError::Prepare(_))
    ));
    info.signer_pk = keypair(BUYER).public_key();
    let error = prepare(&[most], by, &secret(40), &info);
    assert!(matches!(
        error,
        FfiError::Refresh(RefreshError::Contract(ContractError::DuplicateKeys))
    ));
}

#[test]
fn what_is_wrong_with_signed_texts_is_told_in_order() {
    let texts = prepare_refresh(
        &contract(),
        &vtxo_texts(),
        "buyer_arbiter",
        &secret(40),
        &server_info(330, None),
    )
    .unwrap();
    let bad = vec!["AAAA".to_string()];
    let sign = |proof: &str, forfeits: &Vec<String>, secret: &str| {
        sign_intent_and_forfeits(proof, forfeits, secret).unwrap_err()
    };
    assert!(matches!(sign("x", &bad, "x"), FfiError::Psbt(_)));
    assert!(matches!(sign(&texts.intent_proof, &bad, "x"), FfiError::HexLength(1)));
    assert!(matches!(sign(&texts.intent_proof, &bad, &secret(2)), FfiError::Psbt(_)));
    let mut psbt = psbt_from_base64(&texts.intent_proof).unwrap();
    psbt.inputs[1].tap_scripts.clear();
    let bare = psbt_to_base64(&psbt);
    assert!(matches!(sign(&bare, &texts.forfeit_psbts, &secret(2)), FfiError::Unsignable));
    psbt.inputs[1].witness_utxo = None;
    let error = sign(&psbt_to_base64(&psbt), &texts.forfeit_psbts, &secret(2));
    assert!(matches!(error, FfiError::Sign(_)));
    assert_eq!(error.message(), "signing intent and forfeits");

    let read = |proof: &str, message: &str, forfeits: &Vec<String>, secret: &str| {
        read_refresh(proof, message, forfeits, secret).err().unwrap()
    };
    let error = read("x", "x", &bad, "x");
    assert!(matches!(error, FfiError::Psbt(_)));
    assert_eq!(error.message(), "invalid PSBT");
    let error = read(&texts.intent_proof, "x", &bad, "x");
    assert!(matches!(error, FfiError::NotIntentMessage));
    assert_eq!(error.message(), "invalid intent message");
    let message = &texts.intent_message;
    assert!(matches!(read(&texts.intent_proof, message, &bad, "x"), FfiError::Psbt(_)));
    assert!(matches!(
        read(&texts.intent_proof, message, &texts.forfeit_psbts, "x"),
        FfiError::HexLength(1)
    ));
}

#[test]
fn the_txid_is_the_same_in_text() {
    let texts = a_spend();
    let psbt = psbt_from_base64(&texts.ark_tx).unwrap();
    let escrow = EscrowVtxo { outpoint: vtxo(0).outpoint, amount: 9_000 };
    let txs = spend::build_refund_tx(
        &contract(),
        &escrow,
        &ArkAddress::decode(&address(21).to_string()).unwrap(),
        SignerSet::SellerArbiter,
        &server_info(330, None),
    )
    .unwrap();
    assert_eq!(compute_txid(&psbt), compute_txid(&txs.ark_tx));
    assert_eq!(psbt, txs.ark_tx);
}
