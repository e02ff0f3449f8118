use std::collections::HashMap;

use ark_core::server;
use ark_escrow::address::Network;
use ark_escrow::contract::{EscrowContract, EscrowOptions, SignerSet};
use ark_escrow::keys::{Keypair, PublicKey};
use ark_escrow::lookup::{
    build_refund_for_outpoint, build_release_for_outpoint, candidate_contracts, find_holder,
    prepare_resolved_refresh, resolve, resolve_inputs, sort_vtxos, ListedVtxo, LookupError,
    ResolveError,
};
use ark_escrow::refresh::{RefreshError, RefreshVtxo};
use ark_escrow::server::{OnchainAddress, ServerInfo};
use ark_escrow::spend::{EscrowVtxo, SpendError};
use ark_escrow::tx::{OutPoint, Txid};
use ark_escrow::{FeeOutput, PlanError};
use bitcoin::secp256k1::{self, Secp256k1};
use bitcoin::{Amount, ScriptBuf};

const SELLER: u8 = 1;
const BUYER: u8 = 2;
const ARBITER: u8 = 3;
const SERVER: u8 = 4;

fn keypair(n: u8) -> Keypair {
    Keypair::from_secret([n; 32]).unwrap()
}

fn outside_pk(n: u8) -> secp256k1::PublicKey {
    secp256k1::PublicKey::from_slice(&keypair(n).public_key().serialize()).unwrap()
}

fn x_only(n: u8) -> bitcoin::XOnlyPublicKey {
    outside_pk(n).x_only_public_key().0
}

fn checkpoint_script() -> ScriptBuf {
    ScriptBuf::builder()
        .push_int(10)
        .push_opcode(bitcoin::opcodes::all::OP_CSV)
        .push_opcode(bitcoin::opcodes::all::OP_DROP)
        .push_x_only_key(&x_only(SERVER))
        .push_opcode(bitcoin::opcodes::all::OP_CHECKSIG)
        .into_script()
}

fn forfeit_address() -> bitcoin::Address {
    let secp = Secp256k1::new();
    bitcoin::Address::p2tr(&secp, x_only(6), None, bitcoin::Network::Regtest)
}

fn raw_info(dust: u64, vtxo_min_amount: Option<u64>) -> server::Info {
    server::Info {
        version: String::new(),
        signer_pk: outside_pk(SERVER),
        forfeit_pk: outside_pk(6),
        forfeit_address: forfeit_address(),
        checkpoint_tapscript: checkpoint_script(),
        network: bitcoin::Network::Regtest,
        session_duration: 10,
        unilateral_exit_delay: bitcoin::Sequence::from_height(144),
        boarding_exit_delay: bitcoin::Sequence::from_height(1008),
        utxo_min_amount: None,
        utxo_max_amount: None,
        vtxo_min_amount: vtxo_min_amount.map(Amount::from_sat),
        vtxo_max_amount: None,
        dust: Amount::from_sat(dust),
        fees: None,
        scheduled_session: None,
        deprecated_signers: Vec::new(),
        service_status: HashMap::new(),
        digest: String::new(),
        max_tx_weight: 40_000,
        max_op_return_outputs: 3,
    }
}

fn server_info(dust: u64, vtxo_min_amount: Option<u64>) -> ServerInfo {
    ServerInfo {
        signer_pk: keypair(SERVER).public_key(),
        forfeit_pk: keypair(6).public_key(),
        forfeit_address: OnchainAddress::parse(&forfeit_address().to_string()).unwrap(),
        checkpoint_tapscript: checkpoint_script().into_bytes(),
        network: Network::Regtest,
        unilateral_exit_delay: 144,
        vtxo_min_amount,
        dust,
        deprecated_signers: Vec::<PublicKey>::new(),
        raw: raw_info(dust, vtxo_min_amount),
    }
}

fn contract() -> EscrowContract {
    let options = EscrowOptions {
        seller: keypair(SELLER).x_only_public_key(),
        buyer: keypair(BUYER).x_only_public_key(),
        arbiter: keypair(ARBITER).x_only_public_key(),
        server: keypair(SERVER).x_only_public_key(),
        unilateral_exit_delay: 144,
    };
    EscrowContract::new(options, Network::Regtest).unwrap()
}

fn outpoint(n: u8) -> OutPoint {
    OutPoint { txid: Txid { bytes: [n; 32] }, vout: n as u32 }
}

fn listed(n: u8, amount: u64) -> ListedVtxo {
    ListedVtxo {
        outpoint: outpoint(n),
        amount,
        expires_at: i64::MAX,
        script: contract().script_pubkey(),
        is_preconfirmed: false,
        is_swept: false,
        is_unrolled: false,
        is_spent: false,
    }
}

fn numbers(vtxos: &[ListedVtxo]) -> Vec<u32> {
    vtxos.iter().map(|vtxo| vtxo.outpoint.vout).collect()
}

fn many() -> Vec<ListedVtxo> {
    vec![
        listed(1, 1_000),
        ListedVtxo { is_preconfirmed: true, ..listed(2, 2_000) },
        ListedVtxo { is_spent: true, ..listed(3, 3_000) },
        ListedVtxo { is_swept: true, ..listed(4, 4_000) },
        ListedVtxo { is_unrolled: true, ..listed(5, 5_000) },
        listed(6, 329),
        ListedVtxo { expires_at: 0, ..listed(7, 7_000) },
        ListedVtxo { is_preconfirmed: true, ..listed(8, 8_000) },
        listed(9, 330),
        ListedVtxo { expires_at: -1, ..listed(10, 10_000) },
    ]
}

#[test]
fn vtxos_are_sorted_by_what_can_be_done_with_them() {
    let sorted = sort_vtxos(330, &many());
    assert_eq!(numbers(&sorted.spendable), vec![2, 8, 1, 9]);
    assert_eq!(numbers(&sorted.recoverable), vec![4, 6, 7, 10]);
    assert_eq!(sorted.spendable[0], many()[1]);
    assert_eq!(sorted.recoverable[0], many()[3]);
}

#[test]
fn the_first_spendable_vtxo_is_found() {
    let sorted = sort_vtxos(330, &many());
    assert_eq!(
        sorted.first_spendable(),
        Some(EscrowVtxo { outpoint: outpoint(2), amount: 2_000 })
    );
    assert_eq!(sort_vtxos(330, &Vec::new()).first_spendable(), None);
    assert_eq!(sort_vtxos(u64::MAX, &many()).first_spendable(), None);
}

#[test]
fn all_spendable_vtxos_are_found() {
    let found = sort_vtxos(330, &many()).all_spendable();
    let amounts: Vec<u64> = found.iter().map(|vtxo| vtxo.amount).collect();
    assert_eq!(amounts, vec![2_000, 8_000, 1_000, 330]);
}

#[test]
fn a_spendable_vtxo_is_found_by_its_outpoint() {
    let sorted = sort_vtxos(330, &many());
    assert_eq!(sorted.spendable_at(&outpoint(9)).unwrap().amount, 330);
    assert!(sorted.spendable_at(&outpoint(4)).is_none());
}

#[test]
fn unspent_vtxos_are_found_for_a_refresh() {
    let (vtxos, any_recoverable) = sort_vtxos(330, &many()).refresh_vtxos();
    let found: Vec<_> = vtxos.iter().map(|v| (v.outpoint.vout, v.is_swept)).collect();
    assert_eq!(
        found,
        vec![
            (2, false),
            (8, false),
            (1, false),
            (9, false),
            (4, true),
            (6, false),
            (7, false),
            (10, false)
        ]
    );
    assert!(any_recoverable);
    assert!(!sort_vtxos(330, &vec![listed(1, 1_000)]).refresh_vtxos().1);
}

#[test]
fn contracts_under_all_server_keys_are_candidates() {
    let mut info = server_info(330, None);
    assert_eq!(candidate_contracts(&contract(), &info).len(), 1);

    info.signer_pk = keypair(50).public_key();
    info.deprecated_signers =
        [SERVER, 51, BUYER, 52].iter().map(|n| keypair(*n).public_key()).collect();
    let candidates = candidate_contracts(&contract(), &info);
    let servers: Vec<_> = candidates.iter().map(|c| c.options().server).collect();
    let expected: Vec<_> =
        [SERVER, 50, 51, 52].iter().map(|n| keypair(*n).x_only_public_key()).collect();
    assert_eq!(servers, expected);
    assert!(candidates.iter().all(|c| c.network() == Network::Regtest));
}

fn under(n: u8) -> EscrowContract {
    contract().with_server(keypair(n).x_only_public_key()).unwrap()
}

#[test]
fn the_contract_that_holds_a_vtxo_is_found() {
    let contracts = vec![contract(), under(50)];
    let found = find_holder(&contracts, &under(50).script_pubkey()).unwrap();
    assert_eq!(found.options().server, keypair(50).x_only_public_key());
    assert!(find_holder(&contracts, &under(51).script_pubkey()).is_none());

    let elsewhere = vec![
        ListedVtxo { script: under(50).script_pubkey(), ..listed(1, 1_000) },
        ListedVtxo { script: vec![0x51], ..listed(2, 1_000) },
    ];
    let found = resolve(&outpoint(1), &elsewhere, &contracts).ok().unwrap();
    assert_eq!(found.options().server, keypair(50).x_only_public_key());
    let error = resolve(&outpoint(2), &elsewhere, &contracts).err().unwrap();
    assert_eq!(error, LookupError::NoContract(outpoint(2)));
    assert_eq!(
        error.message(),
        format!("VTXO is held by none of the contracts: {}", outpoint(2).to_string())
    );
    let error = resolve(&outpoint(3), &elsewhere, &contracts).err().unwrap();
    assert_eq!(error, LookupError::UnknownVtxo(outpoint(3)));
    assert_eq!(error.message(), format!("VTXO not found: {}", outpoint(3).to_string()));
}

fn recoverable(n: u8, amount: u64) -> RefreshVtxo {
    RefreshVtxo { outpoint: outpoint(n), amount, is_swept: false }
}

#[test]
fn every_vtxo_is_resolved() {
    let contracts = vec![contract(), under(50)];
    let listed = vec![
        ListedVtxo { script: under(50).script_pubkey(), ..listed(1, 1_000) },
        listed(2, 1_000),
    ];
    let vtxos = [recoverable(2, 1_000), recoverable(1, 1_000)];
    let inputs = resolve_inputs(&vtxos, &listed, &contracts).ok().unwrap();
    assert_eq!(inputs[0].contract.options(), contract().options());
    assert_eq!(inputs[1].contract.options(), under(50).options());
    assert_eq!(inputs[1].vtxo, &vtxos[1]);
    let vtxos = [recoverable(2, 1_000), recoverable(9, 1), recoverable(8, 1)];
    assert_eq!(
        resolve_inputs(&vtxos, &listed, &contracts).err(),
        Some(LookupError::UnknownVtxo(outpoint(9)))
    );
}

#[test]
fn vtxos_under_former_keys_are_refreshed_to_the_active_one() {
    let mut info = server_info(330, None);
    info.signer_pk = keypair(50).public_key();
    info.deprecated_signers = vec![keypair(SERVER).public_key()];
    let current = under(50);
    let listed = vec![
        listed(1, 10_000),
        ListedVtxo { script: current.script_pubkey(), ..listed(2, 20_000) },
    ];
    let refresh = prepare_resolved_refresh(
        &current,
        &[recoverable(1, 10_000), recoverable(2, 20_000)],
        &listed,
        SignerSet::BuyerArbiter,
        &keypair(40).public_key(),
        &info,
    )
    .ok()
    .unwrap();
    let proof = &refresh.intent.proof;
    let spent: Vec<Vec<u8>> = proof.inputs[1..]
        .iter()
        .map(|input| input.witness_utxo.as_ref().unwrap().script_pubkey.to_bytes())
        .collect();
    assert_eq!(spent, vec![contract().script_pubkey(), current.script_pubkey()]);
    assert_eq!(proof.unsigned_tx.output[0].value.to_sat(), 30_000);
    assert_eq!(proof.unsigned_tx.output[0].script_pubkey.to_bytes(), current.script_pubkey());
    assert_eq!(refresh.forfeit_psbts.len(), 2);
}

#[test]
fn a_refresh_fails_as_its_lookup_does() {
    let prepare = |contract: &EscrowContract, vtxos: &[RefreshVtxo], info: &ServerInfo| {
        prepare_resolved_refresh(
            contract,
            vtxos,
            &vec![listed(1, 10_000)],
            SignerSet::BuyerArbiter,
            &keypair(40).public_key(),
            info,
        )
        .err()
        .unwrap()
    };
    let mut info = server_info(330, None);
    assert!(matches!(
        prepare(&contract(), &[recoverable(2, 1)], &info),
        ResolveError::Lookup(LookupError::UnknownVtxo(o)) if o == outpoint(2)
    ));
    assert!(matches!(
        prepare(&contract(), &[], &info),
        ResolveError::Refresh(RefreshError::Prepare(_))
    ));
    info.signer_pk = keypair(BUYER).public_key();
    assert!(matches!(
        prepare(&contract(), &[recoverable(1, 10_000)], &info),
        ResolveError::Refresh(RefreshError::Contract(_))
    ));
}

#[test]
fn vtxos_under_former_keys_are_spent_by_their_outpoint() {
    let mut info = server_info(330, None);
    info.signer_pk = keypair(50).public_key();
    info.deprecated_signers = vec![keypair(SERVER).public_key()];
    let current = under(50);
    let sorted = sort_vtxos(330, &vec![listed(1, 10_000), listed(2, 20_000)]);
    let buyer = under(60).address();
    let fee = FeeOutput { address: under(61).address(), amount: 500 };

    let release = build_release_for_outpoint(
        &current,
        &sorted,
        &outpoint(2),
        &buyer,
        &[fee],
        SignerSet::BuyerArbiter,
        &info,
    )
    .unwrap()
    .unwrap();
    let outputs = &release.ark_tx.unsigned_tx.output;
    assert_eq!(outputs[0].value.to_sat(), 19_500);
    assert_eq!(outputs[0].script_pubkey.to_bytes(), buyer.to_p2tr_script_pubkey());
    assert_eq!(outputs[1].value.to_sat(), 500);
    let checkpoint = &release.checkpoint_txs[0];
    let spent = checkpoint.inputs[0].witness_utxo.as_ref().unwrap();
    assert_eq!(spent.value.to_sat(), 20_000);
    assert_eq!(spent.script_pubkey.to_bytes(), contract().script_pubkey());
    assert_eq!(checkpoint.unsigned_tx.input[0].previous_output.vout, 2);

    let refund = build_refund_for_outpoint(
        &current,
        &sorted,
        &outpoint(1),
        &buyer,
        SignerSet::SellerArbiter,
        &info,
    )
    .unwrap()
    .unwrap();
    assert_eq!(refund.ark_tx.unsigned_tx.output[0].value.to_sat(), 10_000);
    let spent = refund.checkpoint_txs[0].inputs[0].witness_utxo.as_ref().unwrap();
    assert_eq!(spent.script_pubkey.to_bytes(), contract().script_pubkey());
}

#[test]
fn an_outpoint_is_spent_only_if_it_is_spendable_and_held() {
    let info = server_info(330, Some(1_000));
    let buyer = under(60).address();
    let foreign = ListedVtxo { script: under(60).script_pubkey(), ..listed(3, 3_000) };
    let sorted = sort_vtxos(
        330,
        &vec![listed(1, 400), ListedVtxo { is_swept: true, ..listed(2, 2_000) }, foreign],
    );
    let refund = |n: u8| {
        build_refund_for_outpoint(
            &contract(),
            &sorted,
            &outpoint(n),
            &buyer,
            SignerSet::SellerBuyer,
            &info,
        )
    };
    assert!(matches!(refund(1), Ok(Err(SpendError::BuildRefund(_)))));
    assert!(matches!(refund(2), Err(LookupError::UnknownVtxo(o)) if o == outpoint(2)));
    assert!(matches!(refund(3), Err(LookupError::NoContract(o)) if o == outpoint(3)));

    let release = |n: u8| {
        let fee = FeeOutput { address: under(61).address(), amount: 500 };
        build_release_for_outpoint(
            &contract(),
            &sorted,
            &outpoint(n),
            &buyer,
            &[fee],
            SignerSet::SellerBuyer,
            &info,
        )
    };
    assert!(matches!(
        release(1),
        Ok(Err(SpendError::Plan(PlanError::FeeExceedsEscrow {
            total_fee: 500,
            total_escrow_amount: 400,
        })))
    ));
    assert!(matches!(release(4), Err(LookupError::UnknownVtxo(o)) if o == outpoint(4)));
}
