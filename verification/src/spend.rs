//! Spending an escrow offchain: building the transactions, signing them, and
//! merging the signatures of several parties.

use ark_core::send;
use bitcoin::Psbt;
use vstd::prelude::*;

use crate::address::{address_script, ArkAddress};
use crate::contract::{
    leaf_of_parties, lemma_leaf_of_parties, lemma_leaves_are_short, lemma_signer_set_has_leaf,
    ContractError, EscrowContract, EscrowOptions, SignerSet,
};
use crate::keys::{public_key_of, schnorr_signature, x_only_of, x_only_signature, Keypair};
use crate::offchain::{
    anchor, ark_tx_input, build_offchain_transactions, change_payment, checkpoint_input,
    frame_outputs, is_short, leaf_hash, payable, payment_script, payments, pays,
    SpendInput, SpendInputView,
};
pub use crate::offchain::EscrowTransaction;
use crate::psbt::{
    can_sign_alone, can_sign_with_all, frame_spends, frame_txid, has_witness_utxo, input_leaf_hash,
    merge_inputs, merge_sigs, other_maps, psbt_frame, psbt_inputs, reads_back, script_spend_digest,
    sign_input, witness_utxo, InputView, SigKey,
};
use crate::server::{ServerInfo, ServerTerms};
use crate::tx::OutPoint;
use crate::{
    fee_sum, fee_views, lemma_fee_sum_folds, lemma_offchain_pays_every_fee, plan_release,
    FeeOutput, PlanError, ReleaseMode,
};

verus! {

/// An escrow VTXO that will be spent.
#[derive(Clone, Copy, Debug, PartialEq, Eq)]
pub struct EscrowVtxo {
    /// The outpoint of the VTXO on the virtual transaction graph.
    pub outpoint: OutPoint,
    /// The amount that it holds, in satoshis.
    pub amount: u64,
}

/// Why an escrow could not be spent.
#[derive(Debug)]
pub enum SpendError {
    /// The contract has no such leaf.
    Contract(ContractError),
    /// The escrow cannot be paid out as asked.
    Plan(PlanError),
    /// The release transactions could not be built.
    BuildRelease(ark_core::Error),
    /// The refund transactions could not be built.
    BuildRefund(ark_core::Error),
    /// The ark transaction could not be signed.
    SignArkTx(ark_core::Error),
    /// The checkpoint transaction could not be signed.
    SignCheckpoint(ark_core::Error),
}

impl SpendError {
    /// What the error says, apart from what caused it.
    pub open spec fn says(self) -> Seq<char> {
        match self {
            SpendError::Contract(error) => error.says(),
            SpendError::Plan(error) => error.says(),
            SpendError::BuildRelease(_) => "building release offchain transactions"@,
            SpendError::BuildRefund(_) => "building refund offchain transactions"@,
            SpendError::SignArkTx(_) => "signing ark transaction"@,
            SpendError::SignCheckpoint(_) => "signing checkpoint transaction"@,
        }
    }

    /// The error as a text, apart from what caused it.
    pub fn message(&self) -> (message: String)
        ensures
            message@ == self.says(),
    {
        match self {
            SpendError::Contract(error) => error.message(),
            SpendError::Plan(error) => error.message(),
            SpendError::BuildRelease(_) => "building release offchain transactions".to_owned(),
            SpendError::BuildRefund(_) => "building refund offchain transactions".to_owned(),
            SpendError::SignArkTx(_) => "signing ark transaction".to_owned(),
            SpendError::SignCheckpoint(_) => "signing checkpoint transaction".to_owned(),
        }
    }
}

// -- Building --

/// The input that spends an escrow VTXO through the leaf of a signer set.
pub open spec fn escrow_input(
    options: EscrowOptions,
    vtxo: EscrowVtxo,
    signer_set: SignerSet,
) -> SpendInputView {
    SpendInputView {
        spend_script: signer_set.leaf(options),
        control_block: options.control_blocks()[signer_set.leaf(options)],
        tapscripts: options.leaves(),
        script_pubkey: options.output_script(),
        amount: vtxo.amount,
        outpoint: vtxo.outpoint@,
    }
}

/// The input that spends an escrow VTXO through the leaf of a signer set.
fn spend_input(contract: &EscrowContract, vtxo: &EscrowVtxo, signer_set: SignerSet) -> (input:
    Result<SpendInput, ContractError>)
    ensures
        input matches Ok(i) && i@ == escrow_input(contract.terms(), *vtxo, signer_set),
        contract.terms().output_script().len() == 34,
{
    let spend_script = signer_set.script(contract.options());
    proof {
        lemma_signer_set_has_leaf(signer_set, contract.terms());
    }
    match contract.control_block(spend_script.as_slice()) {
        Ok(control_block) => Ok(
            SpendInput::new(
                spend_script,
                control_block,
                contract.tapscripts(),
                contract.script_pubkey(),
                vtxo.amount,
                vtxo.outpoint,
            ),
        ),
        Err(error) => Err(error),
    }
}

/// The fees that are more than nothing.
pub open spec fn positive_fees(fees: Seq<(Seq<char>, u64)>) -> Seq<(Seq<char>, u64)> {
    fees.filter(|fee: (Seq<char>, u64)| fee.1 > 0)
}

/// Who is paid in a release: the buyer first, then the fees that are more than
/// nothing.
pub open spec fn release_receivers(
    buyer: Seq<char>,
    amount: u64,
    fees: Seq<(Seq<char>, u64)>,
) -> Seq<(Seq<char>, u64)> {
    seq![(buyer, (amount - fee_sum(fees)) as u64)] + positive_fees(fees)
}

/// Two lists of payments come to the sum of what each comes to.
proof fn lemma_fee_sum_splits(a: Seq<(Seq<char>, u64)>, b: Seq<(Seq<char>, u64)>)
    ensures
        fee_sum(a + b) == fee_sum(a) + fee_sum(b),
    decreases b.len(),
{
    if b.len() > 0 {
        assert((a + b).drop_last() =~= a + b.drop_last());
        lemma_fee_sum_splits(a, b.drop_last());
    } else {
        assert(a + b =~= a);
    }
}

/// Leaving out fees of nothing changes no sum.
proof fn lemma_positive_fee_sum(fees: Seq<(Seq<char>, u64)>)
    ensures
        fee_sum(positive_fees(fees)) == fee_sum(fees),
    decreases fees.len(),
{
    reveal(Seq::filter);
    if fees.len() > 0 {
        lemma_positive_fee_sum(fees.drop_last());
        let rest = positive_fees(fees.drop_last());
        if fees.last().1 > 0 {
            assert(rest.push(fees.last()).drop_last() =~= rest);
        }
    }
}

/// A release pays out exactly what the escrow holds: the payments and the anchor
/// are its only outputs, and nothing is left over.
pub proof fn lemma_release_pays_all(
    buyer: Seq<char>,
    amount: u64,
    fees: Seq<(Seq<char>, u64)>,
    dust: nat,
)
    requires
        fee_sum(fees) <= amount,
    ensures
        fee_sum(release_receivers(buyer, amount, fees)) == amount,
        change_payment(
            amount - fee_sum(release_receivers(buyer, amount, fees)),
            buyer,
            dust,
        ) == Seq::<(u64, Seq<u8>)>::empty(),
{
    let first = seq![(buyer, (amount - fee_sum(fees)) as u64)];
    lemma_positive_fee_sum(fees);
    lemma_fee_sum_splits(first, positive_fees(fees));
    assert(first.drop_last() =~= Seq::empty());
    assert(fee_sum(first) == first.last().1) by {
        reveal_with_fuel(fee_sum, 2);
    }
}

/// The payments of a release.
fn release_payments(buyer: &ArkAddress, buyer_amount: u64, fees: &Vec<FeeOutput>) -> (receivers:
    Vec<FeeOutput>)
    ensures
        fee_views(receivers@) == seq![(buyer@, buyer_amount)] + positive_fees(fee_views(fees@)),
{
    let mut receivers: Vec<FeeOutput> = Vec::new();
    receivers.push(FeeOutput { address: buyer.clone(), amount: buyer_amount });
    let ghost all = fee_views(fees@);
    let ghost first = seq![(buyer@, buyer_amount)];
    proof {
        reveal(Seq::filter);
        assert(fee_views(receivers@) =~= first + positive_fees(all.take(0)));
    }
    let mut i: usize = 0;
    while i < fees.len()
        invariant
            i <= fees.len(),
            all == fee_views(fees@),
            fee_views(receivers@) == first + positive_fees(all.take(i as int)),
        decreases fees.len() - i,
    {
        let ghost before = receivers@;
        proof {
            let next = all.take(i + 1);
            assert(next.drop_last() =~= all.take(i as int));
            assert(next.last() == fees@[i as int]@);
            reveal(Seq::filter);
        }
        if fees[i].amount > 0 {
            let fee = fees[i].clone();
            receivers.push(fee);
            assert(fee_views(receivers@) =~= fee_views(before).push(fee@));
            assert(fee_views(receivers@) =~= first + positive_fees(all.take(i + 1)));
        }
        i = i + 1;
    }
    assert(all.take(i as int) =~= all);
    receivers
}

/// Whether the transactions of a spend are short enough to read back from their bytes,
/// with so many receivers.
pub open spec fn spend_is_short(receivers: nat, server: ServerTerms) -> bool {
    receivers <= 10_000 && server.checkpoint_tapscript.len() <= 900_000
}

/// The leaves of an escrow make its spend no longer than what reads back.
proof fn lemma_spend_is_short(
    options: EscrowOptions,
    vtxo: EscrowVtxo,
    signer_set: SignerSet,
    receivers: Seq<(Seq<char>, u64)>,
    server: ServerTerms,
)
    requires
        options.output_script().len() == 34,
        spend_is_short(receivers.len(), server),
    ensures
        is_short(receivers, escrow_input(options, vtxo, signer_set), server),
{
    lemma_leaves_are_short(options, signer_set);
}

/// What the release of a VTXO of a contract comes to: two transactions that pay the
/// buyer and the fees, or the first reason against it.
pub open spec fn release_outcome(
    release: Result<EscrowTransaction, SpendError>,
    options: EscrowOptions,
    vtxo: EscrowVtxo,
    buyer: Seq<char>,
    fees: Seq<(Seq<char>, u64)>,
    signer_set: SignerSet,
    server_info: ServerInfo,
) -> bool {
    let payout = vtxo.amount - fee_sum(fees);
    let input = escrow_input(options, vtxo, signer_set);
    let receivers = release_receivers(buyer, vtxo.amount, fees);
    let terms = server_info.terms();
    match release {
        Ok(txs) => {
            &&& payout >= server_info.dust
            &&& payable(receivers, input, terms)
            &&& txs.checkpoint_txs.len() == 1
            &&& pays(txs.ark_tx, txs.checkpoint_txs@[0], receivers, buyer, input, terms)
            &&& spend_is_short(fees.len() + 1, terms) ==> reads_back(txs.ark_tx) && reads_back(
                txs.checkpoint_txs@[0],
            )
        },
        Err(error) => if payout < 0 {
            error == SpendError::Plan(
                PlanError::FeeExceedsEscrow {
                    total_fee: fee_sum(fees) as u64,
                    total_escrow_amount: vtxo.amount,
                },
            )
        } else if payout < server_info.dust {
            error == SpendError::Plan(
                PlanError::DustExceedsPayout {
                    dust: server_info.dust,
                    buyer_amount: payout as u64,
                },
            )
        } else {
            error is BuildRelease && !payable(receivers, input, terms)
        },
    }
}

/// What the refund of a VTXO of a contract comes to: two transactions that pay the
/// seller all of it, or an error if it is less than the server takes.
pub open spec fn refund_outcome(
    refund: Result<EscrowTransaction, SpendError>,
    options: EscrowOptions,
    vtxo: EscrowVtxo,
    seller: Seq<char>,
    signer_set: SignerSet,
    server_info: ServerInfo,
) -> bool {
    let input = escrow_input(options, vtxo, signer_set);
    let receivers = seq![(seller, vtxo.amount)];
    let terms = server_info.terms();
    match refund {
        Ok(txs) => {
            &&& vtxo.amount >= terms.vtxo_min_amount
            &&& txs.checkpoint_txs.len() == 1
            &&& pays(txs.ark_tx, txs.checkpoint_txs@[0], receivers, seller, input, terms)
            &&& spend_is_short(1, terms) ==> reads_back(txs.ark_tx) && reads_back(
                txs.checkpoint_txs@[0],
            )
        },
        Err(error) => error is BuildRefund && vtxo.amount < terms.vtxo_min_amount,
    }
}

/// Builds the offchain release of an escrow.
///
/// It pays the buyer what is left after the fees, then each fee that is more than
/// nothing. The transactions are unsigned: callers collect the signatures of the
/// signer set before they submit them.
pub fn build_release_tx(
    contract: &EscrowContract,
    escrow_vtxo: &EscrowVtxo,
    buyer_dest: &ArkAddress,
    fee_outputs: &[FeeOutput],
    signer_set: SignerSet,
    server_info: &ServerInfo,
) -> (release: Result<EscrowTransaction, SpendError>)
    requires
        fee_sum(fee_views(fee_outputs@)) <= u64::MAX,
    ensures
        release_outcome(
            release,
            contract.terms(),
            *escrow_vtxo,
            buyer_dest@,
            fee_views(fee_outputs@),
            signer_set,
            *server_info,
        ),
{
    let input = match spend_input(contract, escrow_vtxo, signer_set) {
        Ok(input) => input,
        Err(error) => return Err(SpendError::Contract(error)),
    };
    proof {
        lemma_offchain_pays_every_fee(fee_views(fee_outputs@), server_info.dust);
    }
    let plan = match plan_release(
        escrow_vtxo.amount,
        fee_outputs,
        ReleaseMode::Offchain,
        server_info.dust,
    ) {
        Ok(plan) => plan,
        Err(error) => return Err(SpendError::Plan(error)),
    };
    let receivers = release_payments(buyer_dest, plan.buyer_amount, &plan.effective_fee_outputs);
    proof {
        lemma_release_pays_all(
            buyer_dest@,
            escrow_vtxo.amount,
            fee_views(fee_outputs@),
            server_info.dust as nat,
        );
        let fees = fee_views(fee_outputs@);
        let to = release_receivers(buyer_dest@, escrow_vtxo.amount, fees);
        fees.lemma_filter_len(|fee: (Seq<char>, u64)| fee.1 > 0);
        if spend_is_short(fee_outputs.len() as nat + 1, server_info.terms()) {
            lemma_spend_is_short(
                contract.terms(),
                *escrow_vtxo,
                signer_set,
                to,
                server_info.terms(),
            );
        }
    }
    match build_offchain_transactions(receivers.as_slice(), buyer_dest, &input, server_info) {
        Ok(txs) => Ok(txs),
        Err(error) => Err(SpendError::BuildRelease(error)),
    }
}

/// Builds the offchain refund of an escrow: the seller gets all that it holds.
pub fn build_refund_tx(
    contract: &EscrowContract,
    escrow_vtxo: &EscrowVtxo,
    seller_dest: &ArkAddress,
    signer_set: SignerSet,
    server_info: &ServerInfo,
) -> (refund: Result<EscrowTransaction, SpendError>)
    ensures
        refund_outcome(
            refund,
            contract.terms(),
            *escrow_vtxo,
            seller_dest@,
            signer_set,
            *server_info,
        ),
{
    let input = match spend_input(contract, escrow_vtxo, signer_set) {
        Ok(input) => input,
        Err(error) => return Err(SpendError::Contract(error)),
    };
    let mut receivers: Vec<FeeOutput> = Vec::new();
    receivers.push(FeeOutput { address: seller_dest.clone(), amount: escrow_vtxo.amount });
    proof {
        let to = seq![(seller_dest@, escrow_vtxo.amount)];
        assert(fee_views(receivers@) =~= to);
        assert(to.drop_last() =~= Seq::empty());
        reveal_with_fuel(fee_sum, 2);
        assert(fee_sum(to) == escrow_vtxo.amount);
        assert(to[0].1 == escrow_vtxo.amount);
        if spend_is_short(1, server_info.terms()) {
            lemma_spend_is_short(
                contract.terms(),
                *escrow_vtxo,
                signer_set,
                to,
                server_info.terms(),
            );
        }
    }
    match build_offchain_transactions(receivers.as_slice(), seller_dest, &input, server_info) {
        Ok(txs) => Ok(txs),
        Err(error) => Err(SpendError::BuildRefund(error)),
    }
}

// -- Signing --

/// Calls `ark_core::send::sign_ark_transaction` on one input.
///
/// Claimed of it: it fails exactly if the PSBT does not hold one input for each
/// input of its transaction, and then changes nothing. Otherwise it files, under
/// the key and the leaf of the input, the signature of a digest that is determined
/// by the transaction and the inputs. A PSBT that reads back from its bytes still
/// does.
#[verifier::external_body]
fn sign_ark_transaction(psbt: &mut Psbt, keypair: &Keypair, index: usize) -> (signed: Result<
    (),
    ark_core::Error,
>)
    requires
        can_sign_with_all(psbt_inputs(*old(psbt)), index as int),
    ensures
        signed is Ok <==> psbt_inputs(*old(psbt)).len() == frame_spends(
            psbt_frame(*old(psbt)),
        ).len(),
        psbt_frame(*final(psbt)) == psbt_frame(*old(psbt)),
        psbt_inputs(*final(psbt)) == (if signed is Ok {
            sign_input(
                psbt_inputs(*old(psbt)),
                index as int,
                keypair.x_only_bytes(),
                schnorr_signature(
                    keypair.secret_bytes(),
                    script_spend_digest(
                        psbt_frame(*old(psbt)),
                        other_maps(psbt_inputs(*old(psbt))),
                        index as int,
                    ),
                ),
            )
        } else {
            psbt_inputs(*old(psbt))
        }),
        reads_back(*old(psbt)) ==> reads_back(*final(psbt)),
{
    let sign = |_: &mut bitcoin::psbt::Input, message: bitcoin::secp256k1::Message| {
        let (signature, key) = keypair.sign_digest(*message.as_ref());
        let signature = bitcoin::secp256k1::schnorr::Signature::from_slice(&signature);
        let key = bitcoin::XOnlyPublicKey::from_slice(&key);
        Ok(vec![(signature.expect("a signature"), key.expect("an x-only key"))])
    };
    send::sign_ark_transaction(sign, psbt, index)
}

/// Calls `ark_core::send::sign_checkpoint_transaction`.
///
/// Claimed of it: it fails exactly if the transaction has not one input, and then
/// changes nothing. Otherwise it files, under the key and the leaf of the first
/// input, the signature of a digest that is determined by the transaction and that
/// input. A PSBT that reads back from its bytes still does.
#[verifier::external_body]
fn sign_checkpoint_transaction(psbt: &mut Psbt, keypair: &Keypair) -> (signed: Result<
    (),
    ark_core::Error,
>)
    requires
        can_sign_alone(psbt_inputs(*old(psbt)), 0),
    ensures
        signed is Ok <==> frame_spends(psbt_frame(*old(psbt))).len() == 1,
        psbt_frame(*final(psbt)) == psbt_frame(*old(psbt)),
        psbt_inputs(*final(psbt)) == (if signed is Ok {
            sign_input(
                psbt_inputs(*old(psbt)),
                0,
                keypair.x_only_bytes(),
                schnorr_signature(
                    keypair.secret_bytes(),
                    script_spend_digest(
                        psbt_frame(*old(psbt)),
                        seq![psbt_inputs(*old(psbt))[0].other],
                        0,
                    ),
                ),
            )
        } else {
            psbt_inputs(*old(psbt))
        }),
        reads_back(*old(psbt)) ==> reads_back(*final(psbt)),
{
    let sign = |_: &mut bitcoin::psbt::Input, message: bitcoin::secp256k1::Message| {
        let (signature, key) = keypair.sign_digest(*message.as_ref());
        let signature = bitcoin::secp256k1::schnorr::Signature::from_slice(&signature);
        let key = bitcoin::XOnlyPublicKey::from_slice(&key);
        Ok(vec![(signature.expect("a signature"), key.expect("an x-only key"))])
    };
    send::sign_checkpoint_transaction(sign, psbt)
}

/// Signs the ark transaction for the key pair of one party, on its first input:
/// the escrow VTXO.
pub fn sign_ark_tx(psbt: &mut Psbt, keypair: &Keypair) -> (signed: Result<(), SpendError>)
    requires
        can_sign_with_all(psbt_inputs(*old(psbt)), 0),
    ensures
        match signed {
            Ok(_) => psbt_inputs(*old(psbt)).len() == frame_spends(psbt_frame(*old(psbt))).len(),
            Err(error) => {
                &&& error is SignArkTx
                &&& psbt_inputs(*old(psbt)).len() != frame_spends(psbt_frame(*old(psbt))).len()
            },
        },
        psbt_frame(*final(psbt)) == psbt_frame(*old(psbt)),
        psbt_inputs(*final(psbt)) == (if signed is Ok {
            ark_tx_signed(psbt_frame(*old(psbt)), psbt_inputs(*old(psbt)), keypair.secret_bytes())
        } else {
            psbt_inputs(*old(psbt))
        }),
        reads_back(*old(psbt)) ==> reads_back(*final(psbt)),
{
    match sign_ark_transaction(psbt, keypair, 0) {
        Ok(_) => Ok(()),
        Err(error) => Err(SpendError::SignArkTx(error)),
    }
}

/// The inputs of an ark transaction once a key pair has signed the first.
pub open spec fn ark_tx_signed(
    frame: Seq<u8>,
    inputs: Seq<InputView>,
    secret: Seq<u8>,
) -> Seq<InputView> {
    sign_input(
        inputs,
        0,
        x_only_of(secret),
        schnorr_signature(secret, script_spend_digest(frame, other_maps(inputs), 0)),
    )
}

/// Signs a checkpoint transaction for the key pair of one party.
pub fn sign_checkpoint(psbt: &mut Psbt, keypair: &Keypair) -> (signed: Result<(), SpendError>)
    requires
        can_sign_alone(psbt_inputs(*old(psbt)), 0),
    ensures
        match signed {
            Ok(_) => frame_spends(psbt_frame(*old(psbt))).len() == 1,
            Err(error) => {
                &&& error is SignCheckpoint
                &&& frame_spends(psbt_frame(*old(psbt))).len() != 1
            },
        },
        psbt_frame(*final(psbt)) == psbt_frame(*old(psbt)),
        psbt_inputs(*final(psbt)) == (if signed is Ok {
            checkpoint_signed(psbt_frame(*old(psbt)), psbt_inputs(*old(psbt)), keypair.secret_bytes())
        } else {
            psbt_inputs(*old(psbt))
        }),
        reads_back(*old(psbt)) ==> reads_back(*final(psbt)),
{
    match sign_checkpoint_transaction(psbt, keypair) {
        Ok(_) => Ok(()),
        Err(error) => Err(SpendError::SignCheckpoint(error)),
    }
}

/// The inputs of a checkpoint transaction once a key pair has signed the first.
pub open spec fn checkpoint_signed(
    frame: Seq<u8>,
    inputs: Seq<InputView>,
    secret: Seq<u8>,
) -> Seq<InputView> {
    sign_input(
        inputs,
        0,
        x_only_of(secret),
        schnorr_signature(secret, script_spend_digest(frame, seq![inputs[0].other], 0)),
    )
}

// -- Merging signatures --

/// Merges the tapscript signatures of one PSBT into another.
///
/// `base` carries the signatures of one party, `other` is a copy with those of
/// another; both have the same unsigned transaction. Where both have a signature,
/// `base` keeps its own.
pub fn merge_ark_tx_sigs(base: &mut Psbt, other: &Psbt) -> (merged: Result<(), SpendError>)
    requires
        forall|i: int|
            psbt_inputs(*old(base)).len() <= i < psbt_inputs(*other).len() ==> (
            #[trigger] psbt_inputs(*other)[i]).sigs == Map::<SigKey, Seq<u8>>::empty(),
    ensures
        merged is Ok,
        psbt_frame(*final(base)) == psbt_frame(*old(base)),
        psbt_inputs(*final(base)) == merge_inputs(psbt_inputs(*old(base)), psbt_inputs(*other)),
        reads_back(*old(base)) ==> reads_back(*final(base)),
{
    merge_sigs(base, other);
    Ok(())
}

// -- What signing and merging keep --

/// What was built for a payment can be signed by every party: the ark transaction
/// and the checkpoint both carry what a signature needs.
pub proof fn lemma_built_is_signable(
    ark_tx: Psbt,
    checkpoint: Psbt,
    receivers: Seq<(Seq<char>, u64)>,
    change: Seq<char>,
    input: SpendInputView,
    server: ServerTerms,
)
    requires
        pays(ark_tx, checkpoint, receivers, change, input, server),
    ensures
        can_sign_with_all(psbt_inputs(ark_tx), 0),
        psbt_inputs(ark_tx).len() == frame_spends(psbt_frame(ark_tx)).len(),
        can_sign_alone(psbt_inputs(checkpoint), 0),
        frame_spends(psbt_frame(checkpoint)).len() == 1,
{
    assert(psbt_inputs(ark_tx)[0].other == ark_tx_input(input, server));
    assert(psbt_inputs(checkpoint)[0].other == checkpoint_input(input));
}

/// A signature files nothing away: after signing, an input can still be signed,
/// and for the same digests.
pub proof fn lemma_signing_keeps_signable(
    inputs: Seq<InputView>,
    index: int,
    key: Seq<u8>,
    signature: Seq<u8>,
)
    requires
        0 <= index < inputs.len(),
    ensures
        other_maps(sign_input(inputs, index, key, signature)) == other_maps(inputs),
        forall|i: int|
            can_sign_with_all(inputs, i) ==> #[trigger] can_sign_with_all(
                sign_input(inputs, index, key, signature),
                i,
            ),
        forall|i: int|
            can_sign_alone(inputs, i) ==> #[trigger] can_sign_alone(
                sign_input(inputs, index, key, signature),
                i,
            ),
{
    let signed = sign_input(inputs, index, key, signature);
    assert(other_maps(signed) =~= other_maps(inputs));
    assert forall|i: int| 0 <= i < inputs.len() implies signed[i].other == inputs[i].other by {}
    assert forall|i: int| can_sign_with_all(inputs, i) implies #[trigger] can_sign_with_all(
        signed,
        i,
    ) by {
        assert forall|k: int| 0 <= k < signed.len() implies has_witness_utxo(
            (#[trigger] signed[k]).other,
        ) by {
            assert(has_witness_utxo(inputs[k].other));
        }
    }
}

/// Two parties with the secret keys `first` and `second` may sign copies of an ark
/// transaction independently: merging the copy of a party that had not signed gives
/// what signing one after the other gives.
pub proof fn lemma_merge_is_signing_in_turn(
    frame: Seq<u8>,
    inputs: Seq<InputView>,
    first: Seq<u8>,
    second: Seq<u8>,
)
    requires
        inputs.len() > 0,
        !inputs[0].sigs.dom().contains(
            (x_only_of(second), input_leaf_hash(inputs[0].other)->0),
        ),
    ensures
        merge_inputs(ark_tx_signed(frame, inputs, first), ark_tx_signed(frame, inputs, second))
            == ark_tx_signed(frame, ark_tx_signed(frame, inputs, first), second),
{
    let a = ark_tx_signed(frame, inputs, first);
    let b = ark_tx_signed(frame, inputs, second);
    assert(other_maps(a) =~= other_maps(inputs));
    let merged = merge_inputs(a, b);
    let turn = ark_tx_signed(frame, a, second);
    assert forall|i: int| 0 <= i < inputs.len() implies merged[i] == turn[i] by {
        assert(merged[i].sigs =~= turn[i].sigs);
        assert(merged[i] =~= turn[i]);
    }
    assert(merged =~= turn);
}

/// Merging the same signatures twice changes nothing the second time.
pub proof fn lemma_merge_is_idempotent(inputs: Seq<InputView>, others: Seq<InputView>)
    ensures
        merge_inputs(merge_inputs(inputs, others), others) == merge_inputs(inputs, others),
{
    let once = merge_inputs(inputs, others);
    let twice = merge_inputs(once, others);
    assert forall|i: int| 0 <= i < once.len() implies twice[i] == once[i] by {
        assert(twice[i].sigs =~= once[i].sigs);
        assert(twice[i] =~= once[i]);
    }
    assert(twice =~= once);
}

/// Merging loses no signature: those of the base stay as they are, and every
/// other one is there afterwards.
pub proof fn lemma_merge_keeps_signatures(inputs: Seq<InputView>, others: Seq<InputView>, i: int)
    requires
        0 <= i < inputs.len(),
    ensures
        ({
            let merged = merge_inputs(inputs, others);
            &&& merged.len() == inputs.len()
            &&& merged[i].other == inputs[i].other
            &&& merged[i].witness_script == inputs[i].witness_script
            &&& forall|file: SigKey| #[trigger]
                inputs[i].sigs.dom().contains(file) ==> merged[i].sigs.dom().contains(file)
                    && merged[i].sigs[file] == inputs[i].sigs[file]
            &&& i < others.len() ==> forall|file: SigKey| #[trigger]
                others[i].sigs.dom().contains(file) ==> merged[i].sigs.dom().contains(file)
        }),
{
}

/// Parties whose signatures agree where both have one may be merged in any order.
pub proof fn lemma_merge_order_is_free(
    inputs: Seq<InputView>,
    a: Seq<InputView>,
    b: Seq<InputView>,
)
    requires
        forall|i: int, file: SigKey|
            0 <= i < inputs.len() && i < a.len() && i < b.len() && #[trigger] a[i].sigs.dom().contains(
                file,
            ) && #[trigger] b[i].sigs.dom().contains(file) ==> a[i].sigs[file] == b[i].sigs[file],
    ensures
        merge_inputs(merge_inputs(inputs, a), b) == merge_inputs(merge_inputs(inputs, b), a),
{
    let ab = merge_inputs(merge_inputs(inputs, a), b);
    let ba = merge_inputs(merge_inputs(inputs, b), a);
    assert forall|i: int| 0 <= i < inputs.len() implies ab[i] == ba[i] by {
        assert(ab[i].sigs =~= ba[i].sigs);
        assert(ab[i] =~= ba[i]);
    }
    assert(ab =~= ba);
}

// -- What is paid to whom --

/// Whether some outputs pay the buyer all of an amount but the fees, then each fee of more than
/// nothing, in the order in which they were asked for, of its amount and to its address, and
/// end with the anchor.
pub open spec fn pays_out(
    outputs: Seq<(u64, Seq<u8>)>,
    amount: u64,
    buyer: Seq<char>,
    fees: Seq<(Seq<char>, u64)>,
    dust: u64,
) -> bool {
    let owed = fees.filter(|fee: (Seq<char>, u64)| fee.1 > 0);
    &&& outputs.len() == owed.len() + 2
    &&& outputs[0].0 == amount - fees.fold_left(
        0,
        |sum: int, fee: (Seq<char>, u64)| sum + fee.1,
    )
    &&& outputs[0].1 == address_script(buyer)
    &&& forall|i: int|
        0 <= i < owed.len() ==> {
            let script = address_script((#[trigger] owed[i]).0);
            &&& outputs[i + 1].0 == owed[i].1
            &&& outputs[i + 1].1 == (if owed[i].1 >= dust {
                script
            } else {
                seq![0x6au8] + script.skip(1)
            })
        }
    &&& outputs.last() == (0u64, seq![0x51u8, 0x02, 0x4e, 0x73])
}

/// Whether an amount can be released against some fees: they leave the buyer no less than the
/// dust limit, and neither the buyer's payout nor a fee of more than nothing is below the
/// server's least amount.
pub open spec fn can_pay_out(
    amount: u64,
    fees: Seq<(Seq<char>, u64)>,
    dust: u64,
    vtxo_min_amount: Option<u64>,
) -> bool {
    let payout = amount - fees.fold_left(0, |sum: int, fee: (Seq<char>, u64)| sum + fee.1);
    let least = match vtxo_min_amount {
        Some(least) => least as int,
        None => 1,
    };
    &&& payout >= dust
    &&& payout >= least
    &&& forall|i: int|
        0 <= i < fees.len() && (#[trigger] fees[i]).1 > 0 ==> fees[i].1 >= least
}

/// Whether a release is fair to the buyer and to everyone who is owed a fee: it is built
/// exactly if the amount can be paid out, and pays it out.
pub open spec fn pays_buyer_and_every_fee(
    release: Result<EscrowTransaction, SpendError>,
    amount: u64,
    buyer: Seq<char>,
    fees: Seq<(Seq<char>, u64)>,
    server_info: ServerInfo,
) -> bool {
    let asked = fees.fold_left(0, |sum: int, fee: (Seq<char>, u64)| sum + fee.1);
    let payout = amount - asked;
    &&& release is Ok <==> can_pay_out(
        amount,
        fees,
        server_info.dust,
        server_info.vtxo_min_amount,
    )
    &&& release matches Ok(txs) ==> pays_out(
        frame_outputs(psbt_frame(txs.ark_tx)),
        amount,
        buyer,
        fees,
        server_info.dust,
    )
    &&& payout < 0 ==> release == Err::<EscrowTransaction, SpendError>(
        SpendError::Plan(
            PlanError::FeeExceedsEscrow { total_fee: asked as u64, total_escrow_amount: amount },
        ),
    )
    &&& 0 <= payout < server_info.dust ==> release == Err::<EscrowTransaction, SpendError>(
        SpendError::Plan(
            PlanError::DustExceedsPayout {
                dust: server_info.dust,
                buyer_amount: payout as u64,
            },
        ),
    )
    &&& payout >= server_info.dust && release is Err ==> release->Err_0 is BuildRelease
}

/// Payments can be made exactly if the amount can be paid out.
pub(crate) proof fn lemma_payable_is_paid_out(
    options: EscrowOptions,
    vtxo: EscrowVtxo,
    buyer: Seq<char>,
    fees: Seq<(Seq<char>, u64)>,
    signer_set: SignerSet,
    server_info: ServerInfo,
)
    requires
        vtxo.amount - fee_sum(fees) >= server_info.dust,
    ensures
        payable(
            release_receivers(buyer, vtxo.amount, fees),
            escrow_input(options, vtxo, signer_set),
            server_info.terms(),
        ) <==> can_pay_out(vtxo.amount, fees, server_info.dust, server_info.vtxo_min_amount),
{
    lemma_fee_sum_folds(fees);
    let more = |fee: (Seq<char>, u64)| fee.1 > 0;
    let owed = fees.filter(more);
    let receivers = release_receivers(buyer, vtxo.amount, fees);
    let terms = server_info.terms();
    let least = terms.vtxo_min_amount;
    let input = escrow_input(options, vtxo, signer_set);
    assert(positive_fees(fees) =~= owed);
    assert(receivers[0] == (buyer, (vtxo.amount - fee_sum(fees)) as u64));
    lemma_release_pays_all(buyer, vtxo.amount, fees, server_info.dust as nat);
    if payable(receivers, input, terms) {
        assert(receivers[0].1 >= least);
        assert forall|i: int| 0 <= i < fees.len() && (#[trigger] fees[i]).1 > 0 implies fees[i].1
            >= least by {
            fees.lemma_filter_contains(more, i);
            let k = choose|k: int| 0 <= k < owed.len() && owed[k] == fees[i];
            assert(receivers[k + 1] == owed[k]);
            assert(receivers[k + 1].1 >= least);
        }
    }
    if can_pay_out(vtxo.amount, fees, server_info.dust, server_info.vtxo_min_amount) {
        assert forall|i: int| 0 <= i < receivers.len() implies (#[trigger] receivers[i]).1
            >= least by {
            if i > 0 {
                assert(receivers[i] == owed[i - 1]);
                fees.lemma_filter_pred(more, i - 1);
                fees.lemma_filter_contains_rev(more, owed[i - 1]);
                let k = choose|k: int| 0 <= k < fees.len() && fees[k] == owed[i - 1];
                assert(fees[k].1 > 0);
            }
        }
    }
}

/// The transactions of a release pay out the amount.
pub(crate) proof fn lemma_release_pays_out(
    txs: EscrowTransaction,
    options: EscrowOptions,
    vtxo: EscrowVtxo,
    buyer: Seq<char>,
    fees: Seq<(Seq<char>, u64)>,
    signer_set: SignerSet,
    server_info: ServerInfo,
)
    requires
        vtxo.amount - fee_sum(fees) >= server_info.dust,
        pays(
            txs.ark_tx,
            txs.checkpoint_txs@[0],
            release_receivers(buyer, vtxo.amount, fees),
            buyer,
            escrow_input(options, vtxo, signer_set),
            server_info.terms(),
        ),
    ensures
        pays_out(
            frame_outputs(psbt_frame(txs.ark_tx)),
            vtxo.amount,
            buyer,
            fees,
            server_info.dust,
        ),
{
    lemma_fee_sum_folds(fees);
    lemma_release_pays_all(buyer, vtxo.amount, fees, server_info.dust as nat);
    let owed = fees.filter(|fee: (Seq<char>, u64)| fee.1 > 0);
    let receivers = release_receivers(buyer, vtxo.amount, fees);
    let dust = server_info.dust as nat;
    assert(positive_fees(fees) =~= owed);
    assert(receivers.len() == owed.len() + 1);
    assert(receivers[0] == (buyer, (vtxo.amount - fee_sum(fees)) as u64));
    let outputs = frame_outputs(psbt_frame(txs.ark_tx));
    assert(outputs == payments(receivers, dust) + seq![anchor()]);
    assert forall|i: int| 0 <= i < owed.len() implies {
        let script = address_script((#[trigger] owed[i]).0);
        &&& outputs[i + 1].0 == owed[i].1
        &&& outputs[i + 1].1 == (if owed[i].1 >= server_info.dust {
            script
        } else {
            seq![0x6au8] + script.skip(1)
        })
    } by {
        assert(receivers[i + 1] == owed[i]);
        assert(outputs[i + 1] == payments(receivers, dust)[i + 1]);
    }
    assert(outputs[0] == payments(receivers, dust)[0]);
}

pub(crate) proof fn lemma_release_is_fair(
    release: Result<EscrowTransaction, SpendError>,
    options: EscrowOptions,
    vtxo: EscrowVtxo,
    buyer: Seq<char>,
    fees: Seq<(Seq<char>, u64)>,
    signer_set: SignerSet,
    server_info: ServerInfo,
)
    requires
        release_outcome(release, options, vtxo, buyer, fees, signer_set, server_info),
    ensures
        pays_buyer_and_every_fee(release, vtxo.amount, buyer, fees, server_info),
{
    lemma_fee_sum_folds(fees);
    if vtxo.amount - fee_sum(fees) >= server_info.dust {
        lemma_payable_is_paid_out(options, vtxo, buyer, fees, signer_set, server_info);
    }
    if let Ok(txs) = release {
        lemma_release_pays_out(txs, options, vtxo, buyer, fees, signer_set, server_info);
    }
}

/// A release pays the buyer exactly the escrow amount less the sum of all fees that were asked
/// for, and every fee of more than nothing to its own address, in order.
pub proof fn lemma_release_pays_buyer_and_every_fee(
    contract: &EscrowContract,
    escrow_vtxo: &EscrowVtxo,
    buyer_dest: &ArkAddress,
    fee_outputs: &[FeeOutput],
    signer_set: SignerSet,
    server_info: &ServerInfo,
    release: Result<EscrowTransaction, SpendError>,
)
    requires
        call_ensures(
            build_release_tx,
            (contract, escrow_vtxo, buyer_dest, fee_outputs, signer_set, server_info),
            release,
        ),
    ensures
        pays_buyer_and_every_fee(
            release,
            escrow_vtxo.amount,
            buyer_dest@,
            fee_outputs@.map_values(|fee: FeeOutput| (fee.address@, fee.amount)),
            *server_info,
        ),
{
    assert(fee_outputs@.map_values(|fee: FeeOutput| (fee.address@, fee.amount)) =~= fee_views(
        fee_outputs@,
    ));
    lemma_release_is_fair(
        release,
        contract.terms(),
        *escrow_vtxo,
        buyer_dest@,
        fee_views(fee_outputs@),
        signer_set,
        *server_info,
    );
}

/// Whether a refund gives the seller all that the escrow holds, and nobody else anything. It
/// is built exactly if that is no less than the server's least amount.
pub open spec fn pays_seller_all(
    refund: Result<EscrowTransaction, SpendError>,
    amount: u64,
    seller: Seq<char>,
    server_info: ServerInfo,
) -> bool {
    let least = match server_info.vtxo_min_amount {
        Some(least) => least as int,
        None => 1,
    };
    &&& refund is Ok <==> amount >= least
    &&& refund is Err ==> refund->Err_0 is BuildRefund
    &&& refund matches Ok(txs) ==> pays_back(
        frame_outputs(psbt_frame(txs.ark_tx)),
        amount,
        seller,
        server_info.dust,
    )
}

/// Whether some outputs pay the seller all of an amount, and end with the anchor.
pub open spec fn pays_back(
    outputs: Seq<(u64, Seq<u8>)>,
    amount: u64,
    seller: Seq<char>,
    dust: u64,
) -> bool {
    let script = address_script(seller);
    outputs == seq![
        (
            amount,
            if amount >= dust {
                script
            } else {
                seq![0x6au8] + script.skip(1)
            },
        ),
        (0u64, seq![0x51u8, 0x02, 0x4e, 0x73]),
    ]
}

/// The transactions of a refund pay back the amount.
pub(crate) proof fn lemma_refund_pays_back(
    txs: EscrowTransaction,
    options: EscrowOptions,
    vtxo: EscrowVtxo,
    seller: Seq<char>,
    signer_set: SignerSet,
    server_info: ServerInfo,
)
    requires
        pays(
            txs.ark_tx,
            txs.checkpoint_txs@[0],
            seq![(seller, vtxo.amount)],
            seller,
            escrow_input(options, vtxo, signer_set),
            server_info.terms(),
        ),
    ensures
        pays_back(
            frame_outputs(psbt_frame(txs.ark_tx)),
            vtxo.amount,
            seller,
            server_info.dust,
        ),
{
    let to = seq![(seller, vtxo.amount)];
    assert(to.drop_last() =~= Seq::empty());
    reveal_with_fuel(fee_sum, 2);
    assert(fee_sum(to) == vtxo.amount);
    let outputs = frame_outputs(psbt_frame(txs.ark_tx));
    assert(outputs =~= payments(to, server_info.dust as nat) + seq![anchor()]);
    assert(outputs =~= seq![
        (vtxo.amount, payment_script(seller, vtxo.amount as nat, server_info.dust as nat)),
        anchor(),
    ]);
}

pub(crate) proof fn lemma_refund_is_fair(
    refund: Result<EscrowTransaction, SpendError>,
    options: EscrowOptions,
    vtxo: EscrowVtxo,
    seller: Seq<char>,
    signer_set: SignerSet,
    server_info: ServerInfo,
)
    requires
        refund_outcome(refund, options, vtxo, seller, signer_set, server_info),
    ensures
        pays_seller_all(refund, vtxo.amount, seller, server_info),
{
    if let Ok(txs) = refund {
        lemma_refund_pays_back(txs, options, vtxo, seller, signer_set, server_info);
    }
}

/// A refund pays the seller all that the escrow holds.
pub proof fn lemma_refund_pays_seller_all(
    contract: &EscrowContract,
    escrow_vtxo: &EscrowVtxo,
    seller_dest: &ArkAddress,
    signer_set: SignerSet,
    server_info: &ServerInfo,
    refund: Result<EscrowTransaction, SpendError>,
)
    requires
        call_ensures(
            build_refund_tx,
            (contract, escrow_vtxo, seller_dest, signer_set, server_info),
            refund,
        ),
    ensures
        pays_seller_all(refund, escrow_vtxo.amount, seller_dest@, *server_info),
{
    lemma_refund_is_fair(
        refund,
        contract.terms(),
        *escrow_vtxo,
        seller_dest@,
        signer_set,
        *server_info,
    );
}

/// Whether transactions spend an escrow VTXO through a leaf of its contract: a checkpoint
/// that spends the VTXO itself and holds its amount, and an ark transaction that spends the
/// checkpoint. Both are unsigned, and both wait for signatures for that leaf.
pub open spec fn spends_through(
    txs: EscrowTransaction,
    options: EscrowOptions,
    outpoint: (Seq<u8>, u32),
    amount: u64,
    leaf: Seq<u8>,
) -> bool {
    let checkpoint = txs.checkpoint_txs@[0];
    &&& txs.checkpoint_txs@.len() == 1
    &&& frame_spends(psbt_frame(checkpoint)) == seq![outpoint]
    &&& frame_outputs(psbt_frame(checkpoint)).len() == 2
    &&& frame_outputs(psbt_frame(checkpoint))[0].0 == amount
    &&& frame_outputs(psbt_frame(checkpoint))[1] == (0u64, seq![0x51u8, 0x02, 0x4e, 0x73])
    &&& frame_spends(psbt_frame(txs.ark_tx)) == seq![(frame_txid(psbt_frame(checkpoint)), 0u32)]
    &&& psbt_inputs(checkpoint).len() == 1
    &&& psbt_inputs(checkpoint)[0].sigs.dom() == Set::<SigKey>::empty()
    &&& psbt_inputs(checkpoint)[0].witness_script == Some(leaf)
    &&& input_leaf_hash(psbt_inputs(checkpoint)[0].other) == Some(leaf_hash(leaf))
    &&& witness_utxo(psbt_inputs(checkpoint)[0].other) == Some((amount, options.output_script()))
    &&& psbt_inputs(txs.ark_tx).len() == 1
    &&& psbt_inputs(txs.ark_tx)[0].sigs.dom() == Set::<SigKey>::empty()
    &&& psbt_inputs(txs.ark_tx)[0].witness_script == Some(leaf)
    &&& input_leaf_hash(psbt_inputs(txs.ark_tx)[0].other) == Some(leaf_hash(leaf))
    &&& witness_utxo(psbt_inputs(txs.ark_tx)[0].other) == Some(
        frame_outputs(psbt_frame(checkpoint))[0],
    )
}

pub(crate) proof fn lemma_payment_spends_the_escrow(
    txs: EscrowTransaction,
    receivers: Seq<(Seq<char>, u64)>,
    change: Seq<char>,
    options: EscrowOptions,
    vtxo: EscrowVtxo,
    signer_set: SignerSet,
    server: ServerTerms,
)
    requires
        txs.checkpoint_txs@.len() == 1,
        pays(
            txs.ark_tx,
            txs.checkpoint_txs@[0],
            receivers,
            change,
            escrow_input(options, vtxo, signer_set),
            server,
        ),
    ensures
        spends_through(
            txs,
            options,
            (vtxo.outpoint.txid@, vtxo.outpoint.vout),
            vtxo.amount,
            leaf_of_parties(signer_set, options),
        ),
{
    lemma_leaf_of_parties(signer_set, options);
    let input = escrow_input(options, vtxo, signer_set);
    assert(psbt_inputs(txs.ark_tx)[0].other == ark_tx_input(input, server));
    assert(psbt_inputs(txs.checkpoint_txs@[0])[0].other == checkpoint_input(input));
}

/// A release spends exactly the escrow VTXO that it was built for, through the leaf of the
/// two parties of the signer set and the server.
pub proof fn lemma_release_spends_the_escrow(
    contract: &EscrowContract,
    escrow_vtxo: &EscrowVtxo,
    buyer_dest: &ArkAddress,
    fee_outputs: &[FeeOutput],
    signer_set: SignerSet,
    server_info: &ServerInfo,
    txs: EscrowTransaction,
)
    requires
        call_ensures(
            build_release_tx,
            (contract, escrow_vtxo, buyer_dest, fee_outputs, signer_set, server_info),
            Ok::<EscrowTransaction, SpendError>(txs),
        ),
    ensures
        spends_through(
            txs,
            contract.terms(),
            (escrow_vtxo.outpoint.txid@, escrow_vtxo.outpoint.vout),
            escrow_vtxo.amount,
            leaf_of_parties(signer_set, contract.terms()),
        ),
{
    lemma_payment_spends_the_escrow(
        txs,
        release_receivers(buyer_dest@, escrow_vtxo.amount, fee_views(fee_outputs@)),
        buyer_dest@,
        contract.terms(),
        *escrow_vtxo,
        signer_set,
        server_info.terms(),
    );
}

/// A refund spends exactly the escrow VTXO that it was built for, through the leaf of the
/// two parties of the signer set and the server.
pub proof fn lemma_refund_spends_the_escrow(
    contract: &EscrowContract,
    escrow_vtxo: &EscrowVtxo,
    seller_dest: &ArkAddress,
    signer_set: SignerSet,
    server_info: &ServerInfo,
    txs: EscrowTransaction,
)
    requires
        call_ensures(
            build_refund_tx,
            (contract, escrow_vtxo, seller_dest, signer_set, server_info),
            Ok::<EscrowTransaction, SpendError>(txs),
        ),
    ensures
        spends_through(
            txs,
            contract.terms(),
            (escrow_vtxo.outpoint.txid@, escrow_vtxo.outpoint.vout),
            escrow_vtxo.amount,
            leaf_of_parties(signer_set, contract.terms()),
        ),
{
    lemma_payment_spends_the_escrow(
        txs,
        seq![(seller_dest@, escrow_vtxo.amount)],
        seller_dest@,
        contract.terms(),
        *escrow_vtxo,
        signer_set,
        server_info.terms(),
    );
}

/// Signing an ark transaction files one signature and changes nothing else: that of the key
/// pair for the first input, on the digest of the transaction with all outputs that it
/// spends, under the key and the leaf of the input. It succeeds exactly if the transaction
/// spends as many outputs as the PSBT has inputs, and otherwise changes nothing.
pub proof fn lemma_signing_ark_tx_files_one_signature(
    psbt: &mut Psbt,
    keypair: &Keypair,
    signed: Result<(), SpendError>,
)
    requires
        psbt_inputs(*old(psbt)).len() > 0,
        call_ensures(sign_ark_tx, (psbt, keypair), signed),
    ensures
        signed is Ok <==> frame_spends(psbt_frame(*old(psbt))).len() == psbt_inputs(
            *old(psbt),
        ).len(),
        psbt_frame(*final(psbt)) == psbt_frame(*old(psbt)),
        signed is Err ==> psbt_inputs(*final(psbt)) == psbt_inputs(*old(psbt)),
        ({
            let was = psbt_inputs(*old(psbt));
            let now = psbt_inputs(*final(psbt));
            let file = (
                public_key_of(keypair.secret_bytes()).subrange(1, 33),
                input_leaf_hash(was[0].other)->0,
            );
            let digest = script_spend_digest(
                psbt_frame(*old(psbt)),
                was.map_values(|input: InputView| input.other),
                0,
            );
            &&& now.len() == was.len()
            &&& forall|i: int| 0 < i < was.len() ==> #[trigger] now[i] == was[i]
            &&& now[0].other == was[0].other
            &&& now[0].witness_script == was[0].witness_script
            &&& signed is Ok ==> now[0].sigs == was[0].sigs.insert(
                file,
                x_only_signature(public_key_of(keypair.secret_bytes()).subrange(1, 33), digest),
            )
        }),
{
}

/// Signing a checkpoint files one signature and changes nothing else: that of the key pair for
/// its only input. It succeeds exactly if there is one, and otherwise changes nothing.
pub proof fn lemma_signing_checkpoint_files_one_signature(
    psbt: &mut Psbt,
    keypair: &Keypair,
    signed: Result<(), SpendError>,
)
    requires
        psbt_inputs(*old(psbt)).len() > 0,
        call_ensures(sign_checkpoint, (psbt, keypair), signed),
    ensures
        signed is Ok <==> frame_spends(psbt_frame(*old(psbt))).len() == 1,
        psbt_frame(*final(psbt)) == psbt_frame(*old(psbt)),
        signed is Err ==> psbt_inputs(*final(psbt)) == psbt_inputs(*old(psbt)),
        ({
            let was = psbt_inputs(*old(psbt));
            let now = psbt_inputs(*final(psbt));
            let file = (
                public_key_of(keypair.secret_bytes()).subrange(1, 33),
                input_leaf_hash(was[0].other)->0,
            );
            let digest = script_spend_digest(psbt_frame(*old(psbt)), seq![was[0].other], 0);
            &&& now.len() == was.len()
            &&& forall|i: int| 0 < i < was.len() ==> #[trigger] now[i] == was[i]
            &&& now[0].other == was[0].other
            &&& now[0].witness_script == was[0].witness_script
            &&& signed is Ok ==> now[0].sigs == was[0].sigs.insert(
                file,
                x_only_signature(public_key_of(keypair.secret_bytes()).subrange(1, 33), digest),
            )
        }),
{
}

/// Merging two copies of an ark transaction loses no signature and makes none up: each input
/// has a signature wherever one of the copies has one, that of `base` where both have one.
/// Nothing else of `base` changes.
pub proof fn lemma_merging_unites_signatures(
    base: &mut Psbt,
    other: &Psbt,
    merged: Result<(), SpendError>,
)
    requires
        call_ensures(merge_ark_tx_sigs, (base, other), merged),
    ensures
        merged is Ok,
        ({
            let was = psbt_inputs(*old(base));
            let now = psbt_inputs(*final(base));
            let more = psbt_inputs(*other);
            &&& psbt_frame(*final(base)) == psbt_frame(*old(base))
            &&& now.len() == was.len()
            &&& forall|i: int|
                0 <= i < was.len() ==> {
                    &&& (#[trigger] now[i]).other == was[i].other
                    &&& now[i].witness_script == was[i].witness_script
                }
            &&& forall|i: int, file: SigKey|
                0 <= i < was.len() ==> (#[trigger] now[i].sigs.dom().contains(file) <==> {
                    ||| was[i].sigs.dom().contains(file)
                    ||| i < more.len() && more[i].sigs.dom().contains(file)
                })
            &&& forall|i: int, file: SigKey|
                0 <= i < was.len() && #[trigger] now[i].sigs.dom().contains(file)
                    ==> now[i].sigs[file] == (if was[i].sigs.dom().contains(file) {
                    was[i].sigs[file]
                } else {
                    more[i].sigs[file]
                })
        }),
{
}

} // verus!
