//! Releasing recoverable escrow VTXOs directly in a batch.
//!
//! A direct release cannot pay fees below the server's dust limit. It is kept for
//! escrows that were set up for it: others are refreshed, see [`crate::refresh`],
//! and then spent offchain as usual.
//!
//! 1. The arbiter prepares an intent and forfeits.
//! 2. The parties of the signer set sign them.
//! 3. The delegate cosigner settles them in a batch.

use vstd::prelude::*;

use crate::address::{address_script, ArkAddress};
use crate::contract::{
    leaf_of_parties, lemma_leaf_of_parties, ContractError, EscrowContract, SignerSet,
};
use crate::intent::{
    all_read_back, can_all_be_signed, can_sign_delegate, input_views, is_complete, is_forfeited,
    is_short_settlement, is_signable_delegate, lemma_settling_is_settling_vtxos,
    lemma_signed_is_signed, names_all_leaves, output_views, prepare_delegate_psbts, refuses,
    same_but_sigs, settles, settles_vtxos, sign_delegate_psbts, signs, signs_everything,
    IntentInput, IntentInputView, IntentOutput,
};
pub use crate::intent::Delegate;
use crate::keys::{public_key_of, Keypair, PublicKey};
use crate::offchain::SpendInputView;
use crate::psbt::{psbt_view, psbt_views};
use crate::refresh::{
    build_intent_input, forfeits_fit, lemma_vtxo_sum_grows, settled_input, vtxo_sum, RefreshVtxo,
};
use crate::server::{onchain_script, ServerInfo};
use crate::tx::OutPoint;
use crate::{
    fee_sum, fee_views, lemma_fee_sum_is_a_sum, lemma_filter_of_map, paid_fees, plan_release,
    FeeOutput, PlanError, ReleaseMode,
};

verus! {

/// An escrow VTXO that is to be settled by a delegate.
///
/// Besides the outpoint and the amount it says whether the VTXO has been swept:
/// swept VTXOs are not forfeited.
#[derive(Clone, Copy, Debug, PartialEq, Eq)]
pub struct DelegateVtxo {
    pub outpoint: OutPoint,
    /// In satoshis.
    pub amount: u64,
    pub is_swept: bool,
}

impl DelegateVtxo {
    /// The same VTXO, as one that is refreshed.
    pub open spec fn as_refresh(self) -> RefreshVtxo {
        RefreshVtxo { outpoint: self.outpoint, amount: self.amount, is_swept: self.is_swept }
    }
}

/// VTXOs, as such that are refreshed.
pub open spec fn refresh_vtxos(vtxos: Seq<DelegateVtxo>) -> Seq<RefreshVtxo> {
    vtxos.map_values(|vtxo: DelegateVtxo| vtxo.as_refresh())
}

/// Why a direct release could not be prepared or signed.
#[derive(Debug)]
pub enum DelegateError {
    /// The contract has no such leaf.
    Contract(ContractError),
    /// The escrow cannot be paid out as asked.
    Plan(PlanError),
    /// The transactions could not be prepared.
    Prepare(ark_core::Error),
    /// The transactions could not be signed.
    Sign(ark_core::Error),
}

impl DelegateError {
    /// What the error says, apart from what caused it.
    pub open spec fn says(self) -> Seq<char> {
        match self {
            DelegateError::Contract(error) => error.says(),
            DelegateError::Plan(error) => error.says(),
            DelegateError::Prepare(_) => "preparing delegate PSBTs"@,
            DelegateError::Sign(_) => "signing delegate PSBTs"@,
        }
    }

    /// The error as a text, apart from what caused it.
    pub fn message(&self) -> (message: String)
        ensures
            message@ == self.says(),
    {
        match self {
            DelegateError::Contract(error) => error.message(),
            DelegateError::Plan(error) => error.message(),
            DelegateError::Prepare(_) => "preparing delegate PSBTs".to_owned(),
            DelegateError::Sign(_) => "signing delegate PSBTs".to_owned(),
        }
    }
}

/// What a fee output pays: the amount, to the script of the address.
pub open spec fn paid_outputs(fees: Seq<(Seq<char>, u64)>) -> Seq<(u64, Seq<u8>)> {
    fees.map_values(|fee: (Seq<char>, u64)| (fee.1, address_script(fee.0)))
}

/// The outputs of a direct release: the buyer first, then the fees.
fn release_outputs(buyer: &ArkAddress, buyer_amount: u64, fees: &Vec<FeeOutput>) -> (outputs: Vec<
    IntentOutput,
>)
    ensures
        output_views(outputs@) == seq![(buyer_amount, address_script(buyer@))] + paid_outputs(
            fee_views(fees@),
        ),
{
    let mut outputs: Vec<IntentOutput> = Vec::new();
    outputs.push(
        IntentOutput { amount: buyer_amount, script_pubkey: buyer.to_p2tr_script_pubkey() },
    );
    let ghost first = seq![(buyer_amount, address_script(buyer@))];
    let mut i: usize = 0;
    while i < fees.len()
        invariant
            i <= fees.len(),
            outputs.len() == i + 1,
            outputs@[0]@ == (buyer_amount, address_script(buyer@)),
            forall|k: int|
                0 <= k < i ==> (#[trigger] outputs@[k + 1])@ == (
                    fees@[k].amount,
                    address_script(fees@[k].address@),
                ),
        decreases fees.len() - i,
    {
        outputs.push(
            IntentOutput {
                amount: fees[i].amount,
                script_pubkey: fees[i].address.to_p2tr_script_pubkey(),
            },
        );
        i = i + 1;
    }
    proof {
        let all = first + paid_outputs(fee_views(fees@));
        assert forall|k: int| 0 <= k < outputs.len() implies output_views(outputs@)[k]
            == all[k] by {
            if k > 0 {
                assert(outputs@[(k - 1) + 1]@ == (
                    fees@[k - 1].amount,
                    address_script(fees@[k - 1].address@),
                ));
            }
        }
        assert(output_views(outputs@) =~= all);
    }
    outputs
}

/// Prepares a direct release, unsigned.
///
/// It settles all VTXOs into the buyer's payout and the fees that reach the dust
/// limit; smaller fees are not paid. VTXOs that have not been swept and reach the
/// dust limit are forfeited.
///
/// Whether it succeeds with VTXOs rests with the clock.
pub fn prepare_release_delegate(
    contract: &EscrowContract,
    vtxos: &[DelegateVtxo],
    buyer_dest: &ArkAddress,
    fee_outputs: &[FeeOutput],
    signer_set: SignerSet,
    delegate_cosigner_pk: &PublicKey,
    server_info: &ServerInfo,
) -> (delegate: Result<Delegate, DelegateError>)
    requires
        vtxo_sum(refresh_vtxos(vtxos@)) <= u64::MAX,
        fee_sum(
            paid_fees(fee_views(fee_outputs@), ReleaseMode::Delegate, server_info.dust),
        ) <= u64::MAX,
        vtxo_sum(refresh_vtxos(vtxos@)) - fee_sum(
            paid_fees(fee_views(fee_outputs@), ReleaseMode::Delegate, server_info.dust),
        ) >= server_info.dust ==> forfeits_fit(refresh_vtxos(vtxos@), server_info.dust),
    ensures
        ({
            let options = contract.terms();
            let total = vtxo_sum(refresh_vtxos(vtxos@));
            let paid = paid_fees(
                fee_views(fee_outputs@),
                ReleaseMode::Delegate,
                server_info.dust,
            );
            let payout = total - fee_sum(paid);
            match delegate {
                Ok(d) => {
                    &&& vtxos.len() > 0
                    &&& payout >= server_info.dust
                    &&& settles(
                        d,
                        vtxos@.map_values(
                            |vtxo: DelegateVtxo|
                                settled_input(options, vtxo.as_refresh(), signer_set),
                        ),
                        seq![(payout as u64, address_script(buyer_dest@))] + paid_outputs(paid),
                        delegate_cosigner_pk@,
                        onchain_script(server_info.forfeit_address@)->0,
                        server_info.dust,
                    )
                    &&& is_short_settlement(
                        vtxos@.map_values(
                            |vtxo: DelegateVtxo|
                                settled_input(options, vtxo.as_refresh(), signer_set),
                        ),
                        seq![(payout as u64, address_script(buyer_dest@))] + paid_outputs(paid),
                    ) ==> all_read_back(d.intent.proof, d.forfeit_psbts@)
                },
                Err(error) => if payout < 0 {
                    error == DelegateError::Plan(
                        PlanError::FeeExceedsEscrow {
                            total_fee: fee_sum(paid) as u64,
                            total_escrow_amount: total as u64,
                        },
                    )
                } else if payout < server_info.dust {
                    error == DelegateError::Plan(
                        PlanError::DustExceedsPayout {
                            dust: server_info.dust,
                            buyer_amount: payout as u64,
                        },
                    )
                } else {
                    error matches DelegateError::Prepare(e) && refuses(
                        vtxos@.map_values(
                            |vtxo: DelegateVtxo|
                                settled_input(options, vtxo.as_refresh(), signer_set),
                        ),
                        seq![(payout as u64, address_script(buyer_dest@))] + paid_outputs(paid),
                        delegate_cosigner_pk@,
                        server_info.forfeit_address@,
                        server_info.dust,
                        e,
                    )
                },
            }
        }),
{
    let ghost all = refresh_vtxos(vtxos@);
    let mut intent_inputs: Vec<IntentInput> = Vec::new();
    let mut total: u64 = 0;
    let mut i: usize = 0;
    assert(all.take(0) =~= Seq::empty());
    while i < vtxos.len()
        invariant
            i <= vtxos.len(),
            intent_inputs.len() == i,
            all == refresh_vtxos(vtxos@),
            vtxo_sum(all) <= u64::MAX,
            total == vtxo_sum(all.take(i as int)),
            forall|k: int|
                0 <= k < i ==> (#[trigger] intent_inputs@[k])@ == settled_input(
                    contract.terms(),
                    vtxos@[k].as_refresh(),
                    signer_set,
                ),
        decreases vtxos.len() - i,
    {
        let vtxo = RefreshVtxo {
            outpoint: vtxos[i].outpoint,
            amount: vtxos[i].amount,
            is_swept: vtxos[i].is_swept,
        };
        match build_intent_input(contract, &vtxo, signer_set) {
            Ok(input) => intent_inputs.push(input),
            Err(error) => return Err(DelegateError::Contract(error)),
        }
        proof {
            assert(all.take(i + 1).drop_last() =~= all.take(i as int));
            assert(all.take(i + 1).last() == vtxo);
            lemma_vtxo_sum_grows(all, i + 1);
        }
        total = total + vtxo.amount;
        i = i + 1;
    }
    assert(all.take(i as int) =~= all);
    let plan = match plan_release(total, fee_outputs, ReleaseMode::Delegate, server_info.dust) {
        Ok(plan) => plan,
        Err(error) => return Err(DelegateError::Plan(error)),
    };
    let outputs = release_outputs(buyer_dest, plan.buyer_amount, &plan.effective_fee_outputs);
    proof {
        assert(input_views(intent_inputs@) =~= vtxos@.map_values(
            |vtxo: DelegateVtxo| settled_input(contract.terms(), vtxo.as_refresh(), signer_set),
        ));
        assert forall|k: int|
            0 <= k < intent_inputs.len() && is_forfeited(
                (#[trigger] intent_inputs@[k])@,
                server_info.dust,
            ) implies intent_inputs@[k]@.spend.amount + server_info.dust <= u64::MAX by {
            assert(all[k] == vtxos@[k].as_refresh());
        }
        assert(output_views(outputs@).len() > 0);
    }
    match prepare_delegate_psbts(
        &intent_inputs,
        &outputs,
        delegate_cosigner_pk,
        &server_info.forfeit_address,
        server_info.dust,
    ) {
        Ok(delegate) => Ok(delegate),
        Err(error) => Err(DelegateError::Prepare(error)),
    }
}

/// Signs a direct release for a key pair.
pub fn sign_delegate(delegate: &mut Delegate, keypair: &Keypair) -> (signed: Result<
    (),
    DelegateError,
>)
    requires
        can_sign_delegate(
            psbt_view(old(delegate).intent.proof),
            psbt_views(old(delegate).forfeit_psbts@),
        ),
    ensures
        match signed {
            Ok(_) => signs(*old(delegate), *final(delegate), keypair.secret_bytes()),
            Err(error) => {
                &&& error is Sign
                &&& !is_complete(
                    psbt_view(old(delegate).intent.proof),
                    psbt_views(old(delegate).forfeit_psbts@),
                )
            },
        },
        final(delegate).intent.message@ == old(delegate).intent.message@,
        final(delegate).delegate_cosigner_pk == old(delegate).delegate_cosigner_pk,
        same_but_sigs(
            psbt_view(final(delegate).intent.proof),
            psbt_view(old(delegate).intent.proof),
        ),
        final(delegate).forfeit_psbts@.len() == old(delegate).forfeit_psbts@.len(),
        forall|i: int|
            0 <= i < old(delegate).forfeit_psbts@.len() ==> same_but_sigs(
                psbt_view(#[trigger] final(delegate).forfeit_psbts@[i]),
                psbt_view(old(delegate).forfeit_psbts@[i]),
            ),
{
    match sign_delegate_psbts(&mut delegate.intent.proof, &mut delegate.forfeit_psbts, keypair) {
        Ok(_) => Ok(()),
        Err(error) => Err(DelegateError::Sign(error)),
    }
}

/// Signs a direct release for a key pair, if it names the leaves that it is signed for.
pub fn try_sign_delegate(delegate: &mut Delegate, keypair: &Keypair) -> (signed: Option<
    Result<(), DelegateError>,
>)
    ensures
        ({
            let proof = psbt_view(old(delegate).intent.proof);
            let forfeits = psbt_views(old(delegate).forfeit_psbts@);
            match signed {
                Some(Ok(_)) => {
                    &&& can_sign_delegate(proof, forfeits)
                    &&& signs(*old(delegate), *final(delegate), keypair.secret_bytes())
                },
                Some(Err(error)) => {
                    &&& error is Sign
                    &&& can_sign_delegate(proof, forfeits) && !is_complete(proof, forfeits)
                },
                None => !can_sign_delegate(proof, forfeits) && *final(delegate) == *old(delegate),
            }
        }),
{
    if is_signable_delegate(&delegate.intent.proof, &delegate.forfeit_psbts) {
        Some(sign_delegate(delegate, keypair))
    } else {
        None
    }
}

// -- What is paid to whom --

/// A direct release is prepared, unless the outside call refuses it, exactly if the fees that
/// reach the dust limit leave the buyer no less than that. It pays the buyer all that the
/// VTXOs hold but those fees, then each of them in the order in which they were asked for,
/// and nobody else. It spends exactly the VTXOs that were asked for, each through the leaf
/// of the two parties of the signer set and the server.
pub proof fn lemma_direct_release_pays_buyer_and_fees(
    contract: &EscrowContract,
    vtxos: &[DelegateVtxo],
    buyer_dest: &ArkAddress,
    fee_outputs: &[FeeOutput],
    signer_set: SignerSet,
    cosigner_pk: &PublicKey,
    server_info: &ServerInfo,
    delegate: Result<Delegate, DelegateError>,
)
    requires
        call_ensures(
            prepare_release_delegate,
            (contract, vtxos, buyer_dest, fee_outputs, signer_set, cosigner_pk, server_info),
            delegate,
        ),
    ensures
        ({
            let options = contract.terms();
            let paid = fee_outputs@.filter(|fee: FeeOutput| fee.amount >= server_info.dust);
            let total = vtxos@.fold_left(0, |sum: int, vtxo: DelegateVtxo| sum + vtxo.amount);
            let payout = total - paid.fold_left(0, |sum: int, fee: FeeOutput| sum + fee.amount);
            let inputs = vtxos@.map_values(
                |vtxo: DelegateVtxo|
                    IntentInputView {
                        spend: SpendInputView {
                            spend_script: leaf_of_parties(signer_set, options),
                            control_block: options.control_blocks()[leaf_of_parties(
                                signer_set,
                                options,
                            )],
                            tapscripts: options.leaves(),
                            script_pubkey: options.output_script(),
                            amount: vtxo.amount,
                            outpoint: (vtxo.outpoint.txid@, vtxo.outpoint.vout),
                        },
                        is_swept: vtxo.is_swept,
                    },
            );
            let outputs = seq![(payout as u64, address_script(buyer_dest@))] + paid.map_values(
                |fee: FeeOutput| (fee.amount, address_script(fee.address@)),
            );
            let is_refused = |error: ark_core::Error|
                refuses(
                    inputs,
                    outputs,
                    cosigner_pk@,
                    server_info.forfeit_address@,
                    server_info.dust,
                    error,
                );
            &&& payout < 0 ==> (delegate matches Err(DelegateError::Plan(error)) && error
                is FeeExceedsEscrow)
            &&& 0 <= payout < server_info.dust ==> (delegate matches Err(DelegateError::Plan(error))
                && error is DustExceedsPayout)
            &&& payout >= server_info.dust && delegate is Err ==> (delegate matches Err(
                DelegateError::Prepare(error),
            ) && is_refused(error))
            &&& delegate matches Ok(d) ==> {
                &&& payout >= server_info.dust
                &&& vtxos@.len() > 0
                &&& settles_vtxos(
                    d,
                    inputs,
                    outputs,
                    cosigner_pk@,
                    onchain_script(server_info.forfeit_address@)->0,
                    server_info.dust,
                )
            }
        }),
{
    let options = contract.terms();
    let dust = server_info.dust;
    let all = refresh_vtxos(vtxos@);
    lemma_delegate_sum(vtxos@);
    lemma_leaf_of_parties(signer_set, options);
    let view = |fee: FeeOutput| fee@;
    let reaches = |fee: FeeOutput| fee.amount >= server_info.dust;
    lemma_filter_of_map(
        fee_outputs@,
        view,
        |fee: (Seq<char>, u64)| crate::fee_is_paid(fee.1, ReleaseMode::Delegate, dust),
        reaches,
    );
    let paid = fee_outputs@.filter(reaches);
    assert(paid_fees(fee_views(fee_outputs@), ReleaseMode::Delegate, dust) == fee_views(paid));
    lemma_fee_sum_is_a_sum(paid);
    let inputs = vtxos@.map_values(
        |vtxo: DelegateVtxo| settled_input(options, vtxo.as_refresh(), signer_set),
    );
    assert(inputs =~= vtxos@.map_values(
        |vtxo: DelegateVtxo|
            IntentInputView {
                spend: SpendInputView {
                    spend_script: leaf_of_parties(signer_set, options),
                    control_block: options.control_blocks()[leaf_of_parties(signer_set, options)],
                    tapscripts: options.leaves(),
                    script_pubkey: options.output_script(),
                    amount: vtxo.amount,
                    outpoint: (vtxo.outpoint.txid@, vtxo.outpoint.vout),
                },
                is_swept: vtxo.is_swept,
            },
    ));
    let payout = vtxo_sum(all) - fee_sum(fee_views(paid));
    let outputs = seq![(payout as u64, address_script(buyer_dest@))] + paid_outputs(
        fee_views(paid),
    );
    assert(outputs =~= seq![(payout as u64, address_script(buyer_dest@))] + paid.map_values(
        |fee: FeeOutput| (fee.amount, address_script(fee.address@)),
    )) by {
        assert(paid_outputs(fee_views(paid)) =~= paid.map_values(
            |fee: FeeOutput| (fee.amount, address_script(fee.address@)),
        ));
    }
    if let Ok(d) = delegate {
        lemma_settling_is_settling_vtxos(
            d,
            inputs,
            outputs,
            cosigner_pk@,
            onchain_script(server_info.forfeit_address@)->0,
            dust,
        );
    }
}

/// What VTXOs hold together is the sum of what each holds.
proof fn lemma_delegate_sum(vtxos: Seq<DelegateVtxo>)
    ensures
        vtxo_sum(refresh_vtxos(vtxos)) == vtxos.fold_left(
            0,
            |sum: int, vtxo: DelegateVtxo| sum + vtxo.amount,
        ),
    decreases vtxos.len(),
{
    if vtxos.len() > 0 {
        lemma_delegate_sum(vtxos.drop_last());
        assert(refresh_vtxos(vtxos).drop_last() =~= refresh_vtxos(vtxos.drop_last()));
    }
}

/// Signing a direct release signs its proof and every forfeit for the key pair, and changes
/// nothing else. It succeeds whenever all outputs that they spend are known.
pub proof fn lemma_direct_release_is_signed(
    delegate: &mut Delegate,
    keypair: &Keypair,
    signed: Result<(), DelegateError>,
)
    requires
        call_ensures(sign_delegate, (delegate, keypair), signed),
    ensures
        signed is Ok <==> can_all_be_signed(
            psbt_view(old(delegate).intent.proof),
            psbt_views(old(delegate).forfeit_psbts@),
        ),
        signed is Ok ==> signs_everything(
            psbt_view(old(delegate).intent.proof),
            psbt_view(final(delegate).intent.proof),
            psbt_views(old(delegate).forfeit_psbts@),
            psbt_views(final(delegate).forfeit_psbts@),
            public_key_of(keypair.secret_bytes()).subrange(1, 33),
        ),
        final(delegate).intent.message@ == old(delegate).intent.message@,
        final(delegate).delegate_cosigner_pk == old(delegate).delegate_cosigner_pk,
{
    lemma_signed_is_signed(
        psbt_view(old(delegate).intent.proof),
        psbt_views(old(delegate).forfeit_psbts@),
        keypair.secret_bytes(),
    );
}

/// A direct release that names the leaves that it is signed for is signed in the same way, and
/// one that does not is left as it was.
pub proof fn lemma_direct_release_is_signed_or_kept(
    delegate: &mut Delegate,
    keypair: &Keypair,
    signed: Option<Result<(), DelegateError>>,
)
    requires
        call_ensures(try_sign_delegate, (delegate, keypair), signed),
    ensures
        signed is None ==> *final(delegate) == *old(delegate),
        signed is None <==> !can_sign_delegate(
            psbt_view(old(delegate).intent.proof),
            psbt_views(old(delegate).forfeit_psbts@),
        ),
        names_all_leaves(
            psbt_view(old(delegate).intent.proof),
            psbt_views(old(delegate).forfeit_psbts@),
        ) ==> signed is Some,
        signed is Some ==> (signed->0 is Ok <==> can_all_be_signed(
            psbt_view(old(delegate).intent.proof),
            psbt_views(old(delegate).forfeit_psbts@),
        )),
        signed is Some && signed->0 is Ok ==> signs_everything(
            psbt_view(old(delegate).intent.proof),
            psbt_view(final(delegate).intent.proof),
            psbt_views(old(delegate).forfeit_psbts@),
            psbt_views(final(delegate).forfeit_psbts@),
            public_key_of(keypair.secret_bytes()).subrange(1, 33),
        ) && final(delegate).intent.message@ == old(delegate).intent.message@
            && final(delegate).delegate_cosigner_pk == old(delegate).delegate_cosigner_pk,
{
    lemma_signed_is_signed(
        psbt_view(old(delegate).intent.proof),
        psbt_views(old(delegate).forfeit_psbts@),
        keypair.secret_bytes(),
    );
}

} // verus!
