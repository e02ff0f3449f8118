//! Refreshing recoverable escrow VTXOs back into the same escrow contract.
//!
//! Refreshing is the way back for escrow VTXOs that can no longer be spent
//! offchain. A refresh settles one or more of them into a single new VTXO at the
//! escrow address of the server's active key. Once that VTXO is spendable, the
//! escrow is spent offchain as usual.

use bitcoin::Psbt;
use vstd::prelude::*;

use crate::contract::{
    leaf_of_parties, lemma_leaf_of_parties, lemma_leaves_are_short, lemma_signer_set_has_leaf,
    ContractError, EscrowContract, EscrowOptions, SignerSet,
};
use crate::intent::{
    adds_signatures, all_read_back, can_all_be_signed, can_sign_delegate, hold_the_same,
    input_views, is_complete, is_forfeited, is_short_settlement, is_signable_delegate,
    lemma_prepared_is_signable, lemma_settling_is_settling_vtxos, lemma_signed_is_signed,
    lemma_signers_commute, lemma_signing_only_adds_signatures, lemma_signing_twice_is_signing_once,
    names_all_leaves, output_views, prepare_delegate_psbts, refuses, same_but_sigs, settles,
    settles_vtxos, sign_delegate_psbts, signs, signs_everything, Delegate, Intent, IntentInput,
    IntentInputView, IntentOutput,
};
use crate::keys::{public_key_of, Keypair, PublicKey};
use crate::offchain::{flat_len, lemma_flat_len, SpendInputView};
use crate::psbt::{psbt_view, psbt_views};
use crate::server::{onchain_script, ServerInfo};
use crate::tx::OutPoint;

verus! {

/// An escrow VTXO that is to be refreshed.
#[derive(Clone, Copy, Debug, PartialEq, Eq)]
pub struct RefreshVtxo {
    pub outpoint: OutPoint,
    /// In satoshis.
    pub amount: u64,
    pub is_swept: bool,
}

/// A refresh that waits for the signatures of a signer set on its intent and its
/// forfeits.
pub struct RefreshIntent {
    pub intent: Intent,
    pub forfeit_psbts: Vec<Psbt>,
    pub refresh_cosigner_pk: PublicKey,
}

/// Why a refresh could not be prepared or signed.
#[derive(Debug)]
pub enum RefreshError {
    /// The contract has no such leaf, or the active server key is a party's key.
    Contract(ContractError),
    /// The transactions could not be prepared.
    Prepare(ark_core::Error),
    /// The transactions could not be signed.
    Sign(ark_core::Error),
}

impl RefreshError {
    /// What the error says, apart from what caused it.
    pub open spec fn says(self) -> Seq<char> {
        match self {
            RefreshError::Contract(error) => error.says(),
            RefreshError::Prepare(_) => "preparing refresh PSBTs"@,
            RefreshError::Sign(_) => "signing refresh PSBTs"@,
        }
    }

    /// The error as a text, apart from what caused it.
    pub fn message(&self) -> (message: String)
        ensures
            message@ == self.says(),
    {
        match self {
            RefreshError::Contract(error) => error.message(),
            RefreshError::Prepare(_) => "preparing refresh PSBTs".to_owned(),
            RefreshError::Sign(_) => "signing refresh PSBTs".to_owned(),
        }
    }
}

impl RefreshIntent {
    /// The settlement that carries out the refresh.
    pub fn into_delegate(self) -> (delegate: Delegate)
        ensures
            delegate == (Delegate {
                intent: self.intent,
                forfeit_psbts: self.forfeit_psbts,
                delegate_cosigner_pk: self.refresh_cosigner_pk,
            }),
    {
        Delegate {
            intent: self.intent,
            forfeit_psbts: self.forfeit_psbts,
            delegate_cosigner_pk: self.refresh_cosigner_pk,
        }
    }

    /// The refresh that a settlement carries out.
    pub fn from_delegate(delegate: Delegate) -> (refresh: RefreshIntent)
        ensures
            refresh.as_delegate() == delegate,
    {
        RefreshIntent {
            intent: delegate.intent,
            forfeit_psbts: delegate.forfeit_psbts,
            refresh_cosigner_pk: delegate.delegate_cosigner_pk,
        }
    }

    /// The settlement that carries out the refresh.
    pub open spec fn as_delegate(self) -> Delegate {
        Delegate {
            intent: self.intent,
            forfeit_psbts: self.forfeit_psbts,
            delegate_cosigner_pk: self.refresh_cosigner_pk,
        }
    }
}

/// A VTXO together with the contract that holds it.
pub struct RefreshInput<'a> {
    pub contract: &'a EscrowContract,
    pub vtxo: &'a RefreshVtxo,
}

/// The input that settles a VTXO of a contract through the leaf of a signer set.
pub open spec fn settled_input(
    options: EscrowOptions,
    vtxo: RefreshVtxo,
    signer_set: SignerSet,
) -> IntentInputView {
    IntentInputView {
        spend: SpendInputView {
            spend_script: signer_set.leaf(options),
            control_block: options.control_blocks()[signer_set.leaf(options)],
            tapscripts: options.leaves(),
            script_pubkey: options.output_script(),
            amount: vtxo.amount,
            outpoint: vtxo.outpoint@,
        },
        is_swept: vtxo.is_swept,
    }
}

/// The inputs that settle VTXOs, each through its own contract.
pub open spec fn settled_inputs<'a>(
    inputs: Seq<RefreshInput<'a>>,
    signer_set: SignerSet,
) -> Seq<IntentInputView> {
    inputs.map_values(
        |input: RefreshInput<'a>| settled_input(input.contract.terms(), *input.vtxo, signer_set),
    )
}

/// What some VTXOs hold together.
pub open spec fn vtxo_sum(vtxos: Seq<RefreshVtxo>) -> nat
    decreases vtxos.len(),
{
    if vtxos.len() == 0 {
        0
    } else {
        vtxo_sum(vtxos.drop_last()) + vtxos.last().amount as nat
    }
}

/// The VTXOs of some inputs.
pub open spec fn input_vtxos<'a>(inputs: Seq<RefreshInput<'a>>) -> Seq<RefreshVtxo> {
    inputs.map_values(|input: RefreshInput<'a>| *input.vtxo)
}

/// Whether the value of every forfeit can be written: each VTXO that is given up
/// leaves room for a connector.
pub open spec fn forfeits_fit(vtxos: Seq<RefreshVtxo>, dust: u64) -> bool {
    forall|i: int|
        0 <= i < vtxos.len() && !(#[trigger] vtxos[i]).is_swept && vtxos[i].amount >= dust
            ==> vtxos[i].amount + dust <= u64::MAX
}

/// Adding up more VTXOs never gives less.
pub proof fn lemma_vtxo_sum_grows(vtxos: Seq<RefreshVtxo>, upto: int)
    requires
        0 <= upto <= vtxos.len(),
    ensures
        vtxo_sum(vtxos.take(upto)) <= vtxo_sum(vtxos),
    decreases vtxos.len() - upto,
{
    if upto < vtxos.len() {
        lemma_vtxo_sum_grows(vtxos, upto + 1);
        assert(vtxos.take(upto + 1).drop_last() =~= vtxos.take(upto));
    } else {
        assert(vtxos.take(upto) =~= vtxos);
    }
}

/// Whether VTXOs hold an amount that can be written.
pub fn sum_fits(vtxos: &[RefreshVtxo]) -> (fits: bool)
    ensures
        fits <==> vtxo_sum(vtxos@) <= u64::MAX,
{
    let mut total: u64 = 0;
    let mut i: usize = 0;
    assert(vtxos@.take(0) =~= Seq::empty());
    while i < vtxos.len()
        invariant
            i <= vtxos.len(),
            total == vtxo_sum(vtxos@.take(i as int)),
        decreases vtxos.len() - i,
    {
        proof {
            assert(vtxos@.take(i + 1).drop_last() =~= vtxos@.take(i as int));
            lemma_vtxo_sum_grows(vtxos@, i + 1);
        }
        match total.checked_add(vtxos[i].amount) {
            Some(sum) => total = sum,
            None => return false,
        }
        i = i + 1;
    }
    assert(vtxos@.take(i as int) =~= vtxos@);
    true
}

/// Whether the value of every forfeit can be written.
pub fn can_forfeit(vtxos: &[RefreshVtxo], dust: u64) -> (can: bool)
    ensures
        can == forfeits_fit(vtxos@, dust),
{
    let mut i: usize = 0;
    while i < vtxos.len()
        invariant
            i <= vtxos.len(),
            forall|k: int|
                0 <= k < i && !(#[trigger] vtxos@[k]).is_swept && vtxos@[k].amount >= dust
                    ==> vtxos@[k].amount + dust <= u64::MAX,
        decreases vtxos.len() - i,
    {
        let vtxo = vtxos[i];
        if !vtxo.is_swept && vtxo.amount >= dust && vtxo.amount > u64::MAX - dust {
            assert(vtxos@[i as int].amount + dust > u64::MAX);
            return false;
        }
        i = i + 1;
    }
    true
}

/// The input that settles a VTXO of a contract through the leaf of a signer set.
pub(crate) fn build_intent_input(
    contract: &EscrowContract,
    vtxo: &RefreshVtxo,
    signer_set: SignerSet,
) -> (input: Result<IntentInput, ContractError>)
    ensures
        input matches Ok(i) && i@ == settled_input(contract.terms(), *vtxo, signer_set),
        contract.terms().output_script().len() == 34,
{
    let spend_script = signer_set.script(contract.options());
    proof {
        lemma_signer_set_has_leaf(signer_set, contract.terms());
    }
    match contract.control_block(spend_script.as_slice()) {
        Ok(control_block) => Ok(
            IntentInput::new(
                spend_script,
                control_block,
                contract.tapscripts(),
                contract.script_pubkey(),
                vtxo.amount,
                vtxo.outpoint,
                vtxo.is_swept,
            ),
        ),
        Err(error) => Err(error),
    }
}

/// The inputs that settle VTXOs, each through its own contract.
fn build_intent_inputs<'a>(inputs: &Vec<RefreshInput<'a>>, signer_set: SignerSet) -> (built: Result<
    Vec<IntentInput>,
    ContractError,
>)
    ensures
        built matches Ok(b) && input_views(b@) == settled_inputs(inputs@, signer_set),
        forall|i: int|
            0 <= i < inputs.len() ==> (
            #[trigger] inputs@[i]).contract.terms().output_script().len() == 34,
{
    let mut built: Vec<IntentInput> = Vec::new();
    let mut i: usize = 0;
    while i < inputs.len()
        invariant
            i <= inputs.len(),
            built.len() == i,
            forall|k: int|
                0 <= k < i ==> (#[trigger] built@[k])@ == settled_input(
                    inputs@[k].contract.terms(),
                    *inputs@[k].vtxo,
                    signer_set,
                ),
            forall|k: int|
                0 <= k < i ==> (#[trigger] inputs@[k]).contract.terms().output_script().len() == 34,
        decreases inputs.len() - i,
    {
        match build_intent_input(inputs[i].contract, inputs[i].vtxo, signer_set) {
            Ok(input) => built.push(input),
            Err(error) => return Err(error),
        }
        i = i + 1;
    }
    assert(input_views(built@) =~= settled_inputs(inputs@, signer_set));
    Ok(built)
}

/// The options of a contract under the server's active key.
pub open spec fn active_options(options: EscrowOptions, server_info: ServerInfo) -> EscrowOptions {
    EscrowOptions { server: server_info.signer_pk.without_parity(), ..options }
}

/// Whether a refresh settles `inputs` into one VTXO of a contract under the
/// server's active key, which holds all that they hold.
pub open spec fn refreshes(
    refresh: RefreshIntent,
    inputs: Seq<IntentInputView>,
    total: nat,
    options: EscrowOptions,
    cosigner: Seq<u8>,
    server_info: ServerInfo,
) -> bool {
    settles(
        refresh.as_delegate(),
        inputs,
        seq![(total as u64, active_options(options, server_info).output_script())],
        cosigner,
        onchain_script(server_info.forfeit_address@)->0,
        server_info.dust,
    )
}

/// Whether `error` is what the outside call answered when it was asked to settle `inputs`
/// into one VTXO of a contract under the server's active key, which holds all that they
/// hold. With inputs there is one reason for it: a clock that stands before 1970.
pub open spec fn refresh_is_refused(
    inputs: Seq<IntentInputView>,
    total: nat,
    options: EscrowOptions,
    cosigner: Seq<u8>,
    server_info: ServerInfo,
    error: ark_core::Error,
) -> bool {
    refuses(
        inputs,
        seq![(total as u64, active_options(options, server_info).output_script())],
        cosigner,
        server_info.forfeit_address@,
        server_info.dust,
        error,
    )
}

/// The leaves of contracts make the settlement of their VTXOs no longer than what reads
/// back.
proof fn lemma_refresh_is_short<'a>(
    inputs: Seq<RefreshInput<'a>>,
    signer_set: SignerSet,
    outputs: Seq<(u64, Seq<u8>)>,
)
    requires
        inputs.len() <= 10_000,
        forall|i: int|
            0 <= i < inputs.len() ==> (
            #[trigger] inputs[i]).contract.terms().output_script().len() == 34,
        outputs.len() == 1,
        outputs[0].1.len() == 34,
    ensures
        is_short_settlement(settled_inputs(inputs, signer_set), outputs),
{
    let scripts = outputs.map_values(|output: (u64, Seq<u8>)| output.1);
    lemma_flat_len(scripts, 34);
    let settled = settled_inputs(inputs, signer_set);
    assert forall|i: int| 0 <= i < settled.len() implies {
        let spend = (#[trigger] settled[i]).spend;
        &&& spend.tapscripts.len() <= 10_000
        &&& spend.spend_script.len() + flat_len(spend.tapscripts) + spend.script_pubkey.len()
            <= 1_000_000
    } by {
        lemma_leaves_are_short(inputs[i].contract.terms(), signer_set);
    }
}

/// Prepares a refresh of VTXOs that each belong to a contract of their own, into
/// `output_template_contract` under the server's active key.
///
/// Whether it succeeds with VTXOs rests with the clock.
pub fn prepare_refresh_resolved<'a>(
    output_template_contract: &EscrowContract,
    inputs: &Vec<RefreshInput<'a>>,
    signer_set: SignerSet,
    refresh_cosigner_pk: &PublicKey,
    server_info: &ServerInfo,
) -> (refresh: Result<RefreshIntent, RefreshError>)
    requires
        vtxo_sum(input_vtxos(inputs@)) <= u64::MAX,
        active_options(output_template_contract.terms(), *server_info).keys_are_distinct()
            ==> forfeits_fit(input_vtxos(inputs@), server_info.dust),
    ensures
        ({
            let options = output_template_contract.terms();
            match refresh {
                Ok(r) => {
                    &&& active_options(options, *server_info).keys_are_distinct()
                    &&& inputs.len() > 0
                    &&& refreshes(
                        r,
                        settled_inputs(inputs@, signer_set),
                        vtxo_sum(input_vtxos(inputs@)),
                        options,
                        refresh_cosigner_pk@,
                        *server_info,
                    )
                    &&& inputs.len() <= 10_000 ==> all_read_back(r.intent.proof, r.forfeit_psbts@)
                },
                Err(RefreshError::Contract(error)) => {
                    &&& error is DuplicateKeys
                    &&& !active_options(options, *server_info).keys_are_distinct()
                },
                Err(RefreshError::Prepare(error)) => {
                    &&& active_options(options, *server_info).keys_are_distinct()
                    &&& refresh_is_refused(
                        settled_inputs(inputs@, signer_set),
                        vtxo_sum(input_vtxos(inputs@)),
                        options,
                        refresh_cosigner_pk@,
                        *server_info,
                        error,
                    )
                },
                Err(RefreshError::Sign(_)) => false,
            }
        }),
{
    let intent_inputs = match build_intent_inputs(inputs, signer_set) {
        Ok(intent_inputs) => intent_inputs,
        Err(error) => return Err(RefreshError::Contract(error)),
    };
    let ghost vtxos = input_vtxos(inputs@);
    let mut total: u64 = 0;
    let mut i: usize = 0;
    assert(vtxos.take(0) =~= Seq::empty());
    while i < inputs.len()
        invariant
            i <= inputs.len(),
            vtxos == input_vtxos(inputs@),
            vtxo_sum(vtxos) <= u64::MAX,
            total == vtxo_sum(vtxos.take(i as int)),
        decreases inputs.len() - i,
    {
        proof {
            assert(vtxos.take(i + 1).drop_last() =~= vtxos.take(i as int));
            assert(vtxos.take(i + 1).last() == *inputs@[i as int].vtxo);
            lemma_vtxo_sum_grows(vtxos, i + 1);
        }
        total = total + inputs[i].vtxo.amount;
        i = i + 1;
    }
    assert(vtxos.take(i as int) =~= vtxos);
    let output_contract = match output_template_contract.with_server(
        server_info.signer_pk.x_only(),
    ) {
        Ok(contract) => contract,
        Err(error) => {
            return Err(RefreshError::Contract(error));
        },
    };
    let mut outputs: Vec<IntentOutput> = Vec::new();
    let script_pubkey = output_contract.address().to_p2tr_script_pubkey();
    assert(script_pubkey.len() == 34);
    outputs.push(IntentOutput { amount: total, script_pubkey });
    proof {
        assert(output_views(outputs@) =~= seq![
            (total, active_options(
                output_template_contract.terms(),
                *server_info,
            ).output_script()),
        ]);
        assert(input_views(intent_inputs@).len() == inputs.len());
        assert forall|k: int|
            0 <= k < intent_inputs.len() && is_forfeited(
                (#[trigger] intent_inputs@[k])@,
                server_info.dust,
            ) implies intent_inputs@[k]@.spend.amount + server_info.dust <= u64::MAX by {
            assert(input_views(intent_inputs@)[k] == settled_inputs(inputs@, signer_set)[k]);
            assert(vtxos[k] == *inputs@[k].vtxo);
        }
        if inputs.len() <= 10_000 {
            lemma_refresh_is_short(inputs@, signer_set, output_views(outputs@));
        }
    }
    match prepare_delegate_psbts(
        &intent_inputs,
        &outputs,
        refresh_cosigner_pk,
        &server_info.forfeit_address,
        server_info.dust,
    ) {
        Ok(delegate) => Ok(RefreshIntent::from_delegate(delegate)),
        Err(error) => Err(RefreshError::Prepare(error)),
    }
}

/// Prepares a refresh of VTXOs of one contract.
///
/// It settles them into a single output that holds their sum. If the server's key
/// has changed, they are spent from `contract`, and the output goes to the same
/// contract under the active key. Neither a destination nor fees are part of it: once
/// the refreshed VTXO is spendable, the escrow is spent offchain as usual.
///
/// Whether it succeeds with VTXOs rests with the clock.
pub fn prepare_refresh(
    contract: &EscrowContract,
    vtxos: &[RefreshVtxo],
    signer_set: SignerSet,
    refresh_cosigner_pk: &PublicKey,
    server_info: &ServerInfo,
) -> (refresh: Result<RefreshIntent, RefreshError>)
    requires
        vtxo_sum(vtxos@) <= u64::MAX,
        active_options(contract.terms(), *server_info).keys_are_distinct() ==> forfeits_fit(
            vtxos@,
            server_info.dust,
        ),
    ensures
        ({
            let options = contract.terms();
            match refresh {
                Ok(r) => {
                    &&& active_options(options, *server_info).keys_are_distinct()
                    &&& vtxos.len() > 0
                    &&& refreshes(
                        r,
                        vtxos@.map_values(
                            |vtxo: RefreshVtxo| settled_input(options, vtxo, signer_set),
                        ),
                        vtxo_sum(vtxos@),
                        options,
                        refresh_cosigner_pk@,
                        *server_info,
                    )
                    &&& vtxos.len() <= 10_000 ==> all_read_back(r.intent.proof, r.forfeit_psbts@)
                },
                Err(RefreshError::Contract(error)) => {
                    &&& error is DuplicateKeys
                    &&& !active_options(options, *server_info).keys_are_distinct()
                },
                Err(RefreshError::Prepare(error)) => {
                    &&& active_options(options, *server_info).keys_are_distinct()
                    &&& refresh_is_refused(
                        vtxos@.map_values(
                            |vtxo: RefreshVtxo| settled_input(options, vtxo, signer_set),
                        ),
                        vtxo_sum(vtxos@),
                        options,
                        refresh_cosigner_pk@,
                        *server_info,
                        error,
                    )
                },
                Err(RefreshError::Sign(_)) => false,
            }
        }),
{
    let mut inputs: Vec<RefreshInput<'_>> = Vec::new();
    let mut i: usize = 0;
    while i < vtxos.len()
        invariant
            i <= vtxos.len(),
            inputs.len() == i,
            forall|k: int|
                0 <= k < i ==> *(#[trigger] inputs@[k]).vtxo == vtxos@[k] && *inputs@[k].contract
                    == *contract,
        decreases vtxos.len() - i,
    {
        inputs.push(RefreshInput { contract, vtxo: &vtxos[i] });
        i = i + 1;
    }
    proof {
        assert(input_vtxos(inputs@) =~= vtxos@);
        assert(settled_inputs(inputs@, signer_set) =~= vtxos@.map_values(
            |vtxo: RefreshVtxo| settled_input(contract.terms(), vtxo, signer_set),
        ));
    }
    prepare_refresh_resolved(contract, &inputs, signer_set, refresh_cosigner_pk, server_info)
}

/// Signs a refresh for a key pair.
pub fn sign_refresh(refresh: &mut RefreshIntent, keypair: &Keypair) -> (signed: Result<
    (),
    RefreshError,
>)
    requires
        can_sign_delegate(
            psbt_view(old(refresh).intent.proof),
            psbt_views(old(refresh).forfeit_psbts@),
        ),
    ensures
        match signed {
            Ok(_) => signs(
                old(refresh).as_delegate(),
                final(refresh).as_delegate(),
                keypair.secret_bytes(),
            ),
            Err(error) => {
                &&& error is Sign
                &&& !is_complete(
                    psbt_view(old(refresh).intent.proof),
                    psbt_views(old(refresh).forfeit_psbts@),
                )
            },
        },
        final(refresh).intent.message@ == old(refresh).intent.message@,
        final(refresh).refresh_cosigner_pk == old(refresh).refresh_cosigner_pk,
        same_but_sigs(
            psbt_view(final(refresh).intent.proof),
            psbt_view(old(refresh).intent.proof),
        ),
        final(refresh).forfeit_psbts@.len() == old(refresh).forfeit_psbts@.len(),
        forall|i: int|
            0 <= i < old(refresh).forfeit_psbts@.len() ==> same_but_sigs(
                psbt_view(#[trigger] final(refresh).forfeit_psbts@[i]),
                psbt_view(old(refresh).forfeit_psbts@[i]),
            ),
{
    match sign_delegate_psbts(&mut refresh.intent.proof, &mut refresh.forfeit_psbts, keypair) {
        Ok(_) => Ok(()),
        Err(error) => Err(RefreshError::Sign(error)),
    }
}

/// Signs a refresh for a key pair, if it names the leaves that it is signed for.
pub fn try_sign_refresh(refresh: &mut RefreshIntent, keypair: &Keypair) -> (signed: Option<
    Result<(), RefreshError>,
>)
    ensures
        ({
            let proof = psbt_view(old(refresh).intent.proof);
            let forfeits = psbt_views(old(refresh).forfeit_psbts@);
            match signed {
                Some(Ok(_)) => {
                    &&& can_sign_delegate(proof, forfeits)
                    &&& signs(
                        old(refresh).as_delegate(),
                        final(refresh).as_delegate(),
                        keypair.secret_bytes(),
                    )
                },
                Some(Err(error)) => {
                    &&& error is Sign
                    &&& can_sign_delegate(proof, forfeits) && !is_complete(proof, forfeits)
                },
                None => !can_sign_delegate(proof, forfeits) && *final(refresh) == *old(refresh),
            }
        }),
{
    if is_signable_delegate(&refresh.intent.proof, &refresh.forfeit_psbts) {
        Some(sign_refresh(refresh, keypair))
    } else {
        None
    }
}

// -- What holds of every refresh --

/// As long as the server's key has not changed, a refresh pays back to the contract
/// that held the VTXOs.
pub proof fn lemma_refresh_returns_to_contract(options: EscrowOptions, server_info: ServerInfo)
    requires
        server_info.signer_pk.without_parity()@ == options.server@,
    ensures
        active_options(options, server_info) == options,
{
    server_info.signer_pk.without_parity().lemma_bytes(options.server);
}

/// A refresh that was prepared can be signed, and signing it succeeds.
pub proof fn lemma_refresh_is_signable(
    refresh: RefreshIntent,
    inputs: Seq<IntentInputView>,
    total: nat,
    options: EscrowOptions,
    cosigner: Seq<u8>,
    server_info: ServerInfo,
)
    requires
        inputs.len() > 0,
        refreshes(refresh, inputs, total, options, cosigner, server_info),
    ensures
        can_sign_delegate(psbt_view(refresh.intent.proof), psbt_views(refresh.forfeit_psbts@)),
        is_complete(psbt_view(refresh.intent.proof), psbt_views(refresh.forfeit_psbts@)),
{
    lemma_prepared_is_signable(
        refresh.as_delegate(),
        inputs,
        seq![(total as u64, active_options(options, server_info).output_script())],
        cosigner,
        onchain_script(server_info.forfeit_address@)->0,
        server_info.dust,
    );
}

/// In which order two parties sign a refresh does not matter.
pub proof fn lemma_refresh_signers_commute(
    start: RefreshIntent,
    by_first: RefreshIntent,
    first_then_second: RefreshIntent,
    by_second: RefreshIntent,
    second_then_first: RefreshIntent,
    first: Keypair,
    second: Keypair,
)
    requires
        signs(start.as_delegate(), by_first.as_delegate(), first.secret_bytes()),
        signs(by_first.as_delegate(), first_then_second.as_delegate(), second.secret_bytes()),
        signs(start.as_delegate(), by_second.as_delegate(), second.secret_bytes()),
        signs(by_second.as_delegate(), second_then_first.as_delegate(), first.secret_bytes()),
    ensures
        hold_the_same(first_then_second.as_delegate(), second_then_first.as_delegate()),
{
    lemma_signers_commute(
        start.as_delegate(),
        by_first.as_delegate(),
        first_then_second.as_delegate(),
        by_second.as_delegate(),
        second_then_first.as_delegate(),
        first.secret_bytes(),
        second.secret_bytes(),
    );
}

/// A party that signs a refresh again changes nothing, and signing only ever adds the
/// party's signatures.
pub proof fn lemma_refresh_is_signed_once(
    start: RefreshIntent,
    once: RefreshIntent,
    twice: RefreshIntent,
    keypair: Keypair,
)
    requires
        signs(start.as_delegate(), once.as_delegate(), keypair.secret_bytes()),
        signs(once.as_delegate(), twice.as_delegate(), keypair.secret_bytes()),
    ensures
        hold_the_same(twice.as_delegate(), once.as_delegate()),
        adds_signatures(
            psbt_view(start.intent.proof),
            psbt_view(once.intent.proof),
            keypair.x_only_bytes(),
        ),
        once.forfeit_psbts@.len() == start.forfeit_psbts@.len(),
        forall|i: int|
            0 <= i < start.forfeit_psbts@.len() ==> adds_signatures(
                psbt_view(#[trigger] start.forfeit_psbts@[i]),
                psbt_view(once.forfeit_psbts@[i]),
                keypair.x_only_bytes(),
            ),
        once.intent.message@ == start.intent.message@,
        once.refresh_cosigner_pk == start.refresh_cosigner_pk,
{
    lemma_signing_twice_is_signing_once(
        start.as_delegate(),
        once.as_delegate(),
        twice.as_delegate(),
        keypair.secret_bytes(),
    );
    lemma_signing_only_adds_signatures(
        start.as_delegate(),
        once.as_delegate(),
        keypair.secret_bytes(),
    );
}

/// A refresh and the settlement that carries it out hold the same.
pub proof fn lemma_delegate_round_trip(refresh: RefreshIntent, delegate: Delegate)
    ensures
        refresh.as_delegate() == delegate <==> refresh == (RefreshIntent {
            intent: delegate.intent,
            forfeit_psbts: delegate.forfeit_psbts,
            refresh_cosigner_pk: delegate.delegate_cosigner_pk,
        }),
{
}

/// With VTXOs, and with keys that are distinct under the server's active key, a refresh is
/// prepared unless the outside call refuses it, for which the clock is the only reason.
/// What it is asked is to settle each of the VTXOs, through the leaf of the signer set,
/// into one output: all that they hold, at the contract under the active key.
pub proof fn lemma_refresh_succeeds(
    contract: &EscrowContract,
    vtxos: &[RefreshVtxo],
    signer_set: SignerSet,
    cosigner_pk: &PublicKey,
    server_info: &ServerInfo,
    refresh: Result<RefreshIntent, RefreshError>,
)
    requires
        call_ensures(
            prepare_refresh,
            (contract, vtxos, signer_set, cosigner_pk, server_info),
            refresh,
        ),
    ensures
        ({
            let options = contract.terms();
            let active = EscrowOptions {
                server: server_info.signer_pk.without_parity(),
                ..options
            };
            let inputs = vtxos@.map_values(
                |vtxo: RefreshVtxo|
                    IntentInputView {
                        spend: SpendInputView {
                            spend_script: signer_set.leaf(options),
                            control_block: options.control_blocks()[signer_set.leaf(options)],
                            tapscripts: options.leaves(),
                            script_pubkey: options.output_script(),
                            amount: vtxo.amount,
                            outpoint: (vtxo.outpoint.txid@, vtxo.outpoint.vout),
                        },
                        is_swept: vtxo.is_swept,
                    },
            );
            let total = vtxos@.fold_left(0, |sum: int, vtxo: RefreshVtxo| sum + vtxo.amount);
            let is_refused = |error: ark_core::Error|
                refuses(
                    inputs,
                    seq![(total as u64, active.output_script())],
                    cosigner_pk@,
                    server_info.forfeit_address@,
                    server_info.dust,
                    error,
                );
            &&& refresh is Ok ==> vtxos@.len() > 0 && active.keys_are_distinct()
            &&& refresh matches Err(RefreshError::Prepare(error)) ==> is_refused(error)
                && active.keys_are_distinct()
            &&& active.keys_are_distinct() && (forall|error: ark_core::Error|
                !#[trigger] is_refused(error)) ==> refresh is Ok
            &&& (refresh is Err && refresh->Err_0 is Contract) == !active.keys_are_distinct()
        }),
{
    lemma_vtxo_sum_is_a_sum(vtxos@);
    assert(vtxos@.map_values(
        |vtxo: RefreshVtxo|
            IntentInputView {
                spend: SpendInputView {
                    spend_script: signer_set.leaf(contract.terms()),
                    control_block: contract.terms().control_blocks()[signer_set.leaf(
                        contract.terms(),
                    )],
                    tapscripts: contract.terms().leaves(),
                    script_pubkey: contract.terms().output_script(),
                    amount: vtxo.amount,
                    outpoint: (vtxo.outpoint.txid@, vtxo.outpoint.vout),
                },
                is_swept: vtxo.is_swept,
            },
    ) =~= vtxos@.map_values(
        |vtxo: RefreshVtxo| settled_input(contract.terms(), vtxo, signer_set),
    ));
}

/// What VTXOs hold together is the sum of what each holds.
pub proof fn lemma_vtxo_sum_is_a_sum(vtxos: Seq<RefreshVtxo>)
    ensures
        vtxo_sum(vtxos) == vtxos.fold_left(0, |sum: int, vtxo: RefreshVtxo| sum + vtxo.amount),
    decreases vtxos.len(),
{
    if vtxos.len() > 0 {
        lemma_vtxo_sum_is_a_sum(vtxos.drop_last());
    }
}

/// A refresh pays all that its VTXOs hold back to the contract under the server's active key,
/// and nothing to anyone else. It spends exactly the VTXOs that were asked for, each through
/// the leaf of the two parties of the signer set and the server, and gives up those that
/// have not been swept and reach the dust limit.
pub proof fn lemma_refresh_pays_back_all(
    contract: &EscrowContract,
    vtxos: &[RefreshVtxo],
    signer_set: SignerSet,
    cosigner_pk: &PublicKey,
    server_info: &ServerInfo,
    refresh: RefreshIntent,
)
    requires
        call_ensures(
            prepare_refresh,
            (contract, vtxos, signer_set, cosigner_pk, server_info),
            Ok::<RefreshIntent, RefreshError>(refresh),
        ),
    ensures
        ({
            let options = contract.terms();
            let active = EscrowOptions {
                server: server_info.signer_pk.without_parity(),
                ..options
            };
            let total = vtxos@.fold_left(0, |sum: int, vtxo: RefreshVtxo| sum + vtxo.amount);
            settles_vtxos(
                Delegate {
                    intent: refresh.intent,
                    forfeit_psbts: refresh.forfeit_psbts,
                    delegate_cosigner_pk: refresh.refresh_cosigner_pk,
                },
                vtxos@.map_values(
                    |vtxo: RefreshVtxo|
                        IntentInputView {
                            spend: SpendInputView {
                                spend_script: leaf_of_parties(signer_set, options),
                                control_block: options.control_blocks()[leaf_of_parties(
                                    signer_set,
                                    options,
                                )],
                                tapscripts: options.leaves(),
                                script_pubkey: options.output_script(),
                                amount: vtxo.amount,
                                outpoint: (vtxo.outpoint.txid@, vtxo.outpoint.vout),
                            },
                            is_swept: vtxo.is_swept,
                        },
                ),
                seq![(total as u64, active.output_script())],
                cosigner_pk@,
                onchain_script(server_info.forfeit_address@)->0,
                server_info.dust,
            )
        }),
{
    let options = contract.terms();
    lemma_vtxo_sum_is_a_sum(vtxos@);
    lemma_leaf_of_parties(signer_set, options);
    let inputs = vtxos@.map_values(|vtxo: RefreshVtxo| settled_input(options, vtxo, signer_set));
    let outputs = seq![
        (vtxo_sum(vtxos@) as u64, active_options(options, *server_info).output_script()),
    ];
    lemma_settling_is_settling_vtxos(
        refresh.as_delegate(),
        inputs,
        outputs,
        cosigner_pk@,
        onchain_script(server_info.forfeit_address@)->0,
        server_info.dust,
    );
    assert(inputs =~= vtxos@.map_values(
        |vtxo: RefreshVtxo|
            IntentInputView {
                spend: SpendInputView {
                    spend_script: leaf_of_parties(signer_set, options),
                    control_block: options.control_blocks()[leaf_of_parties(signer_set, options)],
                    tapscripts: options.leaves(),
                    script_pubkey: options.output_script(),
                    amount: vtxo.amount,
                    outpoint: (vtxo.outpoint.txid@, vtxo.outpoint.vout),
                },
                is_swept: vtxo.is_swept,
            },
    ));
}

/// Signing a refresh signs its proof and every forfeit for the key pair, and changes nothing
/// else. It succeeds whenever all outputs that they spend are known.
pub proof fn lemma_refresh_is_signed(
    refresh: &mut RefreshIntent,
    keypair: &Keypair,
    signed: Result<(), RefreshError>,
)
    requires
        call_ensures(sign_refresh, (refresh, keypair), signed),
    ensures
        signed is Ok <==> can_all_be_signed(
            psbt_view(old(refresh).intent.proof),
            psbt_views(old(refresh).forfeit_psbts@),
        ),
        signed is Ok ==> signs_everything(
            psbt_view(old(refresh).intent.proof),
            psbt_view(final(refresh).intent.proof),
            psbt_views(old(refresh).forfeit_psbts@),
            psbt_views(final(refresh).forfeit_psbts@),
            public_key_of(keypair.secret_bytes()).subrange(1, 33),
        ),
        final(refresh).intent.message@ == old(refresh).intent.message@,
        final(refresh).refresh_cosigner_pk == old(refresh).refresh_cosigner_pk,
{
    lemma_signed_is_signed(
        psbt_view(old(refresh).intent.proof),
        psbt_views(old(refresh).forfeit_psbts@),
        keypair.secret_bytes(),
    );
}

/// A refresh that names the leaves that it is signed for is signed in the same way, and one
/// that does not is left as it was.
pub proof fn lemma_refresh_is_signed_or_kept(
    refresh: &mut RefreshIntent,
    keypair: &Keypair,
    signed: Option<Result<(), RefreshError>>,
)
    requires
        call_ensures(try_sign_refresh, (refresh, keypair), signed),
    ensures
        signed is None ==> *final(refresh) == *old(refresh),
        signed is None <==> !can_sign_delegate(
            psbt_view(old(refresh).intent.proof),
            psbt_views(old(refresh).forfeit_psbts@),
        ),
        names_all_leaves(
            psbt_view(old(refresh).intent.proof),
            psbt_views(old(refresh).forfeit_psbts@),
        ) ==> signed is Some,
        signed is Some ==> (signed->0 is Ok <==> can_all_be_signed(
            psbt_view(old(refresh).intent.proof),
            psbt_views(old(refresh).forfeit_psbts@),
        )),
        signed is Some && signed->0 is Ok ==> signs_everything(
            psbt_view(old(refresh).intent.proof),
            psbt_view(final(refresh).intent.proof),
            psbt_views(old(refresh).forfeit_psbts@),
            psbt_views(final(refresh).forfeit_psbts@),
            public_key_of(keypair.secret_bytes()).subrange(1, 33),
        ) && final(refresh).intent.message@ == old(refresh).intent.message@
            && final(refresh).refresh_cosigner_pk == old(refresh).refresh_cosigner_pk,
{
    lemma_signed_is_signed(
        psbt_view(old(refresh).intent.proof),
        psbt_views(old(refresh).forfeit_psbts@),
        keypair.secret_bytes(),
    );
}

/// VTXOs fit exactly if they do not hold more together than can be written, and can be given up
/// exactly if each that is given up can be written together with the dust limit.
pub proof fn lemma_vtxos_fit_their_sum(vtxos: &[RefreshVtxo], dust: u64, fits: bool, can: bool)
    requires
        call_ensures(sum_fits, (vtxos,), fits),
        call_ensures(can_forfeit, (vtxos, dust), can),
    ensures
        fits <==> vtxos@.fold_left(0, |sum: int, vtxo: RefreshVtxo| sum + vtxo.amount) <= u64::MAX,
        can <==> forall|i: int|
            0 <= i < vtxos@.len() && !(#[trigger] vtxos@[i]).is_swept && vtxos@[i].amount >= dust
                ==> vtxos@[i].amount <= u64::MAX - dust,
{
    lemma_vtxo_sum_is_a_sum(vtxos@);
}

/// A refresh of VTXOs of several contracts spends each through its own contract, and pays all
/// that they hold to the contract that is given for the output, under the server's active key.
pub proof fn lemma_refresh_of_several_pays_all<'a>(
    output_template_contract: &EscrowContract,
    inputs: &Vec<RefreshInput<'a>>,
    signer_set: SignerSet,
    cosigner_pk: &PublicKey,
    server_info: &ServerInfo,
    refresh: Result<RefreshIntent, RefreshError>,
)
    requires
        call_ensures(
            prepare_refresh_resolved,
            (output_template_contract, inputs, signer_set, cosigner_pk, server_info),
            refresh,
        ),
    ensures
        ({
            let active = EscrowOptions {
                server: server_info.signer_pk.without_parity(),
                ..output_template_contract.terms()
            };
            let total = inputs@.fold_left(
                0,
                |sum: int, input: RefreshInput<'a>| sum + input.vtxo.amount,
            );
            let outputs = seq![(total as u64, active.output_script())];
            let spent = inputs@.map_values(
                |input: RefreshInput<'a>|
                    IntentInputView {
                        spend: SpendInputView {
                            spend_script: leaf_of_parties(signer_set, input.contract.terms()),
                            control_block: input.contract.terms().control_blocks()[leaf_of_parties(
                                signer_set,
                                input.contract.terms(),
                            )],
                            tapscripts: input.contract.terms().leaves(),
                            script_pubkey: input.contract.terms().output_script(),
                            amount: input.vtxo.amount,
                            outpoint: (input.vtxo.outpoint.txid@, input.vtxo.outpoint.vout),
                        },
                        is_swept: input.vtxo.is_swept,
                    },
            );
            match refresh {
                Ok(r) => {
                    &&& inputs@.len() > 0
                    &&& active.keys_are_distinct()
                    &&& settles_vtxos(
                        Delegate {
                            intent: r.intent,
                            forfeit_psbts: r.forfeit_psbts,
                            delegate_cosigner_pk: r.refresh_cosigner_pk,
                        },
                        spent,
                        outputs,
                        cosigner_pk@,
                        onchain_script(server_info.forfeit_address@)->0,
                        server_info.dust,
                    )
                },
                Err(RefreshError::Prepare(error)) => {
                    &&& active.keys_are_distinct()
                    &&& refuses(
                        spent,
                        outputs,
                        cosigner_pk@,
                        server_info.forfeit_address@,
                        server_info.dust,
                        error,
                    )
                },
                Err(RefreshError::Contract(error)) => {
                    error is DuplicateKeys && !active.keys_are_distinct()
                },
                Err(RefreshError::Sign(_)) => false,
            }
        }),
{
    let options = output_template_contract.terms();
    lemma_input_sum(inputs@);
    let settled = settled_inputs(inputs@, signer_set);
    assert forall|i: int| 0 <= i < inputs@.len() implies settled[i].spend.spend_script
        == leaf_of_parties(signer_set, (#[trigger] inputs@[i]).contract.terms()) by {
        lemma_leaf_of_parties(signer_set, inputs@[i].contract.terms());
    }
    assert(settled =~= inputs@.map_values(
        |input: RefreshInput<'a>|
            IntentInputView {
                spend: SpendInputView {
                    spend_script: leaf_of_parties(signer_set, input.contract.terms()),
                    control_block: input.contract.terms().control_blocks()[leaf_of_parties(
                        signer_set,
                        input.contract.terms(),
                    )],
                    tapscripts: input.contract.terms().leaves(),
                    script_pubkey: input.contract.terms().output_script(),
                    amount: input.vtxo.amount,
                    outpoint: (input.vtxo.outpoint.txid@, input.vtxo.outpoint.vout),
                },
                is_swept: input.vtxo.is_swept,
            },
    ));
    if let Ok(r) = refresh {
        lemma_settling_is_settling_vtxos(
            r.as_delegate(),
            settled,
            seq![
                (
                    vtxo_sum(input_vtxos(inputs@)) as u64,
                    active_options(options, *server_info).output_script(),
                ),
            ],
            cosigner_pk@,
            onchain_script(server_info.forfeit_address@)->0,
            server_info.dust,
        );
    }
}

proof fn lemma_input_sum<'a>(inputs: Seq<RefreshInput<'a>>)
    ensures
        vtxo_sum(input_vtxos(inputs)) == inputs.fold_left(
            0,
            |sum: int, input: RefreshInput<'a>| sum + input.vtxo.amount,
        ),
    decreases inputs.len(),
{
    if inputs.len() > 0 {
        lemma_input_sum(inputs.drop_last());
        assert(input_vtxos(inputs).drop_last() =~= input_vtxos(inputs.drop_last()));
        assert(input_vtxos(inputs).last() == *inputs.last().vtxo);
    }
}

/// A refresh becomes a delegate and comes back from it with nothing changed.
pub proof fn lemma_refresh_survives_settlement(
    refresh: RefreshIntent,
    delegate: Delegate,
    back: RefreshIntent,
)
    requires
        call_ensures(RefreshIntent::into_delegate, (refresh,), delegate),
        call_ensures(RefreshIntent::from_delegate, (delegate,), back),
    ensures
        delegate.intent == refresh.intent,
        delegate.forfeit_psbts == refresh.forfeit_psbts,
        delegate.delegate_cosigner_pk == refresh.refresh_cosigner_pk,
        back == refresh,
{
}

} // verus!
