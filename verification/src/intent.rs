//! Settling VTXOs in a batch: the intent that proves them, and the forfeits that
//! give them up.

use ark_core::{batch, intent};
use bitcoin::Psbt;
use vstd::prelude::*;

use crate::contract::script_views;
use crate::keys::{
    public_key_of, schnorr_signature, x_only_of, x_only_signature, Keypair, PublicKey,
};
use crate::offchain::{
    anchor, flat_len, frame_outputs, leaf_hash, signable_for, unsigned_input, SpendInputView,
};
use crate::psbt::{
    frame_spends, has_witness_utxo, input_count, input_leaf_hash, merge_inputs, other_maps,
    psbt_frame, psbt_inputs, psbt_view, psbt_views, read_has_witness_utxo, read_leaf_hash,
    reads_back, script_spend_digest, sign_input, spend_count, witness_utxo, InputView, PsbtView,
    SigKey,
};
use crate::server::{onchain_script, OnchainAddress};
use crate::taproot::is_control_block;
use crate::text::{decimal, lower_hex};
use crate::tx::OutPoint;
use crate::lemma_filter_of_map;

verus! {

/// `ark_core::intent::Input`.
#[verifier::external_type_specification]
#[verifier::external_body]
pub struct ExIntentInput(intent::Input);

// -- Inputs --

/// A VTXO that is settled, and the leaf that it is spent through.
#[verifier::ext_equal]
pub struct IntentInputView {
    pub spend: SpendInputView,
    pub is_swept: bool,
}

/// What `ark_core::intent::Input::new` makes of a VTXO without lock-times and assets.
pub uninterp spec fn outside_intent_input(input: IntentInputView) -> intent::Input;

/// Calls `ark_core::intent::Input::new` for an offchain input without lock-times and
/// without assets.
///
/// Claimed of it: the input is determined by what it is made of.
#[verifier::external_body]
fn new_intent_input(
    spend_script: &Vec<u8>,
    control_block: &Vec<u8>,
    tapscripts: &Vec<Vec<u8>>,
    script_pubkey: &Vec<u8>,
    amount: u64,
    outpoint: OutPoint,
    is_swept: bool,
) -> (input: intent::Input)
    requires
        is_control_block(control_block@),
    ensures
        input == outside_intent_input(
            IntentInputView {
                spend: SpendInputView {
                    spend_script: spend_script@,
                    control_block: control_block@,
                    tapscripts: script_views(tapscripts@),
                    script_pubkey: script_pubkey@,
                    amount,
                    outpoint: outpoint@,
                },
                is_swept,
            },
        ),
{
    let script = |bytes: &Vec<u8>| bitcoin::ScriptBuf::from_bytes(bytes.clone());
    let block = bitcoin::taproot::ControlBlock::decode(control_block).expect("a control block");
    let value = bitcoin::Amount::from_sat(amount);
    intent::Input::new(
        outpoint.to_string().parse().expect("an outpoint"),
        bitcoin::Sequence::ZERO,
        None,
        bitcoin::TxOut { value, script_pubkey: script(script_pubkey) },
        tapscripts.iter().map(script).collect(),
        (script(spend_script), block),
        false,
        is_swept,
        Vec::new(),
    )
}

/// A VTXO that is settled, and the leaf that it is spent through.
pub struct IntentInput {
    spend_script: Vec<u8>,
    control_block: Vec<u8>,
    tapscripts: Vec<Vec<u8>>,
    script_pubkey: Vec<u8>,
    amount: u64,
    outpoint: OutPoint,
    is_swept: bool,
    prepared: intent::Input,
}

impl View for IntentInput {
    type V = IntentInputView;

    closed spec fn view(&self) -> IntentInputView {
        IntentInputView {
            spend: SpendInputView {
                spend_script: self.spend_script@,
                control_block: self.control_block@,
                tapscripts: script_views(self.tapscripts@),
                script_pubkey: self.script_pubkey@,
                amount: self.amount,
                outpoint: self.outpoint@,
            },
            is_swept: self.is_swept,
        }
    }
}

impl IntentInput {
    #[verifier::type_invariant]
    spec fn well_formed(self) -> bool {
        self.prepared == outside_intent_input(self@)
    }

    /// An input that settles `outpoint` through a leaf script.
    pub fn new(
        spend_script: Vec<u8>,
        control_block: Vec<u8>,
        tapscripts: Vec<Vec<u8>>,
        script_pubkey: Vec<u8>,
        amount: u64,
        outpoint: OutPoint,
        is_swept: bool,
    ) -> (input: IntentInput)
        requires
            is_control_block(control_block@),
        ensures
            input@ == (IntentInputView {
                spend: SpendInputView {
                    spend_script: spend_script@,
                    control_block: control_block@,
                    tapscripts: script_views(tapscripts@),
                    script_pubkey: script_pubkey@,
                    amount,
                    outpoint: outpoint@,
                },
                is_swept,
            }),
    {
        let prepared = new_intent_input(
            &spend_script,
            &control_block,
            &tapscripts,
            &script_pubkey,
            amount,
            outpoint,
            is_swept,
        );
        IntentInput {
            spend_script,
            control_block,
            tapscripts,
            script_pubkey,
            amount,
            outpoint,
            is_swept,
            prepared,
        }
    }
}

/// What some inputs say.
pub open spec fn input_views(inputs: Seq<IntentInput>) -> Seq<IntentInputView> {
    inputs.map_values(|input: IntentInput| input@)
}

/// An output of a batch.
pub struct IntentOutput {
    /// In satoshis.
    pub amount: u64,
    pub script_pubkey: Vec<u8>,
}

impl View for IntentOutput {
    type V = (u64, Seq<u8>);

    open spec fn view(&self) -> (u64, Seq<u8>) {
        (self.amount, self.script_pubkey@)
    }
}

/// What some outputs say.
pub open spec fn output_views(outputs: Seq<IntentOutput>) -> Seq<(u64, Seq<u8>)> {
    outputs.map_values(|output: IntentOutput| output@)
}

// -- Preparing --

/// A registration that waits to be signed: a proof of the VTXOs, and the message
/// that it is for.
pub struct Intent {
    pub proof: Psbt,
    /// The message, as JSON.
    pub message: String,
}

/// All that another party needs to settle VTXOs for their owners.
pub struct Delegate {
    pub intent: Intent,
    /// What gives up the VTXOs, once a connector is added.
    pub forfeit_psbts: Vec<Psbt>,
    /// The key of the party that settles.
    pub delegate_cosigner_pk: PublicKey,
}

/// The message by which a batch of offchain outputs is registered from `now` on,
/// for two minutes, with one cosigner.
pub open spec fn register_message(now: nat, cosigner: Seq<u8>) -> Seq<char> {
    "{\"type\":\"register\",\"onchain_output_indexes\":[],\"valid_at\":"@ + decimal(now)
        + ",\"expire_at\":"@ + decimal(now + 120) + ",\"cosigners_public_keys\":[\""@ + lower_hex(
        cosigner,
    ) + "\"]}"@
}

/// Whether a text is an `ark_core::intent::IntentMessage` in JSON.
pub uninterp spec fn is_intent_message(json: Seq<char>) -> bool;

/// Calls `serde_json::from_str` for an `ark_core::intent::IntentMessage`.
///
/// Claimed of it: whether it accepts a text depends on the text alone.
#[verifier::external_body]
pub(crate) fn reads_intent_message(json: &str) -> (reads: bool)
    ensures
        reads == is_intent_message(json@),
{
    serde_json::from_str::<intent::IntentMessage>(json).is_ok()
}

/// The frame of the proof that `prepare_delegate_psbts` makes for a message.
pub uninterp spec fn proof_frame(
    message: Seq<char>,
    inputs: Seq<IntentInputView>,
    outputs: Seq<(u64, Seq<u8>)>,
) -> Seq<u8>;

/// The map of the input of a proof that carries the message, without signatures and
/// witness script. It is made like the first VTXO.
pub uninterp spec fn message_input(first: SpendInputView) -> Seq<u8>;

/// The map of the input of a proof that spends a VTXO, without signatures and witness
/// script.
pub uninterp spec fn proof_input(input: SpendInputView) -> Seq<u8>;

/// Whether `proof` proves `inputs` for `outputs` under a message: behind an input that
/// carries the message, it spends each of them for its amount and locking script, and
/// it waits for signatures on all.
pub open spec fn proves(
    proof: Psbt,
    message: Seq<char>,
    inputs: Seq<IntentInputView>,
    outputs: Seq<(u64, Seq<u8>)>,
) -> bool {
    &&& psbt_frame(proof) == proof_frame(message, inputs, outputs)
    &&& psbt_inputs(proof)[0].other == message_input(inputs[0].spend)
    &&& witness_utxo(psbt_inputs(proof)[0].other) == Some((0u64, inputs[0].spend.script_pubkey))
    &&& forall|i: int|
        0 <= i < inputs.len() ==> {
            let spend = (#[trigger] inputs[i]).spend;
            &&& psbt_inputs(proof)[i + 1].other == proof_input(spend)
            &&& witness_utxo(psbt_inputs(proof)[i + 1].other) == Some(
                (spend.amount, spend.script_pubkey),
            )
        }
    &&& psbt_inputs(proof).len() == inputs.len() + 1
    &&& frame_spends(psbt_frame(proof)).len() == inputs.len() + 1
    &&& frame_outputs(psbt_frame(proof)) == outputs
    &&& forall|i: int|
        0 <= i < inputs.len() ==> frame_spends(psbt_frame(proof))[i + 1] == (
        #[trigger] inputs[i]).spend.outpoint
    &&& forall|i: int|
        0 <= i <= inputs.len() ==> {
            let script = inputs[if i == 0 { 0 } else { i - 1 }].spend.spend_script;
            let input = #[trigger] psbt_inputs(proof)[i];
            input == unsigned_input(script, input.other) && signable_for(input.other, script)
        }
}

/// Whether a VTXO is given up by a forfeit: it has not been swept, and it reaches
/// the dust limit.
pub open spec fn is_forfeited(input: IntentInputView, dust: u64) -> bool {
    !input.is_swept && input.spend.amount >= dust
}

/// The inputs that are given up by forfeits, in their order.
pub open spec fn forfeited(inputs: Seq<IntentInputView>, dust: u64) -> Seq<IntentInputView> {
    inputs.filter(|input: IntentInputView| is_forfeited(input, dust))
}

/// The frame of a forfeit transaction before its connector is added.
pub uninterp spec fn forfeit_frame(
    outpoint: (Seq<u8>, u32),
    value: u64,
    script: Seq<u8>,
) -> Seq<u8>;

/// The map of the input of a forfeit transaction, without signatures and witness
/// script.
pub uninterp spec fn forfeit_input(input: SpendInputView) -> Seq<u8>;

/// Whether `forfeit` gives up a VTXO: it pays the VTXO and a connector of the dust
/// limit to the server, and waits for signatures.
pub open spec fn forfeits(
    forfeit: Psbt,
    input: IntentInputView,
    forfeit_script: Seq<u8>,
    dust: u64,
) -> bool {
    let value = (input.spend.amount + dust) as u64;
    &&& psbt_frame(forfeit) == forfeit_frame(input.spend.outpoint, value, forfeit_script)
    &&& frame_spends(psbt_frame(forfeit)) == seq![input.spend.outpoint]
    &&& frame_outputs(psbt_frame(forfeit)) == seq![(value, forfeit_script), anchor()]
    &&& psbt_inputs(forfeit) == seq![
        unsigned_input(input.spend.spend_script, forfeit_input(input.spend)),
    ]
    &&& signable_for(forfeit_input(input.spend), input.spend.spend_script)
    &&& witness_utxo(forfeit_input(input.spend)) == Some(
        (input.spend.amount, input.spend.script_pubkey),
    )
}

/// Whether `delegate` settles `inputs` into `outputs`.
pub open spec fn settles(
    delegate: Delegate,
    inputs: Seq<IntentInputView>,
    outputs: Seq<(u64, Seq<u8>)>,
    cosigner: Seq<u8>,
    forfeit_script: Seq<u8>,
    dust: u64,
) -> bool {
    let given_up = forfeited(inputs, dust);
    &&& proves(delegate.intent.proof, delegate.intent.message@, inputs, outputs)
    &&& exists|now: nat| delegate.intent.message@ == #[trigger] register_message(now, cosigner)
    &&& delegate.forfeit_psbts.len() == given_up.len()
    &&& forall|i: int|
        0 <= i < given_up.len() ==> forfeits(
            #[trigger] delegate.forfeit_psbts@[i],
            given_up[i],
            forfeit_script,
            dust,
        )
    &&& delegate.delegate_cosigner_pk@ == cosigner
}

/// Whether no value in the transactions of a settlement gets longer than what is read
/// again: four million bytes.
pub open spec fn is_short_settlement(
    inputs: Seq<IntentInputView>,
    outputs: Seq<(u64, Seq<u8>)>,
) -> bool {
    &&& inputs.len() <= 10_000
    &&& outputs.len() <= 10_000
    &&& flat_len(outputs.map_values(|output: (u64, Seq<u8>)| output.1)) <= 1_000_000
    &&& forall|i: int|
        0 <= i < inputs.len() ==> {
            let spend = (#[trigger] inputs[i]).spend;
            &&& spend.tapscripts.len() <= 10_000
            &&& spend.spend_script.len() + flat_len(spend.tapscripts) + spend.script_pubkey.len()
                <= 1_000_000
        }
}

/// Whether a proof and forfeits read back from their bytes.
pub open spec fn all_read_back(proof: Psbt, forfeit_psbts: Seq<Psbt>) -> bool {
    &&& reads_back(proof)
    &&& forall|i: int| 0 <= i < forfeit_psbts.len() ==> reads_back(#[trigger] forfeit_psbts[i])
}

/// Calls `ark_core::batch::prepare_delegate_psbts` with offchain outputs, and
/// `ark_core::intent::Intent::serialize_message` on the intent that it makes.
///
/// Claimed of them: without inputs there is nothing to prepare. Otherwise they fail
/// only if the clock stands before 1970, so that success is not claimed of any
/// arguments. What they prepare proves all inputs for the outputs, under a message that
/// names the cosigner and the time, and gives up the VTXOs that have not been swept and
/// reach the dust limit. The proof is determined by the message, the inputs and the
/// outputs: each of its inputs by one VTXO, whose amount and locking script it carries;
/// the one in front carries the first VTXO's script and no amount. The time decides on
/// nothing but the message. The PSBTs read back from their bytes unless they are too
/// long for it.
#[verifier::external_body]
fn prepare(
    inputs: &Vec<IntentInput>,
    outputs: &Vec<IntentOutput>,
    cosigner: [u8; 33],
    forfeit_address: &OnchainAddress,
    dust: u64,
) -> (prepared: Result<(Psbt, String, Vec<Psbt>), ark_core::Error>)
    requires
        outputs.len() > 0,
        crate::keys::is_public_key(cosigner@),
        forall|i: int|
            0 <= i < inputs.len() && is_forfeited((#[trigger] inputs@[i])@, dust)
                ==> inputs@[i]@.spend.amount + dust <= u64::MAX,
    ensures
        inputs.len() == 0 ==> prepared is Err,
        prepared matches Ok((proof, message, forfeit_psbts)) ==> {
            let given_up = forfeited(input_views(inputs@), dust);
            let script = onchain_script(forfeit_address@)->0;
            &&& proves(proof, message@, input_views(inputs@), output_views(outputs@))
            &&& psbt_frame(proof) == proof_frame(
                message@,
                input_views(inputs@),
                output_views(outputs@),
            )
            &&& psbt_inputs(proof)[0].other == message_input(input_views(inputs@)[0].spend)
            &&& forall|i: int|
                0 <= i < inputs.len() ==> psbt_inputs(proof)[i + 1].other == proof_input(
                    (#[trigger] input_views(inputs@)[i]).spend,
                )
            &&& exists|now: nat| message@ == #[trigger] register_message(now, cosigner@)
            &&& forfeit_psbts.len() == given_up.len()
            &&& forall|i: int|
                0 <= i < given_up.len() ==> {
                    let value = (given_up[i].spend.amount + dust) as u64;
                    &&& forfeits(#[trigger] forfeit_psbts@[i], given_up[i], script, dust)
                    &&& psbt_frame(forfeit_psbts@[i]) == forfeit_frame(
                        given_up[i].spend.outpoint,
                        value,
                        script,
                    )
                    &&& psbt_inputs(forfeit_psbts@[i])[0].other == forfeit_input(given_up[i].spend)
                }
            &&& is_short_settlement(input_views(inputs@), output_views(outputs@)) ==> all_read_back(
                proof,
                forfeit_psbts@,
            )
        },
{
    let pay = |to: &IntentOutput| intent::Output::Offchain(bitcoin::TxOut {
        value: bitcoin::Amount::from_sat(to.amount),
        script_pubkey: to.script_pubkey.clone().into(),
    });
    let address: bitcoin::Address<_> = forfeit_address.as_text().parse().expect("an address");
    let d = batch::prepare_delegate_psbts(
        inputs.iter().map(|input| input.prepared.clone()).collect(),
        outputs.iter().map(pay).collect(),
        bitcoin::secp256k1::PublicKey::from_slice(&cosigner).expect("a public key"),
        &address.assume_checked(),
        bitcoin::Amount::from_sat(dust),
    )?;
    let message = d.intent.serialize_message()?;
    Ok((d.intent.proof, message, d.forfeit_psbts))
}

/// Whether `error` is what the outside call answered when it was asked to settle exactly
/// these inputs into exactly these outputs. Without inputs it always answers so. With
/// inputs there is one reason for it: a clock that stands before 1970.
pub closed spec fn refuses(
    inputs: Seq<IntentInputView>,
    outputs: Seq<(u64, Seq<u8>)>,
    cosigner: Seq<u8>,
    forfeit_address: Seq<char>,
    dust: u64,
    error: ark_core::Error,
) -> bool {
    exists|
        given: Vec<IntentInput>,
        paid: Vec<IntentOutput>,
        key: [u8; 33],
        address: OnchainAddress,
    |
        {
            &&& input_views(given@) == inputs
            &&& output_views(paid@) == outputs
            &&& key@ == cosigner
            &&& address@ == forfeit_address
            &&& #[trigger] call_ensures(
                prepare,
                (&given, &paid, key, &address, dust),
                Err::<(Psbt, String, Vec<Psbt>), ark_core::Error>(error),
            )
        }
}

/// The delegate of a proof, its message and its forfeits, if these were prepared, and
/// otherwise the error that came in their place.
pub fn delegate_of(
    prepared: Result<(Psbt, String, Vec<Psbt>), ark_core::Error>,
    cosigner_pk: &PublicKey,
) -> (delegate: Result<Delegate, ark_core::Error>)
    ensures
        match prepared {
            Ok((proof, message, forfeit_psbts)) => delegate == Ok::<Delegate, ark_core::Error>(
                (Delegate {
                    intent: Intent { proof, message },
                    forfeit_psbts,
                    delegate_cosigner_pk: *cosigner_pk,
                }),
            ),
            Err(error) => delegate == Err::<Delegate, ark_core::Error>(error),
        },
{
    match prepared {
        Ok((proof, message, forfeit_psbts)) => Ok(
            Delegate {
                intent: Intent { proof, message },
                forfeit_psbts,
                delegate_cosigner_pk: *cosigner_pk,
            },
        ),
        Err(error) => Err(error),
    }
}

/// Prepares the settlement of `inputs` into `outputs`, unsigned.
///
/// Whether it succeeds with inputs rests with the clock: it does unless that stands
/// before 1970.
pub fn prepare_delegate_psbts(
    inputs: &Vec<IntentInput>,
    outputs: &Vec<IntentOutput>,
    cosigner_pk: &PublicKey,
    forfeit_address: &OnchainAddress,
    dust: u64,
) -> (delegate: Result<Delegate, ark_core::Error>)
    requires
        outputs.len() > 0,
        forall|i: int|
            0 <= i < inputs.len() && is_forfeited((#[trigger] inputs@[i])@, dust)
                ==> inputs@[i]@.spend.amount + dust <= u64::MAX,
    ensures
        inputs.len() == 0 ==> delegate is Err,
        delegate matches Err(error) ==> refuses(
            input_views(inputs@),
            output_views(outputs@),
            cosigner_pk@,
            forfeit_address@,
            dust,
            error,
        ),
        delegate matches Ok(d) ==> settles(
            d,
            input_views(inputs@),
            output_views(outputs@),
            cosigner_pk@,
            onchain_script(forfeit_address@)->0,
            dust,
        ),
        delegate matches Ok(d) ==> is_short_settlement(
            input_views(inputs@),
            output_views(outputs@),
        ) ==> all_read_back(d.intent.proof, d.forfeit_psbts@),
{
    let prepared = prepare(inputs, outputs, cosigner_pk.serialize(), forfeit_address, dust);
    delegate_of(prepared, cosigner_pk)
}

// -- Signing --

/// The digest that
/// `bitcoin::sighash::SighashCache::taproot_script_spend_signature_hash` computes for
/// the first input of the transaction of a frame, when others may add inputs.
pub uninterp spec fn forfeit_digest(frame: Seq<u8>, others: Seq<Seq<u8>>) -> Seq<u8>;

/// How many of some inputs have a `witness_utxo`.
pub open spec fn utxo_count(inputs: Seq<InputView>) -> nat {
    inputs.filter(|input: InputView| has_witness_utxo(input.other)).len()
}

/// Whether an input names the leaf that it is signed for.
pub open spec fn has_leaf(input: InputView) -> bool {
    input_leaf_hash(input.other) is Some
}

/// Whether the leaves of a proof can be read as far as its signing gets: it stops at
/// the first input unless the outputs that are known are as many as the inputs of the
/// transaction.
pub open spec fn proof_has_leaves(frame: Seq<u8>, inputs: Seq<InputView>) -> bool {
    if utxo_count(inputs) != frame_spends(frame).len() {
        inputs.len() > 0 ==> has_leaf(inputs[0])
    } else {
        forall|i: int| 0 <= i < inputs.len() ==> has_leaf(#[trigger] inputs[i])
    }
}

/// Whether the first input of a forfeit names the leaf that it is signed for.
pub open spec fn forfeit_has_leaf(inputs: Seq<InputView>) -> bool {
    inputs.len() > 0 && has_leaf(inputs[0])
}

/// Whether the signatures of a proof can be computed: as many outputs are known as the
/// transaction spends.
pub open spec fn proof_is_complete(frame: Seq<u8>, inputs: Seq<InputView>) -> bool {
    inputs.len() == 0 || utxo_count(inputs) == frame_spends(frame).len()
}

/// Whether the signature of a forfeit can be computed.
pub open spec fn forfeit_is_complete(frame: Seq<u8>, inputs: Seq<InputView>) -> bool {
    0 < frame_spends(frame).len() == utxo_count(inputs)
}

/// The inputs of a proof once a key pair has signed all of them.
pub open spec fn proof_signed(
    frame: Seq<u8>,
    inputs: Seq<InputView>,
    secret: Seq<u8>,
) -> Seq<InputView> {
    Seq::new(
        inputs.len(),
        |i: int|
            InputView {
                sigs: inputs[i].sigs.insert(
                    (x_only_of(secret), input_leaf_hash(inputs[i].other)->0),
                    schnorr_signature(
                        secret,
                        script_spend_digest(frame, other_maps(inputs), i),
                    ),
                ),
                ..inputs[i]
            },
    )
}

/// The inputs of a forfeit once a key pair has signed the first. The last byte of
/// the signature says that others may add inputs.
pub open spec fn forfeit_signed(
    frame: Seq<u8>,
    inputs: Seq<InputView>,
    secret: Seq<u8>,
) -> Seq<InputView> {
    sign_input(
        inputs,
        0,
        x_only_of(secret),
        schnorr_signature(
            secret,
            forfeit_digest(frame, other_maps(inputs)),
        ).push(0x81u8),
    )
}

/// Each forfeit once a key pair has signed it.
pub open spec fn forfeits_signed(views: Seq<PsbtView>, secret: Seq<u8>) -> Seq<PsbtView> {
    views.map_values(
        |view: PsbtView|
            PsbtView { inputs: forfeit_signed(view.frame, view.inputs, secret), ..view },
    )
}

/// Whether the leaves of forfeits can be read as far as their signing gets: it stops
/// at the first that is not complete.
pub open spec fn forfeits_have_leaves(views: Seq<PsbtView>) -> bool {
    forall|i: int|
        0 <= i < views.len() && forfeits_are_complete(views.take(i)) ==> forfeit_has_leaf(
            (#[trigger] views[i]).inputs,
        )
}

/// Whether the signatures of all forfeits can be computed.
pub open spec fn forfeits_are_complete(views: Seq<PsbtView>) -> bool {
    forall|i: int|
        0 <= i < views.len() ==> forfeit_is_complete(
            (#[trigger] views[i]).frame,
            views[i].inputs,
        )
}

/// Whether two PSBTs differ in their signatures at most.
pub open spec fn same_but_sigs(a: PsbtView, b: PsbtView) -> bool {
    &&& a.frame == b.frame
    &&& a.inputs.len() == b.inputs.len()
    &&& forall|i: int|
        0 <= i < a.inputs.len() ==> (#[trigger] a.inputs[i]).other == b.inputs[i].other
            && a.inputs[i].witness_script == b.inputs[i].witness_script
}

/// Calls `ark_core::batch::sign_delegate_psbts`.
///
/// Claimed of it: it succeeds exactly if the outputs that are spent are known
/// throughout, and then files a signature on every input of the proof and on the
/// first input of every forfeit. These are determined by the transaction and the
/// inputs. Where it fails, some of the signatures may have been filed, and nothing
/// else has changed. A PSBT that reads back from its bytes still does.
#[verifier::external_body]
fn sign(proof: &mut Psbt, forfeit_psbts: &mut Vec<Psbt>, keypair: &Keypair) -> (signed: Result<
    (),
    ark_core::Error,
>)
    requires
        can_sign_delegate(psbt_view(*old(proof)), psbt_views(old(forfeit_psbts)@)),
    ensures
        signed is Ok <==> proof_is_complete(psbt_frame(*old(proof)), psbt_inputs(*old(proof)))
            && forfeits_are_complete(psbt_views(old(forfeit_psbts)@)),
        signed is Ok ==> {
            &&& psbt_view(*final(proof)) == (PsbtView {
                inputs: proof_signed(
                    psbt_frame(*old(proof)),
                    psbt_inputs(*old(proof)),
                    keypair.secret_bytes(),
                ),
                ..psbt_view(*old(proof))
            })
            &&& psbt_views(final(forfeit_psbts)@) == forfeits_signed(
                psbt_views(old(forfeit_psbts)@),
                keypair.secret_bytes(),
            )
            &&& forall|i: int|
                0 <= i < old(forfeit_psbts)@.len() ==> (#[trigger] psbt_inputs(
                    final(forfeit_psbts)@[i],
                ))[0].sigs.dom().contains(
                    (
                        keypair.x_only_bytes(),
                        input_leaf_hash(psbt_inputs(old(forfeit_psbts)@[i])[0].other)->0,
                    ),
                ) && psbt_inputs(final(forfeit_psbts)@[i])[0].sigs[(
                    keypair.x_only_bytes(),
                    input_leaf_hash(psbt_inputs(old(forfeit_psbts)@[i])[0].other)->0,
                )] == schnorr_signature(
                    keypair.secret_bytes(),
                    forfeit_digest(
                        psbt_frame(old(forfeit_psbts)@[i]),
                        other_maps(psbt_inputs(old(forfeit_psbts)@[i])),
                    ),
                ).push(0x81u8)
        },
        same_but_sigs(psbt_view(*final(proof)), psbt_view(*old(proof))),
        final(forfeit_psbts)@.len() == old(forfeit_psbts)@.len(),
        forall|i: int|
            0 <= i < old(forfeit_psbts)@.len() ==> same_but_sigs(
                psbt_view(#[trigger] final(forfeit_psbts)@[i]),
                psbt_view(old(forfeit_psbts)@[i]),
            ),
        reads_back(*old(proof)) ==> reads_back(*final(proof)),
        forall|i: int|
            0 <= i < old(forfeit_psbts)@.len() && reads_back(old(forfeit_psbts)@[i]) ==> reads_back(
                #[trigger] final(forfeit_psbts)@[i],
            ),
{
    let sign = |_: &mut bitcoin::psbt::Input, message: bitcoin::secp256k1::Message| {
        let (signature, key) = keypair.sign_digest(*message.as_ref());
        let signature = bitcoin::secp256k1::schnorr::Signature::from_slice(&signature);
        let key = bitcoin::XOnlyPublicKey::from_slice(&key);
        Ok(vec![(signature.expect("a signature"), key.expect("an x-only key"))])
    };
    batch::sign_delegate_psbts(sign, proof, forfeit_psbts)
}

/// Whether a proof and forfeits name the leaves that they are signed for, as far as
/// signing gets.
pub open spec fn can_sign_delegate(proof: PsbtView, forfeits: Seq<PsbtView>) -> bool {
    &&& proof_has_leaves(proof.frame, proof.inputs)
    &&& proof_is_complete(proof.frame, proof.inputs) ==> forfeits_have_leaves(forfeits)
}

/// Whether the outputs that a proof and forfeits spend are known throughout.
pub open spec fn is_complete(proof: PsbtView, forfeits: Seq<PsbtView>) -> bool {
    proof_is_complete(proof.frame, proof.inputs) && forfeits_are_complete(forfeits)
}

/// How many inputs of a PSBT have a `witness_utxo`.
fn count_utxos(psbt: &Psbt) -> (count: usize)
    ensures
        count == utxo_count(psbt_inputs(*psbt)),
        count <= psbt_inputs(*psbt).len(),
{
    let ghost inputs = psbt_inputs(*psbt);
    let total: usize = input_count(psbt);
    let mut count: usize = 0;
    let mut i: usize = 0;
    proof {
        reveal(Seq::filter);
        assert(utxo_count(inputs.take(0)) == 0);
    }
    while i < total
        invariant
            i <= total,
            total == inputs.len(),
            inputs == psbt_inputs(*psbt),
            count == utxo_count(inputs.take(i as int)),
            count <= i,
        decreases total - i,
    {
        proof {
            let next = inputs.take(i + 1);
            assert(next.drop_last() =~= inputs.take(i as int));
            assert(next.last() == inputs[i as int]);
            reveal(Seq::filter);
        }
        if read_has_witness_utxo(psbt, i) {
            count = count + 1;
        }
        i = i + 1;
    }
    assert(inputs.take(i as int) =~= inputs);
    count
}

/// Where all of some inputs have a `witness_utxo`, as many do as there are inputs.
proof fn lemma_utxo_count(inputs: Seq<InputView>)
    requires
        forall|i: int| 0 <= i < inputs.len() ==> has_witness_utxo((#[trigger] inputs[i]).other),
    ensures
        utxo_count(inputs) == inputs.len(),
    decreases inputs.len(),
{
    reveal(Seq::filter);
    if inputs.len() > 0 {
        let rest = inputs.drop_last();
        assert forall|i: int| 0 <= i < rest.len() implies has_witness_utxo(
            (#[trigger] rest[i]).other,
        ) by {
            assert(has_witness_utxo(inputs[i].other));
        }
        lemma_utxo_count(rest);
        assert(has_witness_utxo(inputs[inputs.len() - 1].other));
    }
}

/// Whether the leaves of a proof can be read as far as its signing gets, and whether
/// its signatures can be computed.
fn test_proof(psbt: &Psbt) -> (tested: (bool, bool))
    ensures
        tested.0 == proof_has_leaves(psbt_frame(*psbt), psbt_inputs(*psbt)),
        tested.1 == proof_is_complete(psbt_frame(*psbt), psbt_inputs(*psbt)),
{
    let ghost inputs = psbt_inputs(*psbt);
    let total: usize = input_count(psbt);
    if spend_count(psbt) != count_utxos(psbt) {
        return (total == 0 || read_leaf_hash(psbt, 0).is_some(), total == 0);
    }
    let mut i: usize = 0;
    while i < total
        invariant
            i <= total,
            total == inputs.len(),
            inputs == psbt_inputs(*psbt),
            utxo_count(inputs) == frame_spends(psbt_frame(*psbt)).len(),
            forall|k: int| 0 <= k < i ==> has_leaf(#[trigger] inputs[k]),
        decreases total - i,
    {
        if read_leaf_hash(psbt, i).is_none() {
            assert(!has_leaf(inputs[i as int]));
            return (false, true);
        }
        i = i + 1;
    }
    (true, true)
}

/// Whether a proof and forfeits name the leaves that they are signed for, as far as
/// signing gets.
pub fn is_signable_delegate(proof_psbt: &Psbt, forfeit_psbts: &Vec<Psbt>) -> (signable: bool)
    ensures
        signable == can_sign_delegate(psbt_view(*proof_psbt), psbt_views(forfeit_psbts@)),
{
    let (has_leaves, complete) = test_proof(proof_psbt);
    if !has_leaves || !complete {
        return has_leaves;
    }
    let ghost views = psbt_views(forfeit_psbts@);
    let mut i: usize = 0;
    while i < forfeit_psbts.len()
        invariant
            i <= forfeit_psbts.len(),
            views == psbt_views(forfeit_psbts@),
            forfeits_are_complete(views.take(i as int)),
            forall|k: int| 0 <= k < i ==> forfeit_has_leaf((#[trigger] views[k]).inputs),
            proof_has_leaves(psbt_frame(*proof_psbt), psbt_inputs(*proof_psbt)),
            proof_is_complete(psbt_frame(*proof_psbt), psbt_inputs(*proof_psbt)),
        decreases forfeit_psbts.len() - i,
    {
        let forfeit = &forfeit_psbts[i];
        assert(views[i as int] == psbt_view(*forfeit));
        if input_count(forfeit) == 0 || read_leaf_hash(forfeit, 0).is_none() {
            assert(!forfeit_has_leaf(views[i as int].inputs));
            return false;
        }
        let spent: usize = spend_count(forfeit);
        let known: usize = count_utxos(forfeit);
        if spent == 0 || spent != known {
            proof {
                assert forall|k: int|
                    0 <= k < views.len() && forfeits_are_complete(
                        views.take(k),
                    ) implies forfeit_has_leaf((#[trigger] views[k]).inputs) by {
                    if k > i {
                        assert(views.take(k)[i as int] == views[i as int]);
                    }
                }
            }
            return true;
        }
        assert forall|k: int| 0 <= k < i + 1 implies forfeit_is_complete(
            (#[trigger] views.take(i + 1)[k]).frame,
            views.take(i + 1)[k].inputs,
        ) by {
            if k < i {
                assert(views.take(i as int)[k] == views[k]);
            }
        }
        i = i + 1;
    }
    true
}

/// Signs a proof and forfeits for a key pair.
pub fn sign_delegate_psbts(
    proof: &mut Psbt,
    forfeit_psbts: &mut Vec<Psbt>,
    keypair: &Keypair,
) -> (signed: Result<(), ark_core::Error>)
    requires
        can_sign_delegate(psbt_view(*old(proof)), psbt_views(old(forfeit_psbts)@)),
    ensures
        signed is Ok <==> is_complete(psbt_view(*old(proof)), psbt_views(old(forfeit_psbts)@)),
        signed is Ok ==> {
            &&& psbt_view(*final(proof)) == (PsbtView {
                inputs: proof_signed(
                    psbt_frame(*old(proof)),
                    psbt_inputs(*old(proof)),
                    keypair.secret_bytes(),
                ),
                ..psbt_view(*old(proof))
            })
            &&& psbt_views(final(forfeit_psbts)@) == forfeits_signed(
                psbt_views(old(forfeit_psbts)@),
                keypair.secret_bytes(),
            )
        },
        same_but_sigs(psbt_view(*final(proof)), psbt_view(*old(proof))),
        final(forfeit_psbts)@.len() == old(forfeit_psbts)@.len(),
        forall|i: int|
            0 <= i < old(forfeit_psbts)@.len() ==> same_but_sigs(
                psbt_view(#[trigger] final(forfeit_psbts)@[i]),
                psbt_view(old(forfeit_psbts)@[i]),
            ),
        reads_back(*old(proof)) ==> reads_back(*final(proof)),
        forall|i: int|
            0 <= i < old(forfeit_psbts)@.len() && reads_back(old(forfeit_psbts)@[i]) ==> reads_back(
                #[trigger] final(forfeit_psbts)@[i],
            ),
{
    sign(proof, forfeit_psbts, keypair)
}

/// Whether signing for a secret key turns the delegate `before` into `after`: its proof
/// and its forfeits are signed, and nothing else changes.
pub open spec fn signs(before: Delegate, after: Delegate, secret: Seq<u8>) -> bool {
    let proof = psbt_view(before.intent.proof);
    let forfeits = psbt_views(before.forfeit_psbts@);
    &&& is_complete(proof, forfeits)
    &&& psbt_view(after.intent.proof) == (PsbtView {
        inputs: proof_signed(proof.frame, proof.inputs, secret),
        ..proof
    })
    &&& psbt_views(after.forfeit_psbts@) == forfeits_signed(forfeits, secret)
    &&& after.intent.message@ == before.intent.message@
    &&& after.delegate_cosigner_pk == before.delegate_cosigner_pk
}

/// Whether two delegates hold the same.
pub open spec fn hold_the_same(a: Delegate, b: Delegate) -> bool {
    &&& psbt_view(a.intent.proof) == psbt_view(b.intent.proof)
    &&& psbt_views(a.forfeit_psbts@) == psbt_views(b.forfeit_psbts@)
    &&& a.intent.message@ == b.intent.message@
    &&& a.delegate_cosigner_pk@ == b.delegate_cosigner_pk@
}

// -- What holds of every settlement --

/// What was prepared can be signed, and signing it succeeds.
pub proof fn lemma_prepared_is_signable(
    delegate: Delegate,
    inputs: Seq<IntentInputView>,
    outputs: Seq<(u64, Seq<u8>)>,
    cosigner: Seq<u8>,
    forfeit_script: Seq<u8>,
    dust: u64,
)
    requires
        inputs.len() > 0,
        settles(delegate, inputs, outputs, cosigner, forfeit_script, dust),
    ensures
        can_sign_delegate(
            psbt_view(delegate.intent.proof),
            psbt_views(delegate.forfeit_psbts@),
        ),
        is_complete(psbt_view(delegate.intent.proof), psbt_views(delegate.forfeit_psbts@)),
{
    let proof_view = psbt_view(delegate.intent.proof);
    let views = psbt_views(delegate.forfeit_psbts@);
    let given_up = forfeited(inputs, dust);
    assert forall|i: int| 0 <= i < proof_view.inputs.len() implies {
        &&& has_leaf(#[trigger] proof_view.inputs[i])
        &&& has_witness_utxo(proof_view.inputs[i].other)
    } by {
        assert(proof_view.inputs[i] == psbt_inputs(delegate.intent.proof)[i]);
    }
    lemma_utxo_count(proof_view.inputs);
    assert forall|i: int| 0 <= i < views.len() implies {
        &&& forfeit_has_leaf((#[trigger] views[i]).inputs)
        &&& forfeit_is_complete(views[i].frame, views[i].inputs)
    } by {
        assert(forfeits(delegate.forfeit_psbts@[i], given_up[i], forfeit_script, dust));
        assert(views[i] == psbt_view(delegate.forfeit_psbts@[i]));
        assert(has_witness_utxo(views[i].inputs[0].other));
        lemma_utxo_count(views[i].inputs);
    }
}

/// Exactly the VTXOs that have not been swept and reach the dust limit are given up
/// by forfeits.
pub proof fn lemma_forfeits_skip_swept(
    inputs: Seq<IntentInputView>,
    dust: u64,
    input: IntentInputView,
)
    ensures
        forfeited(inputs, dust).contains(input) <==> inputs.contains(input) && !input.is_swept
            && input.spend.amount >= dust,
{
    let pred = |input: IntentInputView| is_forfeited(input, dust);
    if forfeited(inputs, dust).contains(input) {
        let at = choose|at: int|
            0 <= at < forfeited(inputs, dust).len() && forfeited(inputs, dust)[at] == input;
        inputs.lemma_filter_pred(pred, at);
        inputs.lemma_filter_contains_rev(pred, input);
    }
    if inputs.contains(input) && is_forfeited(input, dust) {
        let at = choose|at: int| 0 <= at < inputs.len() && inputs[at] == input;
        inputs.lemma_filter_contains(pred, at);
    }
}

/// Signing leaves the maps of inputs as they are, apart from the signatures.
proof fn lemma_signing_keeps_maps(frame: Seq<u8>, inputs: Seq<InputView>, secret: Seq<u8>)
    ensures
        other_maps(proof_signed(frame, inputs, secret)) == other_maps(inputs),
        inputs.len() > 0 ==> other_maps(forfeit_signed(frame, inputs, secret)) == other_maps(
            inputs,
        ),
{
    assert(other_maps(proof_signed(frame, inputs, secret)) =~= other_maps(inputs));
    if inputs.len() > 0 {
        assert(other_maps(forfeit_signed(frame, inputs, secret)) =~= other_maps(inputs));
    }
}

/// In which order two parties sign inputs does not matter.
proof fn lemma_inputs_commute(
    frame: Seq<u8>,
    inputs: Seq<InputView>,
    first: Seq<u8>,
    second: Seq<u8>,
)
    ensures
        proof_signed(frame, proof_signed(frame, inputs, first), second) == proof_signed(
            frame,
            proof_signed(frame, inputs, second),
            first,
        ),
        inputs.len() > 0 ==> forfeit_signed(frame, forfeit_signed(frame, inputs, first), second)
            == forfeit_signed(frame, forfeit_signed(frame, inputs, second), first),
{
    lemma_signing_keeps_maps(frame, inputs, first);
    lemma_signing_keeps_maps(frame, inputs, second);
    let ab = proof_signed(frame, proof_signed(frame, inputs, first), second);
    let ba = proof_signed(frame, proof_signed(frame, inputs, second), first);
    assert forall|i: int| 0 <= i < inputs.len() implies ab[i] == ba[i] by {
        assert(ab[i].sigs =~= ba[i].sigs);
    }
    assert(ab =~= ba);
    if inputs.len() > 0 {
        let ab = forfeit_signed(frame, forfeit_signed(frame, inputs, first), second);
        let ba = forfeit_signed(frame, forfeit_signed(frame, inputs, second), first);
        assert(ab[0].sigs =~= ba[0].sigs);
        assert(ab =~= ba);
    }
}

/// In which order two parties sign a delegate does not matter.
pub proof fn lemma_signers_commute(
    start: Delegate,
    by_first: Delegate,
    first_then_second: Delegate,
    by_second: Delegate,
    second_then_first: Delegate,
    first: Seq<u8>,
    second: Seq<u8>,
)
    requires
        signs(start, by_first, first),
        signs(by_first, first_then_second, second),
        signs(start, by_second, second),
        signs(by_second, second_then_first, first),
    ensures
        hold_the_same(first_then_second, second_then_first),
{
    let proof_view = psbt_view(start.intent.proof);
    let views = psbt_views(start.forfeit_psbts@);
    lemma_inputs_commute(proof_view.frame, proof_view.inputs, first, second);
    let ab = forfeits_signed(forfeits_signed(views, first), second);
    let ba = forfeits_signed(forfeits_signed(views, second), first);
    assert forall|i: int| 0 <= i < views.len() implies ab[i] == ba[i] by {
        lemma_complete_has_input(views[i].frame, views[i].inputs);
        lemma_inputs_commute(views[i].frame, views[i].inputs, first, second);
    }
    assert(ab =~= ba);
}

/// A party that signs a delegate again changes nothing.
pub proof fn lemma_signing_twice_is_signing_once(
    start: Delegate,
    once: Delegate,
    twice: Delegate,
    secret: Seq<u8>,
)
    requires
        signs(start, once, secret),
        signs(once, twice, secret),
    ensures
        hold_the_same(twice, once),
{
    let proof_view = psbt_view(start.intent.proof);
    let views = psbt_views(start.forfeit_psbts@);
    lemma_signing_keeps_maps(proof_view.frame, proof_view.inputs, secret);
    let a = proof_signed(proof_view.frame, proof_view.inputs, secret);
    let b = proof_signed(proof_view.frame, a, secret);
    assert forall|i: int| 0 <= i < a.len() implies b[i] == a[i] by {
        assert(b[i].sigs =~= a[i].sigs);
    }
    assert(b =~= a);
    let a = forfeits_signed(views, secret);
    let b = forfeits_signed(a, secret);
    assert forall|i: int| 0 <= i < views.len() implies b[i] == a[i] by {
        lemma_complete_has_input(views[i].frame, views[i].inputs);
        lemma_signing_keeps_maps(views[i].frame, views[i].inputs, secret);
        assert(b[i].inputs[0].sigs =~= a[i].inputs[0].sigs);
        assert(b[i].inputs =~= a[i].inputs);
    }
    assert(b =~= a);
}

/// Signing a delegate adds signatures and does nothing else: each transaction stays, in
/// its place, with what it held and the signatures of others.
pub proof fn lemma_signing_only_adds_signatures(
    before: Delegate,
    after: Delegate,
    secret: Seq<u8>,
)
    requires
        signs(before, after, secret),
    ensures
        adds_signatures(
            psbt_view(before.intent.proof),
            psbt_view(after.intent.proof),
            x_only_of(secret),
        ),
        after.forfeit_psbts@.len() == before.forfeit_psbts@.len(),
        forall|i: int|
            0 <= i < before.forfeit_psbts@.len() ==> adds_signatures(
                psbt_view(#[trigger] before.forfeit_psbts@[i]),
                psbt_view(after.forfeit_psbts@[i]),
                x_only_of(secret),
            ),
        after.intent.message@ == before.intent.message@,
        after.delegate_cosigner_pk == before.delegate_cosigner_pk,
{
    let views = psbt_views(before.forfeit_psbts@);
    let signed = psbt_views(after.forfeit_psbts@);
    assert(signed.len() == views.len());
    assert forall|i: int| 0 <= i < before.forfeit_psbts@.len() implies adds_signatures(
        psbt_view(#[trigger] before.forfeit_psbts@[i]),
        psbt_view(after.forfeit_psbts@[i]),
        x_only_of(secret),
    ) by {
        assert(views[i] == psbt_view(before.forfeit_psbts@[i]));
        assert(signed[i] == psbt_view(after.forfeit_psbts@[i]));
        lemma_complete_has_input(views[i].frame, views[i].inputs);
    }
}

/// Whether `after` is `before` with more signatures of one key, and no others.
pub open spec fn adds_signatures(before: PsbtView, after: PsbtView, key: Seq<u8>) -> bool {
    &&& same_but_sigs(after, before)
    &&& forall|i: int, file: SigKey|
        #![trigger after.inputs[i].sigs.dom().contains(file)]
        #![trigger before.inputs[i].sigs.dom().contains(file)]
        0 <= i < before.inputs.len() ==> {
            &&& before.inputs[i].sigs.dom().contains(file) ==> after.inputs[i].sigs.dom().contains(
                file,
            )
            &&& file.0 != key && after.inputs[i].sigs.dom().contains(file) ==> {
                &&& before.inputs[i].sigs.dom().contains(file)
                &&& after.inputs[i].sigs[file] == before.inputs[i].sigs[file]
            }
        }
}

/// Two parties may sign copies of a proof or of a forfeit independently: merging the
/// copy of a party that had not signed gives what signing one after the other gives.
pub proof fn lemma_merge_is_settling_in_turn(
    frame: Seq<u8>,
    inputs: Seq<InputView>,
    first: Seq<u8>,
    second: Seq<u8>,
)
    requires
        inputs.len() > 0,
        forall|i: int|
            0 <= i < inputs.len() ==> !(#[trigger] inputs[i]).sigs.dom().contains(
                (x_only_of(second), input_leaf_hash(inputs[i].other)->0),
            ),
    ensures
        merge_inputs(proof_signed(frame, inputs, first), proof_signed(frame, inputs, second))
            == proof_signed(frame, proof_signed(frame, inputs, first), second),
        merge_inputs(forfeit_signed(frame, inputs, first), forfeit_signed(frame, inputs, second))
            == forfeit_signed(frame, forfeit_signed(frame, inputs, first), second),
{
    lemma_signing_keeps_maps(frame, inputs, first);
    let a = proof_signed(frame, inputs, first);
    let merged = merge_inputs(a, proof_signed(frame, inputs, second));
    let turn = proof_signed(frame, a, second);
    assert forall|i: int| 0 <= i < inputs.len() implies merged[i] == turn[i] by {
        assert(!inputs[i].sigs.dom().contains(
            (x_only_of(second), input_leaf_hash(inputs[i].other)->0),
        ));
        assert(merged[i].sigs =~= turn[i].sigs);
        assert(merged[i] =~= turn[i]);
    }
    assert(merged =~= turn);
    let a = forfeit_signed(frame, inputs, first);
    let merged = merge_inputs(a, forfeit_signed(frame, inputs, second));
    let turn = forfeit_signed(frame, a, second);
    assert forall|i: int| 0 <= i < inputs.len() implies merged[i] == turn[i] by {
        assert(merged[i].sigs =~= turn[i].sigs);
        assert(merged[i] =~= turn[i]);
    }
    assert(merged =~= turn);
}

/// What can be signed as a forfeit has an input.
proof fn lemma_complete_has_input(frame: Seq<u8>, inputs: Seq<InputView>)
    requires
        forfeit_is_complete(frame, inputs),
    ensures
        inputs.len() > 0,
{
    if inputs.len() == 0 {
        reveal(Seq::filter);
        assert(utxo_count(inputs) == 0);
    }
}

/// A signature takes nothing away: what could be signed still can.
pub proof fn lemma_signed_is_signable(proof_view: PsbtView, views: Seq<PsbtView>, secret: Seq<u8>)
    requires
        can_sign_delegate(proof_view, views),
        is_complete(proof_view, views),
    ensures
        ({
            let signed = PsbtView {
                inputs: proof_signed(proof_view.frame, proof_view.inputs, secret),
                ..proof_view
            };
            &&& can_sign_delegate(signed, forfeits_signed(views, secret))
            &&& is_complete(signed, forfeits_signed(views, secret))
        }),
{
    let signed = PsbtView {
        inputs: proof_signed(proof_view.frame, proof_view.inputs, secret),
        ..proof_view
    };
    let forfeits_after = forfeits_signed(views, secret);
    lemma_same_utxo_count(proof_view.inputs, signed.inputs);
    assert forall|i: int| 0 <= i < signed.inputs.len() implies has_leaf(
        #[trigger] signed.inputs[i],
    ) by {
        assert(has_leaf(proof_view.inputs[i]));
        assert(signed.inputs[i].other == proof_view.inputs[i].other);
    }
    assert forall|i: int| 0 <= i < forfeits_after.len() implies {
        &&& forfeit_has_leaf((#[trigger] forfeits_after[i]).inputs)
        &&& forfeit_is_complete(forfeits_after[i].frame, forfeits_after[i].inputs)
    } by {
        assert(forfeits_are_complete(views.take(i))) by {
            assert forall|k: int| 0 <= k < i implies forfeit_is_complete(
                (#[trigger] views.take(i)[k]).frame,
                views.take(i)[k].inputs,
            ) by {
                assert(forfeit_is_complete(views[k].frame, views[k].inputs));
            }
        }
        assert(forfeit_has_leaf(views[i].inputs));
        assert(forfeit_is_complete(views[i].frame, views[i].inputs));
        lemma_same_utxo_count(views[i].inputs, forfeits_after[i].inputs);
    }
}

/// Inputs that differ in their signatures only know the same outputs.
proof fn lemma_same_utxo_count(a: Seq<InputView>, b: Seq<InputView>)
    requires
        a.len() == b.len(),
        forall|i: int| 0 <= i < a.len() ==> (#[trigger] a[i]).other == b[i].other,
    ensures
        utxo_count(a) == utxo_count(b),
    decreases a.len(),
{
    reveal(Seq::filter);
    if a.len() > 0 {
        assert forall|i: int| 0 <= i < a.drop_last().len() implies (
        #[trigger] a.drop_last()[i]).other == b.drop_last()[i].other by {
            assert(a[i].other == b[i].other);
        }
        lemma_same_utxo_count(a.drop_last(), b.drop_last());
        assert(a[a.len() - 1].other == b[b.len() - 1].other);
    }
}

/// What is refused was refused by the outside call itself, asked with the very inputs,
/// outputs, cosigner, address and dust limit.
proof fn lemma_refusal_is_an_answer(
    inputs: Seq<IntentInputView>,
    outputs: Seq<(u64, Seq<u8>)>,
    cosigner: Seq<u8>,
    forfeit_address: Seq<char>,
    dust: u64,
    error: ark_core::Error,
)
    requires
        refuses(inputs, outputs, cosigner, forfeit_address, dust, error),
    ensures
        exists|
            given: Vec<IntentInput>,
            paid: Vec<IntentOutput>,
            key: [u8; 33],
            address: OnchainAddress,
        |
            {
                &&& given@.map_values(|input: IntentInput| input@) == inputs
                &&& paid@.map_values(|output: IntentOutput| output@) == outputs
                &&& key@ == cosigner
                &&& address@ == forfeit_address
                &&& #[trigger] call_ensures(
                    prepare,
                    (&given, &paid, key, &address, dust),
                    Err::<(Psbt, String, Vec<Psbt>), ark_core::Error>(error),
                )
            },
{
}

/// Whether a delegate settles VTXOs, each through the given leaf of a contract, into outputs,
/// and gives up those that have not been swept and reach the dust limit. Said of the
/// transactions themselves: behind the input that carries the message, the proof spends each
/// VTXO in its order, and pays nothing but the outputs. Each forfeit spends the VTXO that it
/// gives up, pays its amount and a connector of the dust limit to the server, and has the
/// anchor behind it.
pub open spec fn settles_vtxos(
    delegate: Delegate,
    inputs: Seq<IntentInputView>,
    outputs: Seq<(u64, Seq<u8>)>,
    cosigner: Seq<u8>,
    forfeit_script: Seq<u8>,
    dust: u64,
) -> bool {
    let frame = psbt_frame(delegate.intent.proof);
    let proved = psbt_inputs(delegate.intent.proof);
    let given_up = inputs.filter(
        |input: IntentInputView| !input.is_swept && input.spend.amount >= dust,
    );
    &&& frame_outputs(frame) == outputs
    &&& frame_spends(frame).len() == inputs.len() + 1
    &&& proved.len() == inputs.len() + 1
    &&& forall|i: int|
        0 <= i < inputs.len() ==> {
            let spend = (#[trigger] inputs[i]).spend;
            &&& frame_spends(frame)[i + 1] == spend.outpoint
            &&& proved[i + 1].sigs.dom() == Set::<SigKey>::empty()
            &&& proved[i + 1].witness_script == Some(spend.spend_script)
            &&& input_leaf_hash(proved[i + 1].other) == Some(leaf_hash(spend.spend_script))
            &&& witness_utxo(proved[i + 1].other) == Some((spend.amount, spend.script_pubkey))
        }
    &&& inputs.len() > 0 ==> {
        let first = inputs[0].spend;
        &&& proved[0].sigs.dom() == Set::<SigKey>::empty()
        &&& proved[0].witness_script == Some(first.spend_script)
        &&& input_leaf_hash(proved[0].other) == Some(leaf_hash(first.spend_script))
        &&& witness_utxo(proved[0].other) == Some((0u64, first.script_pubkey))
    }
    &&& delegate.forfeit_psbts@.len() == given_up.len()
    &&& forall|i: int|
        0 <= i < given_up.len() ==> {
            let spend = (#[trigger] given_up[i]).spend;
            let forfeit = delegate.forfeit_psbts@[i];
            &&& frame_spends(psbt_frame(forfeit)) == seq![spend.outpoint]
            &&& frame_outputs(psbt_frame(forfeit)) == seq![
                ((spend.amount + dust) as u64, forfeit_script),
                (0u64, seq![0x51u8, 0x02, 0x4e, 0x73]),
            ]
            &&& psbt_inputs(forfeit).len() == 1
            &&& psbt_inputs(forfeit)[0].sigs.dom() == Set::<SigKey>::empty()
            &&& psbt_inputs(forfeit)[0].witness_script == Some(spend.spend_script)
            &&& input_leaf_hash(psbt_inputs(forfeit)[0].other) == Some(
                leaf_hash(spend.spend_script),
            )
            &&& witness_utxo(psbt_inputs(forfeit)[0].other) == Some(
                (spend.amount, spend.script_pubkey),
            )
        }
    &&& delegate.delegate_cosigner_pk@ == cosigner
    &&& exists|now: nat| delegate.intent.message@ == #[trigger] register_message(now, cosigner)
}

/// What settles inputs into outputs does so transaction by transaction.
pub proof fn lemma_settling_is_settling_vtxos(
    delegate: Delegate,
    inputs: Seq<IntentInputView>,
    outputs: Seq<(u64, Seq<u8>)>,
    cosigner: Seq<u8>,
    forfeit_script: Seq<u8>,
    dust: u64,
)
    requires
        settles(delegate, inputs, outputs, cosigner, forfeit_script, dust),
    ensures
        settles_vtxos(delegate, inputs, outputs, cosigner, forfeit_script, dust),
{
    let proved = psbt_inputs(delegate.intent.proof);
    let is_given_up = |input: IntentInputView| !input.is_swept && input.spend.amount >= dust;
    let given_up = inputs.filter(is_given_up);
    lemma_filter_of_map(
        inputs,
        |input: IntentInputView| input,
        |input: IntentInputView| is_forfeited(input, dust),
        is_given_up,
    );
    assert(inputs.map_values(|input: IntentInputView| input) =~= inputs);
    assert(given_up.map_values(|input: IntentInputView| input) =~= given_up);
    assert(forfeited(inputs, dust) == given_up);
    assert forall|i: int| 0 <= i < inputs.len() implies {
        let spend = (#[trigger] inputs[i]).spend;
        &&& proved[i + 1].sigs.dom() == Set::<SigKey>::empty()
        &&& proved[i + 1].witness_script == Some(spend.spend_script)
        &&& input_leaf_hash(proved[i + 1].other) == Some(leaf_hash(spend.spend_script))
    } by {
        assert(proved[i + 1].witness_script == Some(inputs[i].spend.spend_script));
    }
    if inputs.len() > 0 {
        assert(proved[0].witness_script == Some(inputs[0].spend.spend_script));
    }
    assert forall|i: int| 0 <= i < given_up.len() implies forfeits(
        delegate.forfeit_psbts@[i],
        #[trigger] given_up[i],
        forfeit_script,
        dust,
    ) by {}
}

/// Whether as many of the outputs that a PSBT spends are known as it has inputs to spend them.
pub open spec fn knows_what_it_spends(psbt: PsbtView) -> bool {
    psbt.inputs.filter(|input: InputView| witness_utxo(input.other) is Some).len() == frame_spends(
        psbt.frame,
    ).len()
}

/// Whether a key signs a proof and forfeits: on every input of the proof and on the first of
/// every forfeit there is then a signature of that key, filed under it and the leaf of the
/// input, on the digest of the very transaction. Signatures of others stay, and nothing else
/// changes.
pub open spec fn signs_everything(
    proof_was: PsbtView,
    proof_now: PsbtView,
    forfeits_were: Seq<PsbtView>,
    forfeits_now: Seq<PsbtView>,
    key: Seq<u8>,
) -> bool {
    &&& proof_now.frame == proof_was.frame
    &&& proof_now.inputs.len() == proof_was.inputs.len()
    &&& forall|i: int|
        0 <= i < proof_was.inputs.len() ==> {
            let was = proof_was.inputs[i];
            let now = #[trigger] proof_now.inputs[i];
            &&& now.other == was.other
            &&& now.witness_script == was.witness_script
            &&& now.sigs == was.sigs.insert(
                (key, input_leaf_hash(was.other)->0),
                x_only_signature(
                    key,
                    script_spend_digest(
                        proof_was.frame,
                        proof_was.inputs.map_values(|input: InputView| input.other),
                        i,
                    ),
                ),
            )
        }
    &&& forfeits_now.len() == forfeits_were.len()
    &&& forall|k: int|
        0 <= k < forfeits_were.len() ==> {
            let was = forfeits_were[k];
            let now = #[trigger] forfeits_now[k];
            &&& now.frame == was.frame
            &&& now.inputs.len() == was.inputs.len() > 0
            &&& now.inputs.skip(1) == was.inputs.skip(1)
            &&& now.inputs[0].other == was.inputs[0].other
            &&& now.inputs[0].witness_script == was.inputs[0].witness_script
            &&& now.inputs[0].sigs == was.inputs[0].sigs.insert(
                (key, input_leaf_hash(was.inputs[0].other)->0),
                x_only_signature(
                    key,
                    forfeit_digest(
                        was.frame,
                        was.inputs.map_values(|input: InputView| input.other),
                    ),
                ).push(0x81u8),
            )
        }
}

/// Whether every input that is signed of a proof and of forfeits names the leaf that it is signed
/// for.
pub open spec fn names_all_leaves(proof_view: PsbtView, forfeits: Seq<PsbtView>) -> bool {
    &&& forall|i: int|
        0 <= i < proof_view.inputs.len() ==> input_leaf_hash((#[trigger] proof_view.inputs[i]).other)
            is Some
    &&& forall|k: int|
        0 <= k < forfeits.len() ==> (#[trigger] forfeits[k]).inputs.len() > 0 && input_leaf_hash(
            forfeits[k].inputs[0].other,
        ) is Some
}

/// Whether a proof and forfeits can all be signed: the outputs that they spend are known.
pub open spec fn can_all_be_signed(proof_view: PsbtView, forfeits: Seq<PsbtView>) -> bool {
    &&& proof_view.inputs.len() == 0 || knows_what_it_spends(proof_view)
    &&& forall|k: int|
        0 <= k < forfeits.len() ==> knows_what_it_spends(#[trigger] forfeits[k]) && frame_spends(
            forfeits[k].frame,
        ).len() > 0
}

pub(crate) proof fn lemma_signed_is_signed(
    proof_view: PsbtView,
    forfeits: Seq<PsbtView>,
    secret: Seq<u8>,
)
    ensures
        names_all_leaves(proof_view, forfeits) ==> can_sign_delegate(proof_view, forfeits),
        is_complete(proof_view, forfeits) <==> can_all_be_signed(proof_view, forfeits),
        is_complete(proof_view, forfeits) ==> signs_everything(
            proof_view,
            PsbtView {
                inputs: proof_signed(proof_view.frame, proof_view.inputs, secret),
                ..proof_view
            },
            forfeits,
            forfeits_signed(forfeits, secret),
            public_key_of(secret).subrange(1, 33),
        ),
{
    assert forall|psbt: PsbtView| #[trigger]
        knows_what_it_spends(psbt) <==> utxo_count(psbt.inputs) == frame_spends(
            psbt.frame,
        ).len() by {
        lemma_same_test(psbt.inputs);
    }
    if names_all_leaves(proof_view, forfeits) {
        assert forall|i: int| 0 <= i < proof_view.inputs.len() implies has_leaf(
            #[trigger] proof_view.inputs[i],
        ) by {
            assert(input_leaf_hash(proof_view.inputs[i].other) is Some);
        }
        assert forall|k: int| 0 <= k < forfeits.len() implies forfeit_has_leaf(
            (#[trigger] forfeits[k]).inputs,
        ) by {
            assert(forfeits[k].inputs.len() > 0);
        }
    }
    if can_all_be_signed(proof_view, forfeits) {
        assert forall|k: int| 0 <= k < forfeits.len() implies forfeit_is_complete(
            (#[trigger] forfeits[k]).frame,
            forfeits[k].inputs,
        ) by {
            assert(knows_what_it_spends(forfeits[k]));
        }
    }
    if is_complete(proof_view, forfeits) {
        assert forall|k: int| 0 <= k < forfeits.len() implies knows_what_it_spends(
            #[trigger] forfeits[k],
        ) && frame_spends(forfeits[k].frame).len() > 0 by {
            assert(forfeit_is_complete(forfeits[k].frame, forfeits[k].inputs));
        }
        let now = forfeits_signed(forfeits, secret);
        assert forall|k: int| 0 <= k < forfeits.len() implies {
            let was = forfeits[k];
            &&& (#[trigger] now[k]).frame == was.frame
            &&& now[k].inputs.len() == was.inputs.len() > 0
            &&& now[k].inputs.skip(1) == was.inputs.skip(1)
        } by {
            assert(forfeit_is_complete(forfeits[k].frame, forfeits[k].inputs));
            lemma_complete_has_input(forfeits[k].frame, forfeits[k].inputs);
            assert(now[k].inputs.skip(1) =~= forfeits[k].inputs.skip(1));
        }
    }
}

proof fn lemma_same_test(inputs: Seq<InputView>)
    ensures
        utxo_count(inputs) == inputs.filter(
            |input: InputView| witness_utxo(input.other) is Some,
        ).len(),
    decreases inputs.len(),
{
    reveal(Seq::filter);
    if inputs.len() > 0 {
        lemma_same_test(inputs.drop_last());
    }
}

/// Signing a proof and forfeits signs every one of them.
pub proof fn lemma_all_is_signed(
    proof_psbt: &mut Psbt,
    forfeit_psbts: &mut Vec<Psbt>,
    keypair: &Keypair,
    signed: Result<(), ark_core::Error>,
)
    requires
        call_ensures(sign_delegate_psbts, (proof_psbt, forfeit_psbts, keypair), signed),
    ensures
        signed is Ok <==> can_all_be_signed(
            psbt_view(*old(proof_psbt)),
            psbt_views(old(forfeit_psbts)@),
        ),
        signed is Ok ==> signs_everything(
            psbt_view(*old(proof_psbt)),
            psbt_view(*final(proof_psbt)),
            psbt_views(old(forfeit_psbts)@),
            psbt_views(final(forfeit_psbts)@),
            public_key_of(keypair.secret_bytes()).subrange(1, 33),
        ),
{
    lemma_signed_is_signed(
        psbt_view(*old(proof_psbt)),
        psbt_views(old(forfeit_psbts)@),
        keypair.secret_bytes(),
    );
}

/// What is prepared settles just the inputs that were asked for into just the outputs, and what
/// is not was refused by the outside call when it was asked for that.
pub proof fn lemma_prepared_settles_vtxos(
    inputs: &Vec<IntentInput>,
    outputs: &Vec<IntentOutput>,
    cosigner_pk: &PublicKey,
    forfeit_address: &OnchainAddress,
    dust: u64,
    delegate: Result<Delegate, ark_core::Error>,
)
    requires
        call_ensures(
            prepare_delegate_psbts,
            (inputs, outputs, cosigner_pk, forfeit_address, dust),
            delegate,
        ),
    ensures
        match delegate {
            Ok(d) => inputs@.len() > 0 && settles_vtxos(
                d,
                inputs@.map_values(|input: IntentInput| input@),
                outputs@.map_values(|output: IntentOutput| output@),
                cosigner_pk@,
                onchain_script(forfeit_address@)->0,
                dust,
            ),
            Err(error) => refuses(
                inputs@.map_values(|input: IntentInput| input@),
                outputs@.map_values(|output: IntentOutput| output@),
                cosigner_pk@,
                forfeit_address@,
                dust,
                error,
            ),
        },
{
    assert(input_views(inputs@) =~= inputs@.map_values(|input: IntentInput| input@));
    assert(output_views(outputs@) =~= outputs@.map_values(|output: IntentOutput| output@));
    if let Ok(d) = delegate {
        lemma_settling_is_settling_vtxos(
            d,
            input_views(inputs@),
            output_views(outputs@),
            cosigner_pk@,
            onchain_script(forfeit_address@)->0,
            dust,
        );
    }
}

} // verus!
