//! Offchain transactions: one escrow VTXO in, payments out, with a checkpoint
//! transaction in between.

use ark_core::send;
use bitcoin::Psbt;
use vstd::prelude::*;

use crate::address::{address_script, ArkAddress};
use crate::contract::script_views;
use crate::psbt::{
    frame_spends, frame_txid, has_witness_utxo, input_leaf_hash, psbt_frame, psbt_inputs,
    reads_back, witness_utxo, InputView, SigKey,
};
use crate::server::{ServerInfo, ServerTerms};
use crate::taproot::is_control_block;
use crate::tx::OutPoint;
use crate::{fee_sum, fee_views, FeeOutput};

verus! {

/// `ark_core::send::VtxoInput`.
#[verifier::external_type_specification]
#[verifier::external_body]
pub struct ExVtxoInput(send::VtxoInput);

/// A VTXO that is spent, and the leaf that it is spent through.
#[verifier::ext_equal]
pub struct SpendInputView {
    pub spend_script: Seq<u8>,
    pub control_block: Seq<u8>,
    pub tapscripts: Seq<Seq<u8>>,
    pub script_pubkey: Seq<u8>,
    pub amount: u64,
    pub outpoint: (Seq<u8>, u32),
}

/// What `ark_core::send::VtxoInput::new` makes of a VTXO without lock-time and
/// assets.
pub uninterp spec fn vtxo_input(input: SpendInputView) -> send::VtxoInput;

/// Calls `ark_core::send::VtxoInput::new`, without a lock-time and without assets.
///
/// Claimed of it: the input is determined by what it is made of.
#[verifier::external_body]
fn new_vtxo_input(
    spend_script: &Vec<u8>,
    control_block: &Vec<u8>,
    tapscripts: &Vec<Vec<u8>>,
    script_pubkey: &Vec<u8>,
    amount: u64,
    outpoint: OutPoint,
) -> (input: send::VtxoInput)
    requires
        is_control_block(control_block@),
    ensures
        input == vtxo_input(
            SpendInputView {
                spend_script: spend_script@,
                control_block: control_block@,
                tapscripts: script_views(tapscripts@),
                script_pubkey: script_pubkey@,
                amount,
                outpoint: outpoint@,
            },
        ),
{
    let script = |bytes: &Vec<u8>| bitcoin::ScriptBuf::from_bytes(bytes.clone());
    send::VtxoInput::new(
        script(spend_script),
        None,
        bitcoin::taproot::ControlBlock::decode(control_block).expect("a control block"),
        tapscripts.iter().map(script).collect(),
        script(script_pubkey),
        bitcoin::Amount::from_sat(amount),
        outpoint.to_string().parse().expect("an outpoint"),
        Vec::new(),
    )
}

/// A VTXO that is spent, and the leaf that it is spent through.
pub struct SpendInput {
    spend_script: Vec<u8>,
    control_block: Vec<u8>,
    tapscripts: Vec<Vec<u8>>,
    script_pubkey: Vec<u8>,
    amount: u64,
    outpoint: OutPoint,
    prepared: send::VtxoInput,
}

impl View for SpendInput {
    type V = SpendInputView;

    closed spec fn view(&self) -> SpendInputView {
        SpendInputView {
            spend_script: self.spend_script@,
            control_block: self.control_block@,
            tapscripts: script_views(self.tapscripts@),
            script_pubkey: self.script_pubkey@,
            amount: self.amount,
            outpoint: self.outpoint@,
        }
    }
}

impl SpendInput {
    #[verifier::type_invariant]
    spec fn well_formed(self) -> bool {
        self.prepared == vtxo_input(self@)
    }

    /// An input that spends `outpoint` through a leaf script.
    pub fn new(
        spend_script: Vec<u8>,
        control_block: Vec<u8>,
        tapscripts: Vec<Vec<u8>>,
        script_pubkey: Vec<u8>,
        amount: u64,
        outpoint: OutPoint,
    ) -> (input: SpendInput)
        requires
            is_control_block(control_block@),
        ensures
            input@ == (SpendInputView {
                spend_script: spend_script@,
                control_block: control_block@,
                tapscripts: script_views(tapscripts@),
                script_pubkey: script_pubkey@,
                amount,
                outpoint: outpoint@,
            }),
    {
        let prepared = new_vtxo_input(
            &spend_script,
            &control_block,
            &tapscripts,
            &script_pubkey,
            amount,
            outpoint,
        );
        SpendInput {
            spend_script,
            control_block,
            tapscripts,
            script_pubkey,
            amount,
            outpoint,
            prepared,
        }
    }
}

// -- What comes out --

/// The outputs of the unsigned transaction in a frame: an amount and a script
/// each.
pub uninterp spec fn frame_outputs(frame: Seq<u8>) -> Seq<(u64, Seq<u8>)>;

/// The hash of a tapscript leaf, as `bitcoin::TapLeafHash::from_script` computes it.
pub uninterp spec fn leaf_hash(script: Seq<u8>) -> Seq<u8>;

/// The frame of the ark transaction that `build_offchain_transactions` makes.
pub uninterp spec fn ark_tx_frame(
    receivers: Seq<(Seq<char>, u64)>,
    change: Seq<char>,
    input: SpendInputView,
    server: ServerTerms,
) -> Seq<u8>;

/// The map of the input of that ark transaction, without signatures and witness
/// script.
pub uninterp spec fn ark_tx_input(input: SpendInputView, server: ServerTerms) -> Seq<u8>;

/// The frame of the checkpoint transaction that `build_offchain_transactions`
/// makes.
pub uninterp spec fn checkpoint_frame(input: SpendInputView, server: ServerTerms) -> Seq<u8>;

/// The map of the input of that checkpoint transaction, without signatures and
/// witness script.
pub uninterp spec fn checkpoint_input(input: SpendInputView) -> Seq<u8>;

/// The output script of a payment: below the dust limit it only carries the
/// address's key.
pub open spec fn payment_script(address: Seq<char>, amount: nat, dust: nat) -> Seq<u8> {
    if amount >= dust {
        address_script(address)
    } else {
        seq![0x6au8] + address_script(address).skip(1)
    }
}

/// The output for each receiver.
pub open spec fn payments(receivers: Seq<(Seq<char>, u64)>, dust: nat) -> Seq<(u64, Seq<u8>)> {
    receivers.map_values(
        |to: (Seq<char>, u64)| (to.1, payment_script(to.0, to.1 as nat, dust)),
    )
}

/// The output for what is left over, if anything is.
pub open spec fn change_payment(left: int, change: Seq<char>, dust: nat) -> Seq<(u64, Seq<u8>)> {
    if left > 0 {
        seq![(left as u64, payment_script(change, left as nat, dust))]
    } else {
        Seq::empty()
    }
}

/// The output by which fees can be added later.
pub open spec fn anchor() -> (u64, Seq<u8>) {
    (0u64, seq![0x51u8, 0x02, 0x4e, 0x73])
}

/// Whether payments can be made out of one VTXO: none is too small, and they come
/// to no more than the VTXO holds.
pub open spec fn payable(
    receivers: Seq<(Seq<char>, u64)>,
    input: SpendInputView,
    server: ServerTerms,
) -> bool {
    &&& forall|i: int|
        0 <= i < receivers.len() ==> (#[trigger] receivers[i]).1 >= server.vtxo_min_amount
    &&& fee_sum(receivers) <= input.amount
}

/// An input without signatures that is spent through a script.
pub open spec fn unsigned_input(script: Seq<u8>, other: Seq<u8>) -> InputView {
    InputView { sigs: Map::<SigKey, Seq<u8>>::empty(), witness_script: Some(script), other }
}

/// Whether an input can be signed for a leaf.
pub open spec fn signable_for(other: Seq<u8>, script: Seq<u8>) -> bool {
    has_witness_utxo(other) && input_leaf_hash(other) == Some(leaf_hash(script))
}

/// Whether `ark_tx` and `checkpoint` pay `receivers` out of `input`, with what is
/// left over going to `change`.
pub open spec fn pays(
    ark_tx: Psbt,
    checkpoint: Psbt,
    receivers: Seq<(Seq<char>, u64)>,
    change: Seq<char>,
    input: SpendInputView,
    server: ServerTerms,
) -> bool {
    &&& psbt_frame(ark_tx) == ark_tx_frame(receivers, change, input, server)
    &&& psbt_inputs(ark_tx) == seq![
        unsigned_input(input.spend_script, ark_tx_input(input, server)),
    ]
    &&& signable_for(ark_tx_input(input, server), input.spend_script)
    &&& frame_spends(psbt_frame(ark_tx)) == seq![(frame_txid(psbt_frame(checkpoint)), 0u32)]
    &&& frame_outputs(psbt_frame(ark_tx)) == payments(receivers, server.dust) + change_payment(
        input.amount - fee_sum(receivers),
        change,
        server.dust,
    ) + seq![anchor()]
    &&& psbt_frame(checkpoint) == checkpoint_frame(input, server)
    &&& psbt_inputs(checkpoint) == seq![
        unsigned_input(input.spend_script, checkpoint_input(input)),
    ]
    &&& signable_for(checkpoint_input(input), input.spend_script)
    &&& frame_spends(psbt_frame(checkpoint)) == seq![input.outpoint]
    &&& frame_outputs(psbt_frame(checkpoint)).len() == 2
    &&& frame_outputs(psbt_frame(checkpoint))[0].0 == input.amount
    &&& frame_outputs(psbt_frame(checkpoint))[1] == anchor()
    &&& witness_utxo(checkpoint_input(input)) == Some((input.amount, input.script_pubkey))
    &&& witness_utxo(ark_tx_input(input, server)) == Some(
        frame_outputs(psbt_frame(checkpoint))[0],
    )
}

/// Calls `ark_core::send::build_offchain_transactions` with one input, on a server
/// with the given terms.
///
/// Claimed of it: it fails exactly if a payment is below the least amount of the
/// server or the payments come to more than the input holds. Otherwise it makes an
/// ark transaction and one checkpoint, both determined by the arguments and
/// without signatures. The ark transaction pays the receivers in order, then the
/// change if there is any, then the anchor, and spends the first output of the
/// checkpoint, which spends the VTXO and holds its amount. Both inputs carry what
/// signing needs, the output that they spend among it. Of the server the call reads the
/// three terms only. Transactions that are not too long to be read again read back from
/// their bytes.
#[verifier::external_body]
fn build(
    receivers: &[FeeOutput],
    change: &ArkAddress,
    input: &SpendInput,
    server: &ServerInfo,
) -> (txs: Result<(Psbt, Vec<Psbt>), ark_core::Error>)
    requires
        fee_sum(fee_views(receivers@)) <= u64::MAX,
    ensures
        txs is Ok <==> payable(fee_views(receivers@), input@, server.terms()),
        txs matches Ok((ark_tx, checkpoints)) ==> {
            let to = fee_views(receivers@);
            let terms = server.terms();
            &&& checkpoints.len() == 1
            &&& pays(ark_tx, checkpoints@[0], to, change@, input@, terms)
            &&& psbt_frame(ark_tx) == ark_tx_frame(to, change@, input@, terms)
            &&& psbt_inputs(ark_tx)[0].other == ark_tx_input(input@, terms)
            &&& psbt_frame(checkpoints@[0]) == checkpoint_frame(input@, terms)
            &&& psbt_inputs(checkpoints@[0])[0].other == checkpoint_input(input@)
            &&& input_leaf_hash(ark_tx_input(input@, terms)) == Some(leaf_hash(input@.spend_script))
            &&& frame_outputs(psbt_frame(ark_tx)).last() == anchor()
            &&& is_short(to, input@, terms) ==> reads_back(ark_tx) && reads_back(checkpoints@[0])
        },
{
    let decode = |a: &ArkAddress| ark_core::ArkAddress::decode(&a.to_string()).expect("an address");
    let amount = bitcoin::Amount::from_sat;
    let pay = |to: &FeeOutput| send::SendReceiver::bitcoin(decode(&to.address), amount(to.amount));
    let to: Vec<send::SendReceiver> = receivers.iter().map(pay).collect();
    let mut info = server.raw.clone();
    info.dust = amount(server.dust);
    info.vtxo_min_amount = server.vtxo_min_amount.map(amount);
    info.checkpoint_tapscript = server.checkpoint_tapscript.clone().into();
    let input = std::slice::from_ref(&input.prepared);
    let txs = send::build_offchain_transactions(&to, &decode(change), input, &info)?;
    Ok((txs.ark_tx, txs.checkpoint_txs))
}

/// The length of some scripts together.
pub open spec fn flat_len(scripts: Seq<Seq<u8>>) -> nat
    decreases scripts.len(),
{
    if scripts.len() == 0 {
        0
    } else {
        flat_len(scripts.drop_last()) + scripts.last().len()
    }
}

/// Scripts of no more than `most` bytes each are together no longer than that many
/// times their number.
pub proof fn lemma_flat_len(scripts: Seq<Seq<u8>>, most: nat)
    requires
        forall|i: int| 0 <= i < scripts.len() ==> (#[trigger] scripts[i]).len() <= most,
    ensures
        flat_len(scripts) <= scripts.len() * most,
    decreases scripts.len(),
{
    if scripts.len() > 0 {
        lemma_flat_len(scripts.drop_last(), most);
        assert((scripts.len() - 1) * most + most == scripts.len() * most) by (nonlinear_arith);
    }
}

/// Whether no value in the transactions gets longer than what is read again: four
/// million bytes.
pub open spec fn is_short(
    receivers: Seq<(Seq<char>, u64)>,
    input: SpendInputView,
    server: ServerTerms,
) -> bool {
    &&& receivers.len() <= 10_000
    &&& input.tapscripts.len() <= 10_000
    &&& input.spend_script.len() + flat_len(input.tapscripts) + input.script_pubkey.len()
        + server.checkpoint_tapscript.len() <= 1_000_000
}

/// An ark transaction that spends an escrow, and the checkpoints in between.
///
/// Both wait for signatures: the ark transaction for those of the parties and the
/// server, the checkpoints for theirs after the server has signed.
pub struct EscrowTransaction {
    pub ark_tx: Psbt,
    pub checkpoint_txs: Vec<Psbt>,
}

/// Builds the transactions that pay `receivers` out of one VTXO.
pub fn build_offchain_transactions(
    receivers: &[FeeOutput],
    change: &ArkAddress,
    input: &SpendInput,
    server: &ServerInfo,
) -> (txs: Result<EscrowTransaction, ark_core::Error>)
    requires
        fee_sum(fee_views(receivers@)) <= u64::MAX,
    ensures
        txs is Ok <==> payable(fee_views(receivers@), input@, server.terms()),
        txs matches Ok(t) ==> {
            &&& t.checkpoint_txs.len() == 1
            &&& pays(
                t.ark_tx,
                t.checkpoint_txs@[0],
                fee_views(receivers@),
                change@,
                input@,
                server.terms(),
            )
            &&& is_short(fee_views(receivers@), input@, server.terms()) ==> reads_back(t.ark_tx)
                && reads_back(t.checkpoint_txs@[0])
        },
{
    match build(receivers, change, input, server) {
        Ok((ark_tx, checkpoint_txs)) => Ok(EscrowTransaction { ark_tx, checkpoint_txs }),
        Err(error) => Err(error),
    }
}

} // verus!
