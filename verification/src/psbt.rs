//! Partially signed transactions: what the library reads in them and what it
//! changes.

use bitcoin::base64::Engine;
use bitcoin::Psbt;
use vstd::prelude::*;

use crate::keys::is_x_only_key;
use crate::tx::{OutPoint, Txid};

verus! {

/// `bitcoin::Psbt`.
#[verifier::external_type_specification]
#[verifier::external_body]
pub struct ExPsbt(Psbt);

/// `bitcoin::psbt::Error`.
#[verifier::external_type_specification]
#[verifier::external_body]
pub struct ExPsbtError(bitcoin::psbt::Error);

/// What a signature is filed under: the x-only key and the hash of the leaf that
/// it signs for.
pub type SigKey = (Seq<u8>, Seq<u8>);

/// One input of a PSBT.
#[verifier::ext_equal]
pub struct InputView {
    /// The tapscript signatures.
    pub sigs: Map<SigKey, Seq<u8>>,
    /// The witness script.
    pub witness_script: Option<Seq<u8>>,
    /// The map of the input without these two, serialized.
    pub other: Seq<u8>,
}

/// The inputs that a PSBT holds.
pub uninterp spec fn psbt_inputs(psbt: Psbt) -> Seq<InputView>;

/// What a PSBT holds besides its inputs, serialized: the unsigned transaction, the
/// global map and the maps of the outputs.
pub uninterp spec fn psbt_frame(psbt: Psbt) -> Seq<u8>;

/// All that a PSBT holds.
#[verifier::ext_equal]
pub struct PsbtView {
    pub frame: Seq<u8>,
    pub inputs: Seq<InputView>,
}

/// All that a PSBT holds.
pub open spec fn psbt_view(psbt: Psbt) -> PsbtView {
    PsbtView { frame: psbt_frame(psbt), inputs: psbt_inputs(psbt) }
}

/// All that each of some PSBTs holds.
pub open spec fn psbt_views(psbts: Seq<Psbt>) -> Seq<PsbtView> {
    psbts.map_values(|psbt: Psbt| psbt_view(psbt))
}

/// Calls `clone` on a `bitcoin::Psbt`.
///
/// Claimed of it: the copy holds the same.
#[verifier::external_body]
pub(crate) fn clone_psbt(psbt: &Psbt) -> (copy: Psbt)
    ensures
        psbt_inputs(copy) == psbt_inputs(*psbt),
        psbt_frame(copy) == psbt_frame(*psbt),
{
    psbt.clone()
}

/// Reads the length of `bitcoin::Psbt::inputs`.
#[verifier::external_body]
pub(crate) fn input_count(psbt: &Psbt) -> (count: usize)
    ensures
        count == psbt_inputs(*psbt).len(),
{
    psbt.inputs.len()
}

// -- The transaction --

/// The id of the unsigned transaction in a frame.
pub uninterp spec fn frame_txid(frame: Seq<u8>) -> Seq<u8>;

/// The outputs that the inputs of the unsigned transaction in a frame spend.
pub uninterp spec fn frame_spends(frame: Seq<u8>) -> Seq<(Seq<u8>, u32)>;

/// Calls `bitcoin::Transaction::compute_txid` on the unsigned transaction of a
/// PSBT.
///
/// Claimed of it: the id depends on the frame alone.
#[verifier::external_body]
fn unsigned_txid(psbt: &Psbt) -> (txid: [u8; 32])
    ensures
        txid@ == frame_txid(psbt_frame(*psbt)),
{
    bitcoin::hashes::Hash::to_byte_array(psbt.unsigned_tx.compute_txid())
}

/// The id of the unsigned transaction of a PSBT.
pub fn compute_txid(psbt: &Psbt) -> (txid: Txid)
    ensures
        txid@ == frame_txid(psbt_frame(*psbt)),
{
    Txid { bytes: unsigned_txid(psbt) }
}

/// Reads the number of inputs of the unsigned transaction of a `bitcoin::Psbt`.
///
/// Claimed of it: it depends on the frame alone.
#[verifier::external_body]
pub(crate) fn spend_count(psbt: &Psbt) -> (count: usize)
    ensures
        count == frame_spends(psbt_frame(*psbt)).len(),
{
    psbt.unsigned_tx.input.len()
}

/// Reads the outpoint that the first input of the unsigned transaction of a
/// `bitcoin::Psbt` spends, if there is one.
///
/// Claimed of it: it depends on the frame alone.
#[verifier::external_body]
fn read_first_spend(psbt: &Psbt) -> (spend: Option<([u8; 32], u32)>)
    ensures
        spend is Some <==> frame_spends(psbt_frame(*psbt)).len() > 0,
        spend matches Some(s) ==> (s.0@, s.1) == frame_spends(psbt_frame(*psbt))[0],
{
    let spend = psbt.unsigned_tx.input.first()?.previous_output;
    Some((bitcoin::hashes::Hash::to_byte_array(spend.txid), spend.vout))
}

/// The outpoint that the first input of a PSBT spends, if it has an input.
pub fn first_spend(psbt: &Psbt) -> (spend: Option<OutPoint>)
    ensures
        spend is Some <==> frame_spends(psbt_frame(*psbt)).len() > 0,
        spend matches Some(s) ==> s@ == frame_spends(psbt_frame(*psbt))[0],
{
    match read_first_spend(psbt) {
        Some((bytes, vout)) => Some(OutPoint { txid: Txid { bytes }, vout }),
        None => None,
    }
}

// -- Signatures --

/// Whether `bytes` is how `bitcoin::taproot::Signature::to_vec` writes a
/// signature.
pub uninterp spec fn is_tap_signature(bytes: Seq<u8>) -> bool;

/// A tapscript signature of an input.
pub struct TapSig {
    pub key: [u8; 32],
    pub leaf_hash: [u8; 32],
    pub signature: Vec<u8>,
}

impl TapSig {
    /// What the signature is filed under.
    pub open spec fn file(self) -> SigKey {
        (self.key@, self.leaf_hash@)
    }

    /// Whether the fields are a key and a signature.
    pub open spec fn is_proper(self) -> bool {
        is_x_only_key(self.key@) && is_tap_signature(self.signature@)
    }
}

/// Whether a list holds each signature of a map exactly once.
pub open spec fn lists_sigs(list: Seq<TapSig>, sigs: Map<SigKey, Seq<u8>>) -> bool {
    &&& forall|i: int|
        0 <= i < list.len() ==> {
            &&& (#[trigger] list[i]).is_proper()
            &&& sigs.dom().contains(list[i].file())
            &&& sigs[list[i].file()] == list[i].signature@
        }
    &&& forall|file: SigKey|
        sigs.dom().contains(file) ==> exists|i: int|
            0 <= i < list.len() && (#[trigger] list[i]).file() == file
    &&& forall|i: int, j: int| 0 <= i < j < list.len() ==> list[i].file() != list[j].file()
}

/// Hands out `tap_script_sigs` of one input of a `bitcoin::Psbt`.
///
/// Claimed of it: each entry of the map comes out once.
#[verifier::external_body]
fn tap_script_sigs(psbt: &Psbt, index: usize) -> (sigs: Vec<TapSig>)
    requires
        index < psbt_inputs(*psbt).len(),
    ensures
        lists_sigs(sigs@, psbt_inputs(*psbt)[index as int].sigs),
        forall|i: int|
            0 <= i < sigs.len() ==> is_tap_signature((#[trigger] sigs@[i]).signature@),
{
    psbt.inputs[index].tap_script_sigs.iter().map(|((key, leaf_hash), signature)| TapSig {
        key: key.serialize(),
        leaf_hash: bitcoin::hashes::Hash::to_byte_array(*leaf_hash),
        signature: signature.to_vec(),
    }).collect()
}

/// Calls `or_insert` on an entry of `tap_script_sigs` of one input of a
/// `bitcoin::Psbt`.
///
/// Claimed of it: it files the signature unless one is filed there already, and
/// changes nothing else. A PSBT that reads back from its bytes still does.
#[verifier::external_body]
fn insert_sig(psbt: &mut Psbt, index: usize, sig: &TapSig)
    requires
        index < psbt_inputs(*old(psbt)).len(),
        sig.is_proper(),
    ensures
        psbt_frame(*final(psbt)) == psbt_frame(*old(psbt)),
        psbt_inputs(*final(psbt)) == psbt_inputs(*old(psbt)).update(
            index as int,
            file_sig(psbt_inputs(*old(psbt))[index as int], sig.file(), sig.signature@),
        ),
        reads_back(*old(psbt)) ==> reads_back(*final(psbt)),
{
    let key = bitcoin::XOnlyPublicKey::from_slice(&sig.key).expect("an x-only key");
    let leaf_hash = bitcoin::hashes::Hash::from_byte_array(sig.leaf_hash);
    let signature = bitcoin::taproot::Signature::from_slice(&sig.signature).expect("a signature");
    psbt.inputs[index].tap_script_sigs.entry((key, leaf_hash)).or_insert(signature);
}

/// `input` with a signature filed, unless one is filed there already.
pub open spec fn file_sig(input: InputView, file: SigKey, signature: Seq<u8>) -> InputView {
    if input.sigs.dom().contains(file) {
        input
    } else {
        InputView { sigs: input.sigs.insert(file, signature), ..input }
    }
}

/// `input` with the signatures of `other`; where both have one, it keeps its own.
pub open spec fn merge_input(input: InputView, other: InputView) -> InputView {
    InputView { sigs: other.sigs.union_prefer_right(input.sigs), ..input }
}

/// `inputs` with the signatures of `others` at the same positions.
pub open spec fn merge_inputs(inputs: Seq<InputView>, others: Seq<InputView>) -> Seq<InputView> {
    Seq::new(
        inputs.len(),
        |i: int|
            if i < others.len() {
                merge_input(inputs[i], others[i])
            } else {
                inputs[i]
            },
    )
}

/// Whether `sigs` is `own` with those signatures of `others` that `list` names and
/// `own` lacks.
spec fn partly_merged(
    sigs: Map<SigKey, Seq<u8>>,
    own: Map<SigKey, Seq<u8>>,
    list: Seq<TapSig>,
    others: Map<SigKey, Seq<u8>>,
) -> bool {
    &&& forall|file: SigKey| #[trigger]
        sigs.dom().contains(file) <==> own.dom().contains(file) || exists|i: int|
            0 <= i < list.len() && (#[trigger] list[i]).file() == file
    &&& forall|file: SigKey| #[trigger]
        sigs.dom().contains(file) ==> sigs[file] == (if own.dom().contains(file) {
            own[file]
        } else {
            others[file]
        })
}

/// Files the signatures of one input of `other` in the same input of `base`.
fn merge_input_sigs(base: &mut Psbt, other: &Psbt, index: usize)
    requires
        index < psbt_inputs(*old(base)).len(),
        index < psbt_inputs(*other).len(),
    ensures
        psbt_frame(*final(base)) == psbt_frame(*old(base)),
        psbt_inputs(*final(base)) == psbt_inputs(*old(base)).update(
            index as int,
            merge_input(psbt_inputs(*old(base))[index as int], psbt_inputs(*other)[index as int]),
        ),
        reads_back(*old(base)) ==> reads_back(*final(base)),
{
    let ghost before = psbt_inputs(*base);
    let ghost was = before[index as int];
    let ghost theirs = psbt_inputs(*other)[index as int];
    let sigs = tap_script_sigs(other, index);
    let mut n: usize = 0;
    while n < sigs.len()
        invariant
            n <= sigs.len(),
            index < before.len(),
            was == before[index as int],
            lists_sigs(sigs@, theirs.sigs),
            psbt_frame(*base) == psbt_frame(*old(base)),
            reads_back(*old(base)) ==> reads_back(*base),
            psbt_inputs(*base) == before.update(
                index as int,
                InputView { sigs: psbt_inputs(*base)[index as int].sigs, ..was },
            ),
            partly_merged(
                psbt_inputs(*base)[index as int].sigs,
                was.sigs,
                sigs@.take(n as int),
                theirs.sigs,
            ),
        decreases sigs.len() - n,
    {
        let ghost now = psbt_inputs(*base)[index as int];
        let ghost done = sigs@.take(n as int);
        insert_sig(base, index, &sigs[n]);
        proof {
            let sig = sigs@[n as int];
            let next = sigs@.take(n + 1);
            let then = psbt_inputs(*base)[index as int];
            assert(next[n as int] == sig);
            assert forall|file: SigKey| #[trigger] then.sigs.dom().contains(file) <==> was.sigs.dom(
                ).contains(file) || exists|i: int|
                0 <= i < next.len() && (#[trigger] next[i]).file() == file by {
                if exists|i: int| 0 <= i < done.len() && (#[trigger] done[i]).file() == file {
                    let i = choose|i: int|
                        0 <= i < done.len() && (#[trigger] done[i]).file() == file;
                    assert(next[i] == done[i]);
                }
                if exists|i: int| 0 <= i < next.len() && (#[trigger] next[i]).file() == file {
                    let i = choose|i: int|
                        0 <= i < next.len() && (#[trigger] next[i]).file() == file;
                    if i < n {
                        assert(done[i] == next[i]);
                    }
                }
                assert(now.sigs.dom().contains(file) ==> then.sigs.dom().contains(file));
            }
            assert forall|file: SigKey| #[trigger] then.sigs.dom().contains(file) implies then.sigs[file]
                == (if was.sigs.dom().contains(file) {
                was.sigs[file]
            } else {
                theirs.sigs[file]
            }) by {
                if now.sigs.dom().contains(file) {
                    assert(then.sigs[file] == now.sigs[file]);
                }
            }
        }
        n = n + 1;
    }
    proof {
        let now = psbt_inputs(*base)[index as int];
        assert(sigs@.take(n as int) =~= sigs@);
        assert(now.sigs =~= theirs.sigs.union_prefer_right(was.sigs));
        assert(psbt_inputs(*base) =~= before.update(index as int, merge_input(was, theirs)));
    }
}

/// Files the signatures of `other` in `base`, input by input. Where both have a
/// signature, `base` keeps its own. Nothing else changes.
pub fn merge_sigs(base: &mut Psbt, other: &Psbt)
    requires
        forall|i: int|
            psbt_inputs(*old(base)).len() <= i < psbt_inputs(*other).len() ==> (
            #[trigger] psbt_inputs(*other)[i]).sigs == Map::<SigKey, Seq<u8>>::empty(),
    ensures
        psbt_frame(*final(base)) == psbt_frame(*old(base)),
        psbt_inputs(*final(base)) == merge_inputs(psbt_inputs(*old(base)), psbt_inputs(*other)),
        reads_back(*old(base)) ==> reads_back(*final(base)),
{
    let ghost before = psbt_inputs(*base);
    let ghost theirs = psbt_inputs(*other);
    let own_count: usize = input_count(base);
    let other_count: usize = input_count(other);
    let mut i: usize = 0;
    while i < own_count && i < other_count
        invariant
            i <= own_count,
            i <= other_count,
            own_count == before.len(),
            other_count == theirs.len(),
            theirs == psbt_inputs(*other),
            psbt_frame(*base) == psbt_frame(*old(base)),
            psbt_inputs(*base) == merge_inputs(before, theirs.take(i as int)),
            reads_back(*old(base)) ==> reads_back(*base),
        decreases own_count - i,
    {
        merge_input_sigs(base, other, i);
        assert(psbt_inputs(*base) =~= merge_inputs(before, theirs.take(i + 1)));
        i = i + 1;
    }
    assert(psbt_inputs(*base) =~= merge_inputs(before, theirs));
}

/// Whether the inputs of a PSBT from position `from` on carry no signature.
pub fn no_sigs_from(psbt: &Psbt, from: usize) -> (none: bool)
    ensures
        none <==> forall|i: int|
            from <= i < psbt_inputs(*psbt).len() ==> (#[trigger] psbt_inputs(*psbt)[i]).sigs
                == Map::<SigKey, Seq<u8>>::empty(),
{
    let count: usize = input_count(psbt);
    let mut i: usize = from;
    while i < count
        invariant
            from <= i,
            count == psbt_inputs(*psbt).len(),
            forall|k: int|
                from <= k < i ==> (#[trigger] psbt_inputs(*psbt)[k]).sigs == Map::<
                    SigKey,
                    Seq<u8>,
                >::empty(),
        decreases count - i,
    {
        let sigs = tap_script_sigs(psbt, i);
        let ghost map = psbt_inputs(*psbt)[i as int].sigs;
        if sigs.len() > 0 {
            assert(map.dom().contains(sigs@[0].file()));
            return false;
        }
        assert(map =~= Map::<SigKey, Seq<u8>>::empty());
        i = i + 1;
    }
    true
}

// -- Signing --

/// The output that the map of an input gives as its `witness_utxo`, if it gives one: an
/// amount and a locking script.
pub uninterp spec fn witness_utxo(other: Seq<u8>) -> Option<(u64, Seq<u8>)>;

/// Whether the map of an input has a `witness_utxo`.
pub open spec fn has_witness_utxo(other: Seq<u8>) -> bool {
    witness_utxo(other) is Some
}

/// The hash of the first leaf in `tap_scripts` of an input, as
/// `bitcoin::TapLeafHash::from_script` computes it, if there is a leaf.
pub uninterp spec fn input_leaf_hash(other: Seq<u8>) -> Option<Seq<u8>>;

/// The digest that
/// `bitcoin::sighash::SighashCache::taproot_script_spend_signature_hash` computes for
/// the default signature type: for the transaction of a frame and the input at
/// `index`, where all of `others` give the outputs that are spent and the one at
/// `index` gives the leaf.
pub uninterp spec fn script_spend_digest(
    frame: Seq<u8>,
    others: Seq<Seq<u8>>,
    index: int,
) -> Seq<u8>;

/// Reads the `witness_utxo` of one input of a `bitcoin::Psbt`.
///
/// Claimed of it: it depends on the map of the input alone.
#[verifier::external_body]
fn read_witness_utxo(psbt: &Psbt, index: usize) -> (utxo: Option<(u64, Vec<u8>)>)
    requires
        index < psbt_inputs(*psbt).len(),
    ensures
        utxo is Some <==> witness_utxo(psbt_inputs(*psbt)[index as int].other) is Some,
        utxo matches Some(u) ==> witness_utxo(psbt_inputs(*psbt)[index as int].other) == Some(
            (u.0, u.1@),
        ),
{
    let utxo = psbt.inputs[index].witness_utxo.as_ref()?;
    Some((utxo.value.to_sat(), utxo.script_pubkey.to_bytes()))
}

/// Whether one input of a PSBT has a `witness_utxo`.
pub(crate) fn read_has_witness_utxo(psbt: &Psbt, index: usize) -> (has: bool)
    requires
        index < psbt_inputs(*psbt).len(),
    ensures
        has == has_witness_utxo(psbt_inputs(*psbt)[index as int].other),
{
    read_witness_utxo(psbt, index).is_some()
}

/// Calls `bitcoin::TapLeafHash::from_script` on the first leaf in `tap_scripts` of
/// one input of a `bitcoin::Psbt`, if there is a leaf.
///
/// Claimed of it: the hash depends on the map of the input alone.
#[verifier::external_body]
pub(crate) fn read_leaf_hash(psbt: &Psbt, index: usize) -> (hash: Option<[u8; 32]>)
    requires
        index < psbt_inputs(*psbt).len(),
    ensures
        hash is Some <==> input_leaf_hash(psbt_inputs(*psbt)[index as int].other) is Some,
        hash matches Some(h) ==> input_leaf_hash(psbt_inputs(*psbt)[index as int].other) == Some(
            h@,
        ),
{
    let (_, (script, version)) = psbt.inputs[index].tap_scripts.first_key_value()?;
    Some(bitcoin::hashes::Hash::to_byte_array(bitcoin::TapLeafHash::from_script(script, *version)))
}

/// Whether one input of some inputs can be signed when the outputs that all of
/// them spend go into the signature.
pub open spec fn can_sign_with_all(inputs: Seq<InputView>, index: int) -> bool {
    &&& 0 <= index < inputs.len()
    &&& forall|i: int| 0 <= i < inputs.len() ==> has_witness_utxo((#[trigger] inputs[i]).other)
    &&& input_leaf_hash(inputs[index].other) is Some
}

/// Whether one input of some inputs can be signed by itself.
pub open spec fn can_sign_alone(inputs: Seq<InputView>, index: int) -> bool {
    &&& 0 <= index < inputs.len()
    &&& has_witness_utxo(inputs[index].other)
    &&& input_leaf_hash(inputs[index].other) is Some
}

/// Whether one input of a PSBT can be signed by itself.
pub fn is_signable_alone(psbt: &Psbt, index: usize) -> (signable: bool)
    ensures
        signable == can_sign_alone(psbt_inputs(*psbt), index as int),
{
    index < input_count(psbt) && read_has_witness_utxo(psbt, index) && read_leaf_hash(
        psbt,
        index,
    ).is_some()
}

/// Whether one input of a PSBT can be signed when the outputs that all inputs
/// spend go into the signature.
pub fn is_signable_with_all(psbt: &Psbt, index: usize) -> (signable: bool)
    ensures
        signable == can_sign_with_all(psbt_inputs(*psbt), index as int),
{
    let count: usize = input_count(psbt);
    let mut i: usize = 0;
    while i < count
        invariant
            i <= count,
            count == psbt_inputs(*psbt).len(),
            forall|k: int|
                0 <= k < i ==> has_witness_utxo((#[trigger] psbt_inputs(*psbt)[k]).other),
        decreases count - i,
    {
        if !read_has_witness_utxo(psbt, i) {
            return false;
        }
        i = i + 1;
    }
    is_signable_alone(psbt, index)
}

/// `inputs` with a signature filed in one of them, in place of any that was filed
/// there.
pub open spec fn sign_input(
    inputs: Seq<InputView>,
    index: int,
    key: Seq<u8>,
    signature: Seq<u8>,
) -> Seq<InputView> {
    let file = (key, input_leaf_hash(inputs[index].other)->0);
    inputs.update(
        index,
        InputView { sigs: inputs[index].sigs.insert(file, signature), ..inputs[index] },
    )
}

/// The maps of some inputs without signatures and witness scripts.
pub open spec fn other_maps(inputs: Seq<InputView>) -> Seq<Seq<u8>> {
    inputs.map_values(|input: InputView| input.other)
}

// -- Witness scripts --

/// Reads `witness_script` of the first input of a `bitcoin::Psbt`.
#[verifier::external_body]
pub(crate) fn first_witness_script(psbt: &Psbt) -> (script: Option<Vec<u8>>)
    requires
        psbt_inputs(*psbt).len() > 0,
    ensures
        optional_bytes(script) == psbt_inputs(*psbt)[0].witness_script,
{
    psbt.inputs[0].witness_script.as_ref().map(|script| script.to_bytes())
}

/// An optional byte string as its view.
pub open spec fn optional_bytes(bytes: Option<Vec<u8>>) -> Option<Seq<u8>> {
    match bytes {
        Some(bytes) => Some(bytes@),
        None => None,
    }
}

/// Sets `witness_script` of the first input of a `bitcoin::Psbt`.
///
/// Claimed of it: nothing else changes. A PSBT that reads back from its bytes
/// still does, if the script is no longer than a million bytes: values of four
/// million bytes are not read.
#[verifier::external_body]
pub(crate) fn set_first_witness_script(psbt: &mut Psbt, script: Option<Vec<u8>>)
    requires
        psbt_inputs(*old(psbt)).len() > 0,
    ensures
        psbt_frame(*final(psbt)) == psbt_frame(*old(psbt)),
        psbt_inputs(*final(psbt)) == psbt_inputs(*old(psbt)).update(
            0,
            InputView {
                witness_script: optional_bytes(script),
                ..psbt_inputs(*old(psbt))[0]
            },
        ),
        reads_back(*old(psbt)) && (script matches Some(s) ==> s.len() <= 1_000_000) ==> reads_back(
            *final(psbt),
        ),
{
    psbt.inputs[0].witness_script = script.map(bitcoin::ScriptBuf::from);
}

// -- Bytes and text --

/// The bytes that `bitcoin::Psbt::serialize` writes for a frame and inputs.
pub uninterp spec fn psbt_bytes(frame: Seq<u8>, inputs: Seq<InputView>) -> Seq<u8>;

/// The frame and the inputs that `bitcoin::Psbt::deserialize` reads, if it reads a
/// PSBT.
pub uninterp spec fn psbt_of_bytes(bytes: Seq<u8>) -> Option<(Seq<u8>, Seq<InputView>)>;

/// Whether what a PSBT holds reads back from the bytes that it is serialized to.
pub open spec fn view_reads_back(view: PsbtView) -> bool {
    psbt_of_bytes(psbt_bytes(view.frame, view.inputs)) == Some((view.frame, view.inputs))
}

/// Whether a PSBT reads back from the bytes that it is serialized to.
pub open spec fn reads_back(psbt: Psbt) -> bool {
    view_reads_back(psbt_view(psbt))
}

/// Calls `bitcoin::Psbt::serialize`.
///
/// Claimed of it: the bytes depend on what the PSBT holds alone.
#[verifier::external_body]
fn serialize(psbt: &Psbt) -> (bytes: Vec<u8>)
    ensures
        bytes@ == psbt_bytes(psbt_frame(*psbt), psbt_inputs(*psbt)),
{
    psbt.serialize()
}

/// Calls `bitcoin::Psbt::deserialize`.
///
/// Claimed of it: whether bytes are a PSBT, and which, depends on the bytes alone.
/// A PSBT that was read reads back from the bytes that it is serialized to, and
/// holds one input for each input of its transaction.
#[verifier::external_body]
fn deserialize(bytes: &[u8]) -> (psbt: Result<Psbt, bitcoin::psbt::Error>)
    ensures
        psbt is Ok <==> psbt_of_bytes(bytes@) is Some,
        psbt matches Ok(p) ==> {
            &&& psbt_of_bytes(bytes@) == Some((psbt_frame(p), psbt_inputs(p)))
            &&& psbt_inputs(p).len() == frame_spends(psbt_frame(p)).len()
            &&& reads_back(p)
        },
{
    Psbt::deserialize(bytes)
}

/// The base64 text of some bytes, as the standard engine writes it.
pub uninterp spec fn base64_text(bytes: Seq<u8>) -> Seq<char>;

/// The bytes that the standard base64 engine reads from a text, if it reads any.
pub uninterp spec fn base64_bytes(text: Seq<char>) -> Option<Seq<u8>>;

/// Calls `encode` on `bitcoin::base64`'s `STANDARD` engine.
///
/// Claimed of it: the text depends on the bytes alone, and reads back as them.
#[verifier::external_body]
fn base64_encode(bytes: &[u8]) -> (text: String)
    ensures
        text@ == base64_text(bytes@),
        base64_bytes(text@) == Some(bytes@),
{
    bitcoin::base64::engine::general_purpose::STANDARD.encode(bytes)
}

/// Calls `decode` on `bitcoin::base64`'s `STANDARD` engine.
///
/// Claimed of it: whether a text is base64, and of which bytes, depends on the
/// text alone.
#[verifier::external_body]
fn base64_decode(text: &str) -> (bytes: Option<Vec<u8>>)
    ensures
        optional_bytes(bytes) == base64_bytes(text@),
{
    bitcoin::base64::engine::general_purpose::STANDARD.decode(text).ok()
}

/// Why a text is no PSBT.
#[derive(Debug)]
pub enum PsbtTextError {
    /// It is not base64.
    NotBase64,
    /// The bytes that it stands for are no PSBT.
    NotPsbt(bitcoin::psbt::Error),
}

/// The text of a PSBT.
pub open spec fn psbt_text(view: PsbtView) -> Seq<char> {
    base64_text(psbt_bytes(view.frame, view.inputs))
}

/// What the PSBT that a text stands for holds, if it stands for one.
pub open spec fn psbt_of_text(text: Seq<char>) -> Option<PsbtView> {
    match base64_bytes(text) {
        Some(bytes) => match psbt_of_bytes(bytes) {
            Some((frame, inputs)) => Some(PsbtView { frame, inputs }),
            None => None,
        },
        None => None,
    }
}

/// Whether `error` says why a text stands for no PSBT.
pub open spec fn text_fails(text: Seq<char>, error: PsbtTextError) -> bool {
    &&& psbt_of_text(text) is None
    &&& error is NotBase64 <==> base64_bytes(text) is None
}

/// Writes a PSBT as base64 text. A PSBT that reads back from its bytes reads back
/// from its text.
pub fn psbt_to_base64(psbt: &Psbt) -> (text: String)
    ensures
        text@ == psbt_text(psbt_view(*psbt)),
        reads_back(*psbt) ==> psbt_of_text(text@) == Some(psbt_view(*psbt)),
{
    base64_encode(serialize(psbt).as_slice())
}

/// Reads a PSBT from base64 text.
pub fn psbt_from_base64(text: &str) -> (psbt: Result<Psbt, PsbtTextError>)
    ensures
        match psbt {
            Ok(p) => {
                &&& psbt_of_text(text@) == Some(psbt_view(p))
                &&& psbt_inputs(p).len() == frame_spends(psbt_frame(p)).len()
                &&& reads_back(p)
            },
            Err(error) => text_fails(text@, error),
        },
{
    match base64_decode(text) {
        Some(bytes) => match deserialize(bytes.as_slice()) {
            Ok(psbt) => Ok(psbt),
            Err(error) => Err(PsbtTextError::NotPsbt(error)),
        },
        None => Err(PsbtTextError::NotBase64),
    }
}

/// The text of each of some PSBTs.
pub open spec fn psbt_texts(views: Seq<PsbtView>) -> Seq<Seq<char>> {
    views.map_values(|view: PsbtView| psbt_text(view))
}

/// Writes each of some PSBTs as base64 text.
pub fn psbts_to_base64(psbts: &[Psbt]) -> (texts: Vec<String>)
    ensures
        text_views(texts@) == psbt_texts(psbt_views(psbts@)),
        forall|i: int|
            0 <= i < psbts.len() && reads_back(psbts@[i]) ==> psbt_of_text(
                (#[trigger] texts@[i])@,
            ) == Some(psbt_view(psbts@[i])),
{
    let mut texts: Vec<String> = Vec::new();
    let mut i: usize = 0;
    while i < psbts.len()
        invariant
            i <= psbts.len(),
            texts.len() == i,
            forall|k: int|
                0 <= k < i ==> (#[trigger] texts@[k])@ == psbt_text(psbt_view(psbts@[k])),
            forall|k: int|
                0 <= k < i && reads_back(psbts@[k]) ==> psbt_of_text((#[trigger] texts@[k])@)
                    == Some(psbt_view(psbts@[k])),
        decreases psbts.len() - i,
    {
        texts.push(psbt_to_base64(&psbts[i]));
        i = i + 1;
    }
    assert(text_views(texts@) =~= psbt_texts(psbt_views(psbts@)));
    texts
}

/// What some texts say.
pub open spec fn text_views(texts: Seq<String>) -> Seq<Seq<char>> {
    texts.map_values(|text: String| text@)
}

/// Whether each of some texts stands for a PSBT.
pub open spec fn all_psbts(texts: Seq<Seq<char>>) -> bool {
    forall|i: int| 0 <= i < texts.len() ==> psbt_of_text(#[trigger] texts[i]) is Some
}

/// Whether `error` says why the first of some texts that stands for no PSBT is none.
pub open spec fn texts_fail(texts: Seq<Seq<char>>, error: PsbtTextError) -> bool {
    exists|i: int|
        {
            &&& 0 <= i < texts.len()
            &&& forall|k: int| 0 <= k < i ==> psbt_of_text(#[trigger] texts[k]) is Some
            &&& text_fails(#[trigger] texts[i], error)
        }
}

/// What the PSBTs that some texts stand for hold.
pub open spec fn psbts_of_texts(texts: Seq<Seq<char>>) -> Seq<PsbtView> {
    texts.map_values(|text: Seq<char>| psbt_of_text(text)->0)
}

/// Reads a PSBT from each of some base64 texts; the first text that is none is
/// what the error is about.
pub fn psbts_from_base64(texts: &[String]) -> (psbts: Result<Vec<Psbt>, PsbtTextError>)
    ensures
        psbts is Ok <==> all_psbts(text_views(texts@)),
        match psbts {
            Ok(p) => {
                &&& psbt_views(p@) == psbts_of_texts(text_views(texts@))
                &&& forall|i: int| 0 <= i < p.len() ==> reads_back(#[trigger] p@[i])
                &&& forall|i: int|
                    0 <= i < p.len() ==> psbt_inputs(#[trigger] p@[i]).len() == frame_spends(
                        psbt_frame(p@[i]),
                    ).len()
            },
            Err(error) => texts_fail(text_views(texts@), error),
        },
{
    let mut psbts: Vec<Psbt> = Vec::new();
    let mut i: usize = 0;
    while i < texts.len()
        invariant
            i <= texts.len(),
            psbts.len() == i,
            forall|k: int| 0 <= k < i ==> psbt_of_text((#[trigger] texts@[k])@) is Some,
            psbt_views(psbts@) == psbts_of_texts(text_views(texts@).take(i as int)),
            forall|k: int| 0 <= k < i ==> reads_back(#[trigger] psbts@[k]),
            forall|k: int|
                0 <= k < i ==> psbt_inputs(#[trigger] psbts@[k]).len() == frame_spends(
                    psbt_frame(psbts@[k]),
                ).len(),
        decreases texts.len() - i,
    {
        match psbt_from_base64(texts[i].as_str()) {
            Ok(psbt) => {
                let ghost before = psbts@;
                psbts.push(psbt);
                proof {
                    let read = psbts_of_texts(text_views(texts@).take(i + 1));
                    assert forall|k: int| 0 <= k <= i implies psbt_views(psbts@)[k] == read[k] by {
                        if k < i {
                            assert(psbt_views(before)[k] == psbts_of_texts(
                                text_views(texts@).take(i as int),
                            )[k]);
                        }
                    }
                    assert(psbt_views(psbts@) =~= read);
                }
            },
            Err(error) => {
                assert(text_fails(text_views(texts@)[i as int], error));
                return Err(error);
            },
        }
        i = i + 1;
    }
    assert(text_views(texts@).take(i as int) =~= text_views(texts@));
    assert(all_psbts(text_views(texts@)));
    Ok(psbts)
}

// -- What texts stand for --

/// A text is read as the PSBT that its base64 stands for, and a PSBT is written as the base64 of
/// its bytes. An error says which of the two steps of reading failed.
pub proof fn lemma_psbt_is_read_and_written(
    text: &str,
    read: Result<Psbt, PsbtTextError>,
    psbt: &Psbt,
    written: String,
)
    requires
        call_ensures(psbt_from_base64, (text,), read),
        call_ensures(psbt_to_base64, (psbt,), written),
    ensures
        written@ == base64_text(psbt_bytes(psbt_frame(*psbt), psbt_inputs(*psbt))),
        match read {
            Ok(p) => {
                &&& base64_bytes(text@) is Some
                &&& psbt_of_bytes(base64_bytes(text@)->0) == Some((psbt_frame(p), psbt_inputs(p)))
            },
            Err(PsbtTextError::NotBase64) => base64_bytes(text@) is None,
            Err(PsbtTextError::NotPsbt(_)) => {
                &&& base64_bytes(text@) is Some
                &&& psbt_of_bytes(base64_bytes(text@)->0) is None
            },
        },
{
}

/// Texts are read one for one and in order. An error is that of the first that is no PSBT.
pub proof fn lemma_psbts_are_read_one_for_one(
    texts: &[String],
    read: Result<Vec<Psbt>, PsbtTextError>,
)
    requires
        call_ensures(psbts_from_base64, (texts,), read),
    ensures
        ({
            let psbt_at = |i: int|
                match base64_bytes(texts@[i]@) {
                    Some(bytes) => psbt_of_bytes(bytes),
                    None => None,
                };
            match read {
                Ok(psbts) => {
                    &&& psbts@.len() == texts@.len()
                    &&& forall|i: int|
                        0 <= i < texts@.len() ==> psbt_at(i) == Some(
                            (psbt_frame(#[trigger] psbts@[i]), psbt_inputs(psbts@[i])),
                        )
                },
                Err(error) => exists|i: int|
                    {
                        &&& 0 <= i < texts@.len()
                        &&& psbt_at(i) is None
                        &&& forall|k: int| 0 <= k < i ==> #[trigger] psbt_at(k) is Some
                        &&& error is NotBase64 <==> base64_bytes((#[trigger] texts@[i])@) is None
                    },
            }
        }),
{
    let views = text_views(texts@);
    let psbt_at = |i: int|
        match base64_bytes(texts@[i]@) {
            Some(bytes) => psbt_of_bytes(bytes),
            None => None,
        };
    match read {
        Ok(psbts) => {
            assert(psbt_views(psbts@).len() == views.len());
            assert forall|i: int| 0 <= i < texts@.len() implies psbt_at(i) == Some(
                (psbt_frame(#[trigger] psbts@[i]), psbt_inputs(psbts@[i])),
            ) by {
                assert(psbt_views(psbts@)[i] == psbts_of_texts(views)[i]);
                assert(psbt_of_text(views[i]) is Some);
            }
        },
        Err(error) => {
            let i = choose|i: int|
                {
                    &&& 0 <= i < views.len()
                    &&& forall|k: int| 0 <= k < i ==> psbt_of_text(#[trigger] views[k]) is Some
                    &&& text_fails(#[trigger] views[i], error)
                };
            assert(views[i] == texts@[i]@);
            assert forall|k: int| 0 <= k < i implies #[trigger] psbt_at(k) is Some by {
                assert(psbt_of_text(views[k]) is Some);
            }
        },
    }
}

} // verus!
