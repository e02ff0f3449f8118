//! Settling a delegate in a batch: what to do on each event of the ceremony.
//!
//! The caller registers the intent, listens to the server's events, and hands each
//! of them to [`Settlement::handle`]. What it gets back it sends to the server.

use ark_core::batch::NonceKps;
use ark_core::server::{NoncePks, PartialSigTree, TreeTxNoncePks};
use ark_core::TxGraph;
use bitcoin::Psbt;
use vstd::prelude::*;
use vstd::utf8::encode_utf8;

use crate::intent::{Delegate, Intent};
use crate::keys::{public_key_of, Keypair, PublicKey, XOnlyPublicKey};
use crate::psbt::{
    first_spend, frame_spends, psbt_frame, psbt_inputs, psbt_view, psbt_views, text_views, PsbtView,
};
use crate::text::{lower_hex, lower_hex_text};
use crate::tree::{
    add_sigs, all_final, all_have_inputs, are_final, can_walk, chunk_views, chunks_have_inputs,
    complete_forfeits, completed_forfeits, generate_nonces, graph_has_inputs, graph_ids,
    graph_nodes, graph_txs, has_input, has_nonce_of, is_walkable, key_signed, lemma_chunk_of,
    makes_nonces, nb_of_nodes, new_graph, no_sigs, nonce_owner, own_public_nonces, partial_sigs,
    sent_nonces, set_signature, sign_tree_tx, to_nonce_pks, tree_signature, tx_graph, tx_has_input,
    tx_nonces, unused_nonces, TreeChunk,
};
use crate::tx::{outpoint_text, Txid};

verus! {

/// The nonces of all parties for one transaction of a tree.
pub struct TxNonces {
    pub txid: Txid,
    pub nonces: TreeTxNoncePks,
}

/// Which of the two trees of a batch a transaction belongs to.
#[derive(Clone, Copy, Debug, PartialEq, Eq, Structural)]
pub enum TreeKind {
    Vtxo,
    Connector,
}

/// Where a settlement stands.
pub enum Phase {
    /// The intent is being registered.
    Registering,
    /// The intent is registered, and waits for a batch.
    Waiting { intent_id: String },
    /// A batch with the intent has started; its trees arrive.
    Started {
        batch_id: String,
        expiry: u32,
        vtxo_chunks: Vec<TreeChunk>,
        connector_chunks: Vec<TreeChunk>,
    },
    /// The tree of VTXOs is being signed.
    Signing {
        batch_id: String,
        expiry: u32,
        connector_chunks: Vec<TreeChunk>,
        graph: TxGraph,
        commitment_tx: Psbt,
        own_nonces: NonceKps,
        all_nonces: Vec<TxNonces>,
    },
    /// The forfeits were handed in; the batch is being finalized.
    Finalized { batch_id: String },
    /// The settlement has finished or failed.
    Ended,
}

/// The settlement of a delegate in a batch.
pub struct Settlement {
    /// The key pair of the delegate's cosigner.
    pub cosigner: Keypair,
    /// What gives up the VTXOs, with the signatures of their owners.
    pub forfeit_psbts: Vec<Psbt>,
    /// The key that the server takes forfeits with.
    pub forfeit_key: XOnlyPublicKey,
    pub phase: Phase,
}

/// What has happened in a settlement.
pub enum SettleEvent {
    /// The server registered the intent under an id.
    Registered { intent_id: String },
    /// A batch has started with some intents.
    BatchStarted { id: String, intent_id_hashes: Vec<String>, expiry: u32 },
    /// A transaction of a tree has arrived.
    TreeTx { kind: TreeKind, chunk: TreeChunk },
    /// The signature of a transaction of a tree has arrived.
    TreeSignature { kind: TreeKind, txid: Txid, signature: bitcoin::taproot::Signature },
    /// The signing of the tree of VTXOs has started.
    TreeSigningStarted { id: String, cosigners: Vec<PublicKey>, commitment_tx: Psbt },
    /// The nonces of all parties for a transaction of the tree have arrived.
    TreeNonces { id: String, txid: Txid, nonces: TreeTxNoncePks },
    /// The batch is being finalized.
    BatchFinalization,
    /// The batch is final.
    BatchFinalized { commitment_txid: Txid },
    /// A batch has failed.
    BatchFailed { id: String, reason: String },
    /// Nothing that matters here.
    Other,
    /// The events could not be read on.
    StreamError,
    /// There are no more events.
    StreamEnded,
}

/// What is to be done next in a settlement.
pub enum SettleAction {
    /// Wait for the next event.
    Wait,
    /// Listen to the events on some topics.
    Listen { topics: Vec<String> },
    /// Confirm the registration of the intent.
    ConfirmRegistration { intent_id: String },
    /// Submit the cosigner's public nonces.
    SubmitNonces { batch_id: String, cosigner: PublicKey, nonces: NoncePks },
    /// Submit the cosigner's signatures.
    SubmitSignatures { batch_id: String, cosigner: PublicKey, signatures: PartialSigTree },
    /// Submit the completed forfeits.
    SubmitForfeits { forfeits: Vec<Psbt> },
    /// Nothing: the settlement has finished in this transaction.
    Finish { commitment_txid: Txid },
    /// Nothing: the settlement has failed.
    Fail { failure: SettleFailure },
}

/// Why a settlement failed.
#[derive(Debug)]
pub enum SettleFailure {
    /// The key pair is not the one that the delegate was prepared for.
    CosignerMismatch,
    /// A transaction of the tree of VTXOs arrived after its signing had started.
    UnexpectedVtxoChunk,
    /// The tree of VTXOs is no tree.
    VtxoGraph(ark_core::Error),
    /// The cosigner has no part in the batch.
    NotACosigner { cosigner: PublicKey },
    /// The nonces could not be made.
    GenerateNonces(ark_core::Error),
    /// There is no nonce for a transaction of the tree.
    MissingNonce,
    /// A transaction of the tree could not be signed.
    SignTree(ark_core::Error),
    /// The tree of connectors is no tree.
    ConnectorGraph(ark_core::Error),
    /// The forfeits could not be completed.
    CompleteForfeits(ark_core::Error),
    /// The batch failed.
    BatchFailed { id: String, reason: String },
    /// The events could not be read on.
    StreamError,
    /// There are no more events.
    StreamEnded,
}

impl SettleFailure {
    /// What the failure says, apart from what caused it.
    pub open spec fn says(self) -> Seq<char> {
        match self {
            SettleFailure::CosignerMismatch => {
                "cosigner keypair does not match delegate_cosigner_pk"@
            },
            SettleFailure::UnexpectedVtxoChunk => "unexpected VTXO graph chunk"@,
            SettleFailure::VtxoGraph(_) => "building VTXO graph"@,
            SettleFailure::NotACosigner { cosigner } => {
                "own cosigner PK not in batch cosigners: "@ + lower_hex(cosigner@)
            },
            SettleFailure::GenerateNonces(_) => "generating nonce tree"@,
            SettleFailure::MissingNonce => "missing agg nonce for TX"@,
            SettleFailure::SignTree(_) => "signing VTXO tree"@,
            SettleFailure::ConnectorGraph(_) => "building connectors graph"@,
            SettleFailure::CompleteForfeits(_) => "completing forfeit TXs"@,
            SettleFailure::BatchFailed { id, reason } => {
                "batch failed "@ + id@ + ": "@ + reason@
            },
            SettleFailure::StreamError => "event stream error"@,
            SettleFailure::StreamEnded => "event stream ended unexpectedly"@,
        }
    }

    /// The failure as a text, apart from what caused it.
    pub fn message(&self) -> (message: String)
        ensures
            message@ == self.says(),
    {
        let text = match self {
            SettleFailure::NotACosigner { cosigner } => {
                return "own cosigner PK not in batch cosigners: ".to_owned().concat(
                    lower_hex_text(cosigner.serialize().as_slice()).as_str(),
                );
            },
            SettleFailure::BatchFailed { id, reason } => {
                return "batch failed ".to_owned().concat(id.as_str()).concat(": ").concat(
                    reason.as_str(),
                );
            },
            SettleFailure::CosignerMismatch => {
                "cosigner keypair does not match delegate_cosigner_pk"
            },
            SettleFailure::UnexpectedVtxoChunk => "unexpected VTXO graph chunk",
            SettleFailure::VtxoGraph(_) => "building VTXO graph",
            SettleFailure::GenerateNonces(_) => "generating nonce tree",
            SettleFailure::MissingNonce => "missing agg nonce for TX",
            SettleFailure::SignTree(_) => "signing VTXO tree",
            SettleFailure::ConnectorGraph(_) => "building connectors graph",
            SettleFailure::CompleteForfeits(_) => "completing forfeit TXs",
            SettleFailure::StreamError => "event stream error",
            SettleFailure::StreamEnded => "event stream ended unexpectedly",
        };
        text.to_owned()
    }
}

// -- Hashes --

/// The SHA-256 hash of some bytes.
pub uninterp spec fn sha256(bytes: Seq<u8>) -> Seq<u8>;

/// Calls `bitcoin::hashes::sha256::Hash::hash`.
///
/// Claimed of it: the hash depends on the bytes alone.
#[verifier::external_body]
fn sha256_hash(bytes: &[u8]) -> (hash: [u8; 32])
    ensures
        hash@ == sha256(bytes@),
{
    let hash: bitcoin::hashes::sha256::Hash = bitcoin::hashes::Hash::hash(bytes);
    bitcoin::hashes::Hash::to_byte_array(hash)
}

/// How a batch names an intent: by the hash of its id, in hexadecimal.
pub open spec fn intent_hash(intent_id: Seq<char>) -> Seq<char> {
    lower_hex(sha256(encode_utf8(intent_id)))
}

/// Whether `hashes` names an intent.
pub open spec fn names_intent(hashes: Seq<Seq<char>>, intent_id: Seq<char>) -> bool {
    hashes.contains(intent_hash(intent_id))
}

/// Whether `hashes` names an intent.
fn lists_intent(hashes: &Vec<String>, intent_id: &String) -> (lists: bool)
    ensures
        lists == names_intent(text_views(hashes@), intent_id@),
{
    let own = lower_hex_text(sha256_hash(intent_id.as_str().as_bytes()).as_slice());
    let ghost views = text_views(hashes@);
    let mut i: usize = 0;
    while i < hashes.len()
        invariant
            i <= hashes.len(),
            views == text_views(hashes@),
            own@ == intent_hash(intent_id@),
            forall|k: int| 0 <= k < i ==> views[k] != own@,
        decreases hashes.len() - i,
    {
        assert(views[i as int] == hashes@[i as int]@);
        if hashes[i] == own {
            assert(views.contains(own@));
            return true;
        }
        i = i + 1;
    }
    false
}

// -- Nonces --

/// Where the nonces for a transaction stand in a list; the length of the list if
/// they are not there.
pub open spec fn nonce_position(list: Seq<TxNonces>, txid: Seq<u8>) -> int
    decreases list.len(),
{
    if list.len() == 0 {
        0
    } else {
        let earlier = nonce_position(list.drop_last(), txid);
        if earlier < list.len() - 1 || list.last().txid@ == txid {
            earlier
        } else {
            list.len() as int
        }
    }
}

/// A list with the nonces for a transaction, in place of any that were there.
pub open spec fn put_nonces(list: Seq<TxNonces>, entry: TxNonces) -> Seq<TxNonces> {
    let at = nonce_position(list, entry.txid@);
    if at < list.len() {
        list.update(at, entry)
    } else {
        list.push(entry)
    }
}

/// Whether no transaction has its nonces in a list twice.
pub open spec fn nonces_are_distinct(list: Seq<TxNonces>) -> bool {
    forall|i: int, j: int|
        0 <= i < j < list.len() ==> (#[trigger] list[i]).txid@ != (#[trigger] list[j]).txid@
}

proof fn lemma_nonce_position(list: Seq<TxNonces>, txid: Seq<u8>)
    ensures
        0 <= nonce_position(list, txid) <= list.len(),
        nonce_position(list, txid) < list.len() ==> list[nonce_position(list, txid)].txid@ == txid,
        forall|i: int|
            0 <= i < nonce_position(list, txid) ==> (#[trigger] list[i]).txid@ != txid,
    decreases list.len(),
{
    if list.len() > 0 {
        let rest = list.drop_last();
        lemma_nonce_position(rest, txid);
        assert forall|i: int| 0 <= i < nonce_position(list, txid) implies (
        #[trigger] list[i]).txid@ != txid by {
            if i < rest.len() {
                assert(rest[i] == list[i]);
            }
        }
    }
}

/// Putting nonces into a list keeps each transaction's nonces in it once.
pub proof fn lemma_put_nonces_distinct(list: Seq<TxNonces>, entry: TxNonces)
    requires
        nonces_are_distinct(list),
    ensures
        nonces_are_distinct(put_nonces(list, entry)),
{
    lemma_nonce_position(list, entry.txid@);
    let put = put_nonces(list, entry);
    let at = nonce_position(list, entry.txid@);
    assert forall|i: int, j: int| 0 <= i < j < put.len() implies (#[trigger] put[i]).txid@ != (
    #[trigger] put[j]).txid@ by {
        if i != at {
            assert(put[i] == list[i]);
        }
        if j != at {
            assert(put[j] == list[j]);
        }
        if at < list.len() {
            assert(list[at].txid@ == entry.txid@);
        }
    }
}

/// Where the nonces for a transaction stand in a list, if they are there.
fn find_nonces(list: &Vec<TxNonces>, txid: &Txid) -> (at: Option<usize>)
    ensures
        match at {
            Some(i) => i == nonce_position(list@, txid@) && i < list.len(),
            None => nonce_position(list@, txid@) == list.len(),
        },
{
    let mut i: usize = 0;
    proof {
        lemma_nonce_position(list@, txid@);
    }
    while i < list.len()
        invariant
            i <= list.len(),
            forall|k: int| 0 <= k < i ==> (#[trigger] list@[k]).txid@ != txid@,
            0 <= nonce_position(list@, txid@) <= list.len(),
            nonce_position(list@, txid@) < list.len() ==> list@[nonce_position(
                list@,
                txid@,
            )].txid@ == txid@,
            forall|k: int|
                0 <= k < nonce_position(list@, txid@) ==> (#[trigger] list@[k]).txid@ != txid@,
        decreases list.len() - i,
    {
        if list[i].txid.same(txid) {
            return Some(i);
        }
        i = i + 1;
    }
    None
}

// -- How a settlement proceeds --

/// The topics that the events of a settlement come under: the VTXOs that are given
/// up, and the cosigner.
pub open spec fn topics_of(forfeits: Seq<PsbtView>, cosigner: Seq<u8>) -> Seq<Seq<char>> {
    forfeits.map_values(
        |forfeit: PsbtView|
            outpoint_text(frame_spends(forfeit.frame)[0].0, frame_spends(forfeit.frame)[0].1),
    ).push(lower_hex(cosigner))
}

/// Whether each of some forfeits has an input.
pub open spec fn forfeits_have_inputs(forfeits: Seq<Psbt>) -> bool {
    forall|i: int| 0 <= i < forfeits.len() ==> has_input(psbt_view(#[trigger] forfeits[i]))
}

/// Whether each of some forfeits has an input.
fn have_inputs(forfeits: &Vec<Psbt>) -> (have: bool)
    ensures
        have == forfeits_have_inputs(forfeits@),
{
    let mut i: usize = 0;
    while i < forfeits.len()
        invariant
            i <= forfeits.len(),
            forall|k: int| 0 <= k < i ==> has_input(psbt_view(#[trigger] forfeits@[k])),
        decreases forfeits.len() - i,
    {
        if !tx_has_input(&forfeits[i]) {
            assert(!has_input(psbt_view(forfeits@[i as int])));
            return false;
        }
        i = i + 1;
    }
    true
}

/// Whether a key is among some keys.
pub open spec fn lists_key(keys: Seq<PublicKey>, key: Seq<u8>) -> bool {
    exists|i: int| 0 <= i < keys.len() && (#[trigger] keys[i])@ == key
}

/// Whether there are nonces for each transaction of a graph.
pub open spec fn covers(list: Seq<TxNonces>, graph: TxGraph) -> bool {
    forall|txid: Seq<u8>| #[trigger]
        graph_txs(graph).dom().contains(txid) ==> nonce_position(list, txid) < list.len()
}

/// The batch that a settlement takes part in, if it does.
pub open spec fn batch_of(phase: Phase) -> Option<Seq<char>> {
    match phase {
        Phase::Started { batch_id, .. } => Some(batch_id@),
        Phase::Signing { batch_id, .. } => Some(batch_id@),
        Phase::Finalized { batch_id } => Some(batch_id@),
        _ => None,
    }
}

/// Whether nothing happens: the settlement waits as it stands.
pub open spec fn ignores(before: Phase, after: Phase, action: SettleAction) -> bool {
    after == before && action is Wait
}

/// Whether a settlement fails.
pub open spec fn fails(after: Phase, action: SettleAction) -> bool {
    after is Ended && action is Fail
}

/// What registering the intent leads to: listening to the events.
pub open spec fn on_registered(
    settlement: Settlement,
    intent_id: Seq<char>,
    after: Phase,
    action: SettleAction,
) -> bool {
    &&& after matches Phase::Waiting { intent_id: id }
    &&& id@ == intent_id
    &&& action matches SettleAction::Listen { topics }
    &&& text_views(topics@) == topics_of(
        psbt_views(settlement.forfeit_psbts@),
        settlement.own_key(),
    )
}

/// What the start of a batch leads to: if the batch has the intent, its
/// registration is confirmed.
pub open spec fn on_batch_started(
    before: Phase,
    id: Seq<char>,
    intent_id_hashes: Seq<Seq<char>>,
    expiry: u32,
    after: Phase,
    action: SettleAction,
) -> bool {
    match before {
        Phase::Waiting { intent_id } => if names_intent(intent_id_hashes, intent_id@) {
            &&& after matches Phase::Started {
                batch_id,
                expiry: until,
                vtxo_chunks,
                connector_chunks,
            }
            &&& batch_id@ == id
            &&& until == expiry
            &&& vtxo_chunks@ == Seq::<TreeChunk>::empty()
            &&& connector_chunks@ == Seq::<TreeChunk>::empty()
            &&& action matches SettleAction::ConfirmRegistration { intent_id: confirmed }
            &&& confirmed@ == intent_id@
        } else {
            ignores(before, after, action)
        },
        _ => ignores(before, after, action),
    }
}

/// What a transaction of a tree leads to: it is kept, unless the tree is being
/// signed already.
pub open spec fn on_tree_tx(
    before: Phase,
    kind: TreeKind,
    chunk: TreeChunk,
    after: Phase,
    action: SettleAction,
) -> bool {
    match before {
        Phase::Started { batch_id, expiry, vtxo_chunks, connector_chunks } => {
            &&& after matches Phase::Started {
                batch_id: b,
                expiry: e,
                vtxo_chunks: v,
                connector_chunks: c,
            }
            &&& b == batch_id
            &&& e == expiry
            &&& v@ == (if kind is Vtxo {
                vtxo_chunks@.push(chunk)
            } else {
                vtxo_chunks@
            })
            &&& c@ == (if kind is Connector {
                connector_chunks@.push(chunk)
            } else {
                connector_chunks@
            })
            &&& action is Wait
        },
        Phase::Signing {
            batch_id,
            expiry,
            connector_chunks,
            graph,
            commitment_tx,
            own_nonces,
            all_nonces,
        } => if kind is Vtxo {
            fails(after, action) && action->failure is UnexpectedVtxoChunk
        } else {
            &&& after matches Phase::Signing {
                batch_id: b,
                expiry: e,
                connector_chunks: c,
                graph: g,
                commitment_tx: t,
                own_nonces: o,
                all_nonces: a,
            }
            &&& b == batch_id
            &&& e == expiry
            &&& c@ == connector_chunks@.push(chunk)
            &&& g == graph
            &&& t == commitment_tx
            &&& o == own_nonces
            &&& a == all_nonces
            &&& action is Wait
        },
        _ => ignores(before, after, action),
    }
}

/// What the signature of a transaction leads to: while the tree of VTXOs is being
/// signed, it is kept with its transaction.
pub open spec fn on_tree_signature(
    before: Phase,
    kind: TreeKind,
    txid: Seq<u8>,
    signature: bitcoin::taproot::Signature,
    after: Phase,
    action: SettleAction,
) -> bool {
    match before {
        Phase::Signing {
            batch_id,
            expiry,
            connector_chunks,
            graph,
            commitment_tx,
            own_nonces,
            all_nonces,
        } => if kind is Vtxo {
            &&& after matches Phase::Signing {
                batch_id: b,
                expiry: e,
                connector_chunks: c,
                graph: g,
                commitment_tx: t,
                own_nonces: o,
                all_nonces: a,
            }
            &&& b == batch_id
            &&& e == expiry
            &&& c == connector_chunks
            &&& graph_nodes(g) == graph_nodes(graph)
            &&& graph_txs(g) == (if graph_txs(graph).dom().contains(txid) {
                graph_txs(graph).insert(txid, key_signed(graph_txs(graph)[txid], signature))
            } else {
                graph_txs(graph)
            })
            &&& t == commitment_tx
            &&& o == own_nonces
            &&& a == all_nonces
            &&& action is Wait
        } else {
            ignores(before, after, action)
        },
        _ => ignores(before, after, action),
    }
}

/// What the start of signing leads to: the cosigner, if it is one, submits nonces
/// for the tree that has arrived.
pub open spec fn on_signing_started(
    settlement: Settlement,
    id: Seq<char>,
    cosigners: Seq<PublicKey>,
    commitment_tx: Psbt,
    after: Phase,
    action: SettleAction,
) -> bool {
    match settlement.phase {
        Phase::Started { batch_id, expiry, vtxo_chunks, connector_chunks } => match tx_graph(
            chunk_views(vtxo_chunks@),
        ) {
            None => fails(after, action) && action->failure is VtxoGraph,
            Some(graph) => if !lists_key(cosigners, settlement.own_key()) {
                fails(after, action) && (action->failure matches SettleFailure::NotACosigner {
                    cosigner,
                } && cosigner@ == settlement.own_key())
            } else if !makes_nonces(
                graph_txs(graph),
                settlement.own_key(),
                psbt_view(commitment_tx),
            ) {
                fails(after, action) && action->failure is GenerateNonces
            } else {
                &&& after matches Phase::Signing {
                    batch_id: b,
                    expiry: e,
                    connector_chunks: c,
                    graph: g,
                    commitment_tx: t,
                    own_nonces,
                    all_nonces,
                }
                &&& b == batch_id
                &&& e == expiry
                &&& c == connector_chunks
                &&& g == graph
                &&& t == commitment_tx
                &&& unused_nonces(own_nonces) == graph_txs(graph).dom()
                &&& all_nonces@ == Seq::<TxNonces>::empty()
                &&& action matches SettleAction::SubmitNonces {
                    batch_id: to,
                    cosigner,
                    nonces,
                }
                &&& to@ == id
                &&& cosigner@ == settlement.own_key()
                &&& sent_nonces(nonces) == own_public_nonces(own_nonces)
                &&& sent_nonces(nonces).dom() == graph_txs(graph).dom()
            },
        },
        _ => ignores(settlement.phase, after, action),
    }
}

/// All that a cosigner signs a tree with.
pub struct TreeSigner {
    pub secret: Seq<u8>,
    pub forfeit_key: Seq<u8>,
    pub expiry: u32,
    pub txs: Map<Seq<u8>, PsbtView>,
    pub commitment_tx: PsbtView,
    /// The cosigner's public nonces, by transaction.
    pub own_nonces: Map<Seq<u8>, Seq<u8>>,
    /// The transactions whose nonces were not used.
    pub unused: Set<Seq<u8>>,
    /// The nonces of all parties.
    pub all_nonces: Seq<TxNonces>,
}

impl TreeSigner {
    /// What the cosigner makes of a transaction with a nonce that was not used.
    pub open spec fn signature(self, txid: Seq<u8>) -> Option<Seq<u8>> {
        tree_signature(
            txid,
            self.expiry,
            self.forfeit_key,
            self.secret,
            self.own_nonces[txid],
            tx_nonces(self.all_nonces[nonce_position(self.all_nonces, txid)].nonces),
            self.txs,
            self.commitment_tx,
        )
    }

    /// Whether the cosigner can sign a transaction.
    pub open spec fn signs(self, txid: Seq<u8>) -> bool {
        self.unused.contains(txid) && self.signature(txid) is Some
    }

    /// The signatures on some transactions.
    pub open spec fn signatures(self, ids: Set<Seq<u8>>) -> Map<Seq<u8>, Seq<u8>> {
        Map::new(|txid: Seq<u8>| ids.contains(txid), |txid: Seq<u8>| self.signature(txid)->0)
    }
}

/// What a cosigner signs a tree with, once the nonces of all parties are there.
pub open spec fn tree_signer(
    cosigner: Keypair,
    forfeit_key: XOnlyPublicKey,
    expiry: u32,
    graph: TxGraph,
    commitment_tx: Psbt,
    own_nonces: NonceKps,
    all_nonces: Seq<TxNonces>,
) -> TreeSigner {
    TreeSigner {
        secret: cosigner.secret_bytes(),
        forfeit_key: forfeit_key@,
        expiry,
        txs: graph_txs(graph),
        commitment_tx: psbt_view(commitment_tx),
        own_nonces: own_public_nonces(own_nonces),
        unused: unused_nonces(own_nonces),
        all_nonces,
    }
}

/// What the nonces for a transaction lead to: they are kept if the cosigner's are
/// among them. Once there are as many as the tree has transactions, the cosigner
/// signs each of these and uses up its nonces.
pub open spec fn on_tree_nonces(
    settlement: Settlement,
    id: Seq<char>,
    entry: TxNonces,
    after: Phase,
    action: SettleAction,
) -> bool {
    match settlement.phase {
        Phase::Signing {
            batch_id,
            expiry,
            connector_chunks,
            graph,
            commitment_tx,
            own_nonces,
            all_nonces,
        } => {
            let list = put_nonces(all_nonces@, entry);
            let ids = graph_txs(graph).dom();
            let signer = tree_signer(
                settlement.cosigner,
                settlement.forfeit_key,
                expiry,
                graph,
                commitment_tx,
                own_nonces,
                list,
            );
            let is_complete = list.len() == graph_nodes(graph);
            if !tx_nonces(entry.nonces).dom().contains(settlement.cosigner.x_only_bytes()) {
                ignores(settlement.phase, after, action)
            } else if is_complete && !covers(list, graph) {
                fails(after, action) && action->failure is MissingNonce
            } else if is_complete && !(forall|txid: Seq<u8>| #[trigger]
                ids.contains(txid) ==> signer.signs(txid)) {
                fails(after, action) && action->failure is SignTree
            } else {
                &&& after matches Phase::Signing {
                    batch_id: b,
                    expiry: e,
                    connector_chunks: c,
                    graph: g,
                    commitment_tx: t,
                    own_nonces: o,
                    all_nonces: a,
                }
                &&& b == batch_id
                &&& e == expiry
                &&& c == connector_chunks
                &&& g == graph
                &&& t == commitment_tx
                &&& a@ == list
                &&& if is_complete {
                    &&& action matches SettleAction::SubmitSignatures {
                        batch_id: to,
                        cosigner,
                        signatures,
                    }
                    &&& to@ == id
                    &&& cosigner@ == settlement.own_key()
                    &&& partial_sigs(signatures) == signer.signatures(ids)
                    &&& unused_nonces(o) == unused_nonces(own_nonces).difference(ids)
                } else {
                    o == own_nonces && action is Wait
                }
            }
        },
        _ => ignores(settlement.phase, after, action),
    }
}

/// What the finalization of a batch leads to: if there are connectors, the forfeits
/// are completed with them and submitted.
pub open spec fn on_finalization(
    settlement: Settlement,
    after: Phase,
    action: SettleAction,
) -> bool {
    let forfeits = psbt_views(settlement.forfeit_psbts@);
    match settlement.phase {
        Phase::Signing { batch_id, connector_chunks, .. } => if connector_chunks@.len() == 0 {
            after == (Phase::Finalized { batch_id }) && action is Wait
        } else {
            match tx_graph(chunk_views(connector_chunks@)) {
                None => fails(after, action) && action->failure is ConnectorGraph,
                Some(connectors) => match completed_forfeits(forfeits, connectors) {
                    None => fails(after, action) && action->failure is CompleteForfeits,
                    Some(completed) => {
                        &&& after == (Phase::Finalized { batch_id })
                        &&& action matches SettleAction::SubmitForfeits { forfeits: submitted }
                        &&& psbt_views(submitted@) == completed
                    },
                },
            }
        },
        _ => ignores(settlement.phase, after, action),
    }
}

/// What the end of a batch leads to: the settlement finishes with it, if its
/// forfeits were handed in.
pub open spec fn on_finalized(
    before: Phase,
    commitment_txid: Txid,
    after: Phase,
    action: SettleAction,
) -> bool {
    if before is Finalized {
        after is Ended && action == (SettleAction::Finish { commitment_txid })
    } else {
        ignores(before, after, action)
    }
}

/// What the failure of a batch leads to: the settlement fails with its own batch,
/// and with no other.
pub open spec fn on_failed(
    before: Phase,
    id: String,
    reason: String,
    after: Phase,
    action: SettleAction,
) -> bool {
    if batch_of(before) == Some(id@) {
        after is Ended && action == (SettleAction::Fail {
            failure: SettleFailure::BatchFailed { id, reason },
        })
    } else {
        ignores(before, after, action)
    }
}

/// Whether an event leads a settlement to `after`, and `action` is to be done.
pub open spec fn leads_to(
    settlement: Settlement,
    event: SettleEvent,
    after: Phase,
    action: SettleAction,
) -> bool {
    let before = settlement.phase;
    match event {
        SettleEvent::Registered { intent_id } => on_registered(
            settlement,
            intent_id@,
            after,
            action,
        ),
        SettleEvent::BatchStarted { id, intent_id_hashes, expiry } => on_batch_started(
            before,
            id@,
            text_views(intent_id_hashes@),
            expiry,
            after,
            action,
        ),
        SettleEvent::TreeTx { kind, chunk } => on_tree_tx(before, kind, chunk, after, action),
        SettleEvent::TreeSignature { kind, txid, signature } => on_tree_signature(
            before,
            kind,
            txid@,
            signature,
            after,
            action,
        ),
        SettleEvent::TreeSigningStarted { id, cosigners, commitment_tx } => on_signing_started(
            settlement,
            id@,
            cosigners@,
            commitment_tx,
            after,
            action,
        ),
        SettleEvent::TreeNonces { id, txid, nonces } => on_tree_nonces(
            settlement,
            id@,
            TxNonces { txid, nonces },
            after,
            action,
        ),
        SettleEvent::BatchFinalization => on_finalization(settlement, after, action),
        SettleEvent::BatchFinalized { commitment_txid } => on_finalized(
            before,
            commitment_txid,
            after,
            action,
        ),
        SettleEvent::BatchFailed { id, reason } => on_failed(before, id, reason, after, action),
        SettleEvent::Other => ignores(before, after, action),
        SettleEvent::StreamError => fails(after, action) && action->failure is StreamError,
        SettleEvent::StreamEnded => fails(after, action) && action->failure is StreamEnded,
    }
}

/// Whether an event can be handled: registration comes first and once, and the
/// trees that the server sent can be walked and spend something.
pub open spec fn can_handle(settlement: Settlement, event: SettleEvent) -> bool {
    match (settlement.phase, event) {
        (phase, SettleEvent::Registered { .. }) => phase is Registering,
        (
            Phase::Started { vtxo_chunks, .. },
            SettleEvent::TreeSigningStarted { cosigners, .. },
        ) => {
            let chunks = chunk_views(vtxo_chunks@);
            &&& is_walkable(chunks)
            &&& all_final(chunks) && lists_key(cosigners@, settlement.own_key())
                ==> all_have_inputs(chunks)
        },
        (Phase::Signing { connector_chunks, .. }, SettleEvent::BatchFinalization) => is_walkable(
            chunk_views(connector_chunks@),
        ),
        _ => true,
    }
}

impl Settlement {
    /// The cosigner's public key.
    pub open spec fn own_key(self) -> Seq<u8> {
        public_key_of(self.cosigner.secret_bytes())
    }

    /// What holds of a settlement at all times: every forfeit spends something, the
    /// tree that is signed can be signed with the cosigner's nonces, and nonces that
    /// were kept have the cosigner's among them.
    pub open spec fn well_formed(self) -> bool {
        &&& forfeits_have_inputs(self.forfeit_psbts@)
        &&& match self.phase {
            Phase::Signing { graph, own_nonces, all_nonces, .. } => {
                &&& graph_has_inputs(graph)
                &&& nonce_owner(own_nonces) == self.own_key()
                &&& nonces_are_distinct(all_nonces@)
                &&& forall|i: int|
                    0 <= i < all_nonces@.len() ==> tx_nonces(
                        (#[trigger] all_nonces@[i]).nonces,
                    ).dom().contains(self.cosigner.x_only_bytes())
            },
            _ => true,
        }
    }
}

/// Whether a key is among some keys.
fn is_listed(keys: &Vec<PublicKey>, key: &PublicKey) -> (listed: bool)
    ensures
        listed == lists_key(keys@, key@),
{
    let mut i: usize = 0;
    while i < keys.len()
        invariant
            i <= keys.len(),
            forall|k: int| 0 <= k < i ==> (#[trigger] keys@[k])@ != key@,
        decreases keys.len() - i,
    {
        if keys[i].same(key) {
            return true;
        }
        i = i + 1;
    }
    false
}

/// The topics that the events of a settlement come under.
fn topics(forfeit_psbts: &Vec<Psbt>, cosigner: &PublicKey) -> (topics: Vec<String>)
    requires
        forfeits_have_inputs(forfeit_psbts@),
    ensures
        text_views(topics@) == topics_of(psbt_views(forfeit_psbts@), cosigner@),
{
    let ghost views = psbt_views(forfeit_psbts@);
    let mut topics: Vec<String> = Vec::new();
    let mut i: usize = 0;
    while i < forfeit_psbts.len()
        invariant
            i <= forfeit_psbts.len(),
            topics.len() == i,
            views == psbt_views(forfeit_psbts@),
            forfeits_have_inputs(forfeit_psbts@),
            forall|k: int|
                0 <= k < i ==> (#[trigger] topics@[k])@ == outpoint_text(
                    frame_spends(views[k].frame)[0].0,
                    frame_spends(views[k].frame)[0].1,
                ),
        decreases forfeit_psbts.len() - i,
    {
        assert(has_input(psbt_view(forfeit_psbts@[i as int])));
        match first_spend(&forfeit_psbts[i]) {
            Some(outpoint) => topics.push(outpoint.to_string()),
            None => {
                assert(false);
            },
        }
        i = i + 1;
    }
    topics.push(lower_hex_text(cosigner.serialize().as_slice()));
    assert(text_views(topics@) =~= topics_of(views, cosigner@));
    topics
}

/// Whether there are nonces for each of some transactions.
fn covers_ids(list: &Vec<TxNonces>, ids: &Vec<Txid>) -> (covered: bool)
    ensures
        covered <==> forall|i: int|
            0 <= i < ids.len() ==> nonce_position(list@, (#[trigger] ids@[i])@) < list.len(),
{
    let mut i: usize = 0;
    while i < ids.len()
        invariant
            i <= ids.len(),
            forall|k: int|
                0 <= k < i ==> nonce_position(list@, (#[trigger] ids@[k])@) < list.len(),
        decreases ids.len() - i,
    {
        if find_nonces(list, &ids[i]).is_none() {
            assert(nonce_position(list@, ids@[i as int]@) == list.len());
            return false;
        }
        i = i + 1;
    }
    true
}

/// The ids of the first `n` of some transactions.
spec fn first_ids(ids: Seq<Txid>, n: int) -> Set<Seq<u8>> {
    Set::new(|txid: Seq<u8>| exists|i: int| 0 <= i < n && (#[trigger] ids[i])@ == txid)
}

/// Signs each of some transactions of a tree.
fn sign_all(
    cosigner: &Keypair,
    forfeit_key: &XOnlyPublicKey,
    expiry: u32,
    ids: &Vec<Txid>,
    list: &Vec<TxNonces>,
    graph: &TxGraph,
    commitment_tx: &Psbt,
    own_nonces: &mut NonceKps,
) -> (signed: Result<PartialSigTree, ark_core::Error>)
    requires
        graph_has_inputs(*graph),
        nonce_owner(*old(own_nonces)) == public_key_of(cosigner.secret_bytes()),
        forall|i: int, j: int| 0 <= i < j < ids.len() ==> ids@[i]@ != ids@[j]@,
        forall|i: int|
            0 <= i < ids.len() ==> nonce_position(list@, (#[trigger] ids@[i])@) < list.len(),
        forall|i: int|
            0 <= i < list.len() ==> tx_nonces((#[trigger] list@[i]).nonces).dom().contains(
                cosigner.x_only_bytes(),
            ),
    ensures
        nonce_owner(*final(own_nonces)) == nonce_owner(*old(own_nonces)),
        ({
            let all = first_ids(ids@, ids@.len() as int);
            let signer = tree_signer(
                *cosigner,
                *forfeit_key,
                expiry,
                *graph,
                *commitment_tx,
                *old(own_nonces),
                list@,
            );
            match signed {
                Ok(s) => {
                    &&& forall|i: int| 0 <= i < ids.len() ==> signer.signs((#[trigger] ids@[i])@)
                    &&& partial_sigs(s) == signer.signatures(all)
                    &&& unused_nonces(*final(own_nonces)) == signer.unused.difference(all)
                },
                Err(_) => exists|i: int|
                    0 <= i < ids.len() && !signer.signs((#[trigger] ids@[i])@),
            }
        }),
{
    let ghost signer = tree_signer(
        *cosigner,
        *forfeit_key,
        expiry,
        *graph,
        *commitment_tx,
        *own_nonces,
        list@,
    );
    let mut sigs = no_sigs();
    let mut i: usize = 0;
    proof {
        assert(first_ids(ids@, 0) =~= Set::empty());
        assert(signer.unused =~= signer.unused.difference(first_ids(ids@, 0)));
        assert(partial_sigs(sigs) =~= signer.signatures(first_ids(ids@, 0)));
    }
    while i < ids.len()
        invariant
            i <= ids.len(),
            graph_has_inputs(*graph),
            signer == tree_signer(
                *cosigner,
                *forfeit_key,
                expiry,
                *graph,
                *commitment_tx,
                *old(own_nonces),
                list@,
            ),
            nonce_owner(*own_nonces) == nonce_owner(*old(own_nonces)),
            nonce_owner(*own_nonces) == public_key_of(cosigner.secret_bytes()),
            own_public_nonces(*own_nonces) == signer.own_nonces,
            forall|k: int, j: int| 0 <= k < j < ids.len() ==> ids@[k]@ != ids@[j]@,
            forall|k: int|
                0 <= k < ids.len() ==> nonce_position(list@, (#[trigger] ids@[k])@) < list.len(),
            forall|k: int|
                0 <= k < list.len() ==> tx_nonces((#[trigger] list@[k]).nonces).dom().contains(
                    cosigner.x_only_bytes(),
                ),
            forall|k: int| 0 <= k < i ==> signer.signs((#[trigger] ids@[k])@),
            partial_sigs(sigs) == signer.signatures(first_ids(ids@, i as int)),
            unused_nonces(*own_nonces) == signer.unused.difference(first_ids(ids@, i as int)),
        decreases ids.len() - i,
    {
        let ghost txid = ids@[i as int]@;
        let ghost now = first_ids(ids@, i as int);
        let ghost kept = partial_sigs(sigs);
        proof {
            assert(nonce_position(list@, txid) < list.len());
            if now.contains(txid) {
                let k = choose|k: int| 0 <= k < i && (#[trigger] ids@[k])@ == txid;
                assert(ids@[k]@ != ids@[i as int]@);
            }
        }
        match find_nonces(list, &ids[i]) {
            Some(at) => {
                match sign_tree_tx(
                    ids[i],
                    expiry,
                    forfeit_key,
                    cosigner,
                    &list[at].nonces,
                    graph,
                    commitment_tx,
                    own_nonces,
                ) {
                    Ok(more) => add_sigs(&mut sigs, more),
                    Err(error) => {
                        assert(!signer.signs(ids@[i as int]@));
                        return Err(error);
                    },
                }
            },
            None => {
                assert(false);
            },
        }
        proof {
            let next = first_ids(ids@, i + 1);
            assert forall|t: Seq<u8>| #[trigger] next.contains(t) <==> now.contains(t) || t
                == txid by {
                if t == txid {
                    assert(ids@[i as int]@ == t);
                }
            }
            assert(next =~= now.insert(txid));
            assert(partial_sigs(sigs) =~= kept.insert(txid, signer.signature(txid)->0));
            assert(partial_sigs(sigs) =~= signer.signatures(next));
            assert(unused_nonces(*own_nonces) =~= signer.unused.difference(next));
        }
        i = i + 1;
    }
    Ok(sigs)
}

impl Settlement {
    /// Begins the settlement of a delegate that its owners have signed. The intent
    /// is to be registered first.
    pub fn new(delegate: Delegate, cosigner: Keypair, forfeit_pk: &PublicKey) -> (begun: Result<
        (Settlement, Intent),
        SettleFailure,
    >)
        requires
            public_key_of(cosigner.secret_bytes()) == delegate.delegate_cosigner_pk@
                ==> forfeits_have_inputs(delegate.forfeit_psbts@),
        ensures
            match begun {
                Ok((settlement, intent)) => {
                    &&& public_key_of(cosigner.secret_bytes()) == delegate.delegate_cosigner_pk@
                    &&& settlement == (Settlement {
                        cosigner,
                        forfeit_psbts: delegate.forfeit_psbts,
                        forfeit_key: forfeit_pk.without_parity(),
                        phase: Phase::Registering,
                    })
                    &&& settlement.well_formed()
                    &&& settlement.forfeit_key@ == forfeit_pk@.subrange(1, 33)
                    &&& intent == delegate.intent
                },
                Err(failure) => {
                    &&& failure is CosignerMismatch
                    &&& public_key_of(cosigner.secret_bytes()) != delegate.delegate_cosigner_pk@
                },
            },
    {
        if !cosigner.public_key().same(&delegate.delegate_cosigner_pk) {
            return Err(SettleFailure::CosignerMismatch);
        }
        let settlement = Settlement {
            cosigner,
            forfeit_psbts: delegate.forfeit_psbts,
            forfeit_key: forfeit_pk.x_only(),
            phase: Phase::Registering,
        };
        Ok((settlement, delegate.intent))
    }

    /// Begins the settlement of a delegate, unless one of its forfeits has no input.
    pub fn try_new(delegate: Delegate, cosigner: Keypair, forfeit_pk: &PublicKey) -> (begun: Option<
        Result<(Settlement, Intent), SettleFailure>,
    >)
        ensures
            ({
                let is_cosigner = public_key_of(cosigner.secret_bytes())
                    == delegate.delegate_cosigner_pk@;
                match begun {
                    Some(Ok((settlement, intent))) => {
                        &&& is_cosigner && forfeits_have_inputs(delegate.forfeit_psbts@)
                        &&& settlement == (Settlement {
                            cosigner,
                            forfeit_psbts: delegate.forfeit_psbts,
                            forfeit_key: forfeit_pk.without_parity(),
                            phase: Phase::Registering,
                        })
                        &&& settlement.well_formed()
                        &&& settlement.forfeit_key@ == forfeit_pk@.subrange(1, 33)
                        &&& intent == delegate.intent
                    },
                    Some(Err(failure)) => failure is CosignerMismatch && !is_cosigner,
                    None => is_cosigner && !forfeits_have_inputs(delegate.forfeit_psbts@),
                }
            }),
    {
        if cosigner.public_key().same(&delegate.delegate_cosigner_pk) && !have_inputs(
            &delegate.forfeit_psbts,
        ) {
            return None;
        }
        Some(Settlement::new(delegate, cosigner, forfeit_pk))
    }

    /// Whether an event can be handled.
    pub fn accepts(&self, event: &SettleEvent) -> (accepted: bool)
        ensures
            accepted == can_handle(*self, *event),
    {
        match (&self.phase, event) {
            (phase, SettleEvent::Registered { .. }) => matches!(phase, Phase::Registering),
            (
                Phase::Started { vtxo_chunks, .. },
                SettleEvent::TreeSigningStarted { cosigners, .. },
            ) => {
                let chunks = vtxo_chunks.as_slice();
                can_walk(chunks) && (!are_final(chunks) || !is_listed(
                    cosigners,
                    &self.cosigner.public_key(),
                ) || chunks_have_inputs(chunks))
            },
            (Phase::Signing { connector_chunks, .. }, SettleEvent::BatchFinalization) => can_walk(
                connector_chunks.as_slice(),
            ),
            _ => true,
        }
    }

    /// Handles an event of the ceremony.
    pub fn handle(self, event: SettleEvent) -> (handled: (Settlement, SettleAction))
        requires
            self.well_formed(),
            can_handle(self, event),
        ensures
            handled.0.well_formed(),
            handled.0.cosigner == self.cosigner,
            handled.0.forfeit_psbts == self.forfeit_psbts,
            handled.0.forfeit_key == self.forfeit_key,
            leads_to(self, event, handled.0.phase, handled.1),
    {
        let Settlement { cosigner, forfeit_psbts, forfeit_key, phase } = self;
        let (phase, action) = match event {
            SettleEvent::Registered { intent_id } => {
                let topics = topics(&forfeit_psbts, &cosigner.public_key());
                (Phase::Waiting { intent_id }, SettleAction::Listen { topics })
            },
            SettleEvent::BatchStarted { id, intent_id_hashes, expiry } => batch_started(
                phase,
                id,
                &intent_id_hashes,
                expiry,
            ),
            SettleEvent::TreeTx { kind, chunk } => tree_tx(phase, kind, chunk),
            SettleEvent::TreeSignature { kind, txid, signature } => tree_tx_signed(
                phase,
                kind,
                txid,
                signature,
            ),
            SettleEvent::TreeSigningStarted { id, cosigners, commitment_tx } => signing_started(
                &cosigner,
                &forfeit_psbts,
                &forfeit_key,
                phase,
                id,
                &cosigners,
                commitment_tx,
            ),
            SettleEvent::TreeNonces { id, txid, nonces } => tree_nonces(
                &cosigner,
                &forfeit_psbts,
                &forfeit_key,
                phase,
                id,
                TxNonces { txid, nonces },
            ),
            SettleEvent::BatchFinalization => batch_finalization(
                &cosigner,
                &forfeit_psbts,
                &forfeit_key,
                phase,
            ),
            SettleEvent::BatchFinalized { commitment_txid } => match phase {
                Phase::Finalized { .. } => (
                    Phase::Ended,
                    SettleAction::Finish { commitment_txid },
                ),
                other => (other, SettleAction::Wait),
            },
            SettleEvent::BatchFailed { id, reason } => batch_failed(phase, id, reason),
            SettleEvent::Other => (phase, SettleAction::Wait),
            SettleEvent::StreamError => (
                Phase::Ended,
                SettleAction::Fail { failure: SettleFailure::StreamError },
            ),
            SettleEvent::StreamEnded => (
                Phase::Ended,
                SettleAction::Fail { failure: SettleFailure::StreamEnded },
            ),
        };
        (Settlement { cosigner, forfeit_psbts, forfeit_key, phase }, action)
    }
}

/// A batch has started.
fn batch_started(phase: Phase, id: String, intent_id_hashes: &Vec<String>, expiry: u32) -> (next: (
    Phase,
    SettleAction,
))
    ensures
        on_batch_started(
            phase,
            id@,
            text_views(intent_id_hashes@),
            expiry,
            next.0,
            next.1,
        ),
        next.0 is Signing ==> next.0 == phase,
{
    match phase {
        Phase::Waiting { intent_id } => if lists_intent(intent_id_hashes, &intent_id) {
            (
                Phase::Started {
                    batch_id: id,
                    expiry,
                    vtxo_chunks: Vec::new(),
                    connector_chunks: Vec::new(),
                },
                SettleAction::ConfirmRegistration { intent_id },
            )
        } else {
            (Phase::Waiting { intent_id }, SettleAction::Wait)
        },
        other => (other, SettleAction::Wait),
    }
}

/// A transaction of a tree has arrived.
fn tree_tx(phase: Phase, kind: TreeKind, chunk: TreeChunk) -> (next: (Phase, SettleAction))
    ensures
        on_tree_tx(phase, kind, chunk, next.0, next.1),
{
    match phase {
        Phase::Started { batch_id, expiry, vtxo_chunks, connector_chunks } => {
            let mut vtxo_chunks = vtxo_chunks;
            let mut connector_chunks = connector_chunks;
            match kind {
                TreeKind::Vtxo => vtxo_chunks.push(chunk),
                TreeKind::Connector => connector_chunks.push(chunk),
            }
            (
                Phase::Started { batch_id, expiry, vtxo_chunks, connector_chunks },
                SettleAction::Wait,
            )
        },
        Phase::Signing {
            batch_id,
            expiry,
            connector_chunks,
            graph,
            commitment_tx,
            own_nonces,
            all_nonces,
        } => match kind {
            TreeKind::Vtxo => (
                Phase::Ended,
                SettleAction::Fail { failure: SettleFailure::UnexpectedVtxoChunk },
            ),
            TreeKind::Connector => {
                let mut connector_chunks = connector_chunks;
                connector_chunks.push(chunk);
                (
                    Phase::Signing {
                        batch_id,
                        expiry,
                        connector_chunks,
                        graph,
                        commitment_tx,
                        own_nonces,
                        all_nonces,
                    },
                    SettleAction::Wait,
                )
            },
        },
        other => (other, SettleAction::Wait),
    }
}

/// The signature of a transaction of a tree has arrived.
fn tree_tx_signed(
    phase: Phase,
    kind: TreeKind,
    txid: Txid,
    signature: bitcoin::taproot::Signature,
) -> (next: (Phase, SettleAction))
    requires
        phase is Signing ==> graph_has_inputs(phase->Signing_graph),
    ensures
        on_tree_signature(phase, kind, txid@, signature, next.0, next.1),
        next.0 is Signing ==> graph_has_inputs(next.0->Signing_graph),
{
    match phase {
        Phase::Signing {
            batch_id,
            expiry,
            connector_chunks,
            graph,
            commitment_tx,
            own_nonces,
            all_nonces,
        } => {
            let mut graph = graph;
            let ghost before = graph;
            match kind {
                TreeKind::Vtxo => {
                    set_signature(&mut graph, txid, signature);
                    proof {
                        assert forall|t: Seq<u8>| #[trigger] graph_txs(graph).dom().contains(
                            t,
                        ) implies has_input(graph_txs(graph)[t]) by {
                            assert(graph_txs(before).dom().contains(t));
                        }
                    }
                },
                TreeKind::Connector => {},
            }
            (
                Phase::Signing {
                    batch_id,
                    expiry,
                    connector_chunks,
                    graph,
                    commitment_tx,
                    own_nonces,
                    all_nonces,
                },
                SettleAction::Wait,
            )
        },
        other => (other, SettleAction::Wait),
    }
}

/// The signing of the tree of VTXOs has started.
fn signing_started(
    cosigner: &Keypair,
    forfeit_psbts: &Vec<Psbt>,
    forfeit_key: &XOnlyPublicKey,
    phase: Phase,
    id: String,
    cosigners: &Vec<PublicKey>,
    commitment_tx: Psbt,
) -> (next: (Phase, SettleAction))
    requires
        phase matches Phase::Started { vtxo_chunks, .. } ==> is_walkable(chunk_views(vtxo_chunks@))
            && (all_final(chunk_views(vtxo_chunks@)) && lists_key(
            cosigners@,
            public_key_of(cosigner.secret_bytes()),
        ) ==> all_have_inputs(chunk_views(vtxo_chunks@))),
    ensures
        on_signing_started(
            Settlement {
                cosigner: *cosigner,
                forfeit_psbts: *forfeit_psbts,
                forfeit_key: *forfeit_key,
                phase,
            },
            id@,
            cosigners@,
            commitment_tx,
            next.0,
            next.1,
        ),
        phase is Started && next.0 is Signing ==> {
            &&& graph_has_inputs(next.0->Signing_graph)
            &&& nonce_owner(next.0->Signing_own_nonces) == public_key_of(cosigner.secret_bytes())
        },
{
    match phase {
        Phase::Started { batch_id, expiry, vtxo_chunks, connector_chunks } => {
            let ghost views = chunk_views(vtxo_chunks@);
            let graph = match new_graph(vtxo_chunks) {
                Ok(graph) => graph,
                Err(error) => {
                    let failure = SettleFailure::VtxoGraph(error);
                    return (Phase::Ended, SettleAction::Fail { failure });
                },
            };
            let own = cosigner.public_key();
            if !is_listed(cosigners, &own) {
                let failure = SettleFailure::NotACosigner { cosigner: own };
                return (Phase::Ended, SettleAction::Fail { failure });
            }
            proof {
                assert forall|t: Seq<u8>| #[trigger] graph_txs(graph).dom().contains(
                    t,
                ) implies has_input(graph_txs(graph)[t]) by {
                    lemma_chunk_of(views, t);
                    let chunk = crate::tree::chunk_of(views, t)->0;
                    let i = choose|i: int| 0 <= i < views.len() && views[i] == chunk;
                    assert(has_input(views[i].tx));
                }
            }
            let own_nonces = match generate_nonces(&graph, &own, &commitment_tx) {
                Ok(own_nonces) => own_nonces,
                Err(error) => {
                    let failure = SettleFailure::GenerateNonces(error);
                    return (Phase::Ended, SettleAction::Fail { failure });
                },
            };
            let nonces = to_nonce_pks(&own_nonces);
            (
                Phase::Signing {
                    batch_id,
                    expiry,
                    connector_chunks,
                    graph,
                    commitment_tx,
                    own_nonces,
                    all_nonces: Vec::new(),
                },
                SettleAction::SubmitNonces { batch_id: id, cosigner: own, nonces },
            )
        },
        other => (other, SettleAction::Wait),
    }
}

/// The nonces for a transaction of the tree have arrived.
fn tree_nonces(
    cosigner: &Keypair,
    forfeit_psbts: &Vec<Psbt>,
    forfeit_key: &XOnlyPublicKey,
    phase: Phase,
    id: String,
    entry: TxNonces,
) -> (next: (Phase, SettleAction))
    requires
        (Settlement {
            cosigner: *cosigner,
            forfeit_psbts: *forfeit_psbts,
            forfeit_key: *forfeit_key,
            phase,
        }).well_formed(),
    ensures
        on_tree_nonces(
            Settlement {
                cosigner: *cosigner,
                forfeit_psbts: *forfeit_psbts,
                forfeit_key: *forfeit_key,
                phase,
            },
            id@,
            entry,
            next.0,
            next.1,
        ),
        (Settlement {
            cosigner: *cosigner,
            forfeit_psbts: *forfeit_psbts,
            forfeit_key: *forfeit_key,
            phase: next.0,
        }).well_formed(),
{
    match phase {
        Phase::Signing {
            batch_id,
            expiry,
            connector_chunks,
            graph,
            commitment_tx,
            own_nonces,
            all_nonces,
        } => {
            let own = cosigner.x_only_public_key();
            if !has_nonce_of(&entry.nonces, &own) {
                return (
                    Phase::Signing {
                        batch_id,
                        expiry,
                        connector_chunks,
                        graph,
                        commitment_tx,
                        own_nonces,
                        all_nonces,
                    },
                    SettleAction::Wait,
                );
            }
            let ghost kept = all_nonces@;
            let mut all_nonces = all_nonces;
            proof {
                lemma_put_nonces_distinct(kept, entry);
                lemma_nonce_position(kept, entry.txid@);
            }
            match find_nonces(&all_nonces, &entry.txid) {
                Some(at) => all_nonces.set(at, entry),
                None => all_nonces.push(entry),
            }
            assert(all_nonces@ == put_nonces(kept, entry));
            assert forall|i: int| 0 <= i < all_nonces.len() implies tx_nonces(
                (#[trigger] all_nonces@[i]).nonces,
            ).dom().contains(cosigner.x_only_bytes()) by {
                if i < kept.len() {
                    assert(tx_nonces(kept[i].nonces).dom().contains(cosigner.x_only_bytes()));
                }
            }
            if all_nonces.len() != nb_of_nodes(&graph) {
                return (
                    Phase::Signing {
                        batch_id,
                        expiry,
                        connector_chunks,
                        graph,
                        commitment_tx,
                        own_nonces,
                        all_nonces,
                    },
                    SettleAction::Wait,
                );
            }
            let ids = graph_ids(&graph);
            proof {
                if covers(all_nonces@, graph) {
                    assert forall|i: int| 0 <= i < ids.len() implies nonce_position(
                        all_nonces@,
                        (#[trigger] ids@[i])@,
                    ) < all_nonces.len() by {
                        assert(graph_txs(graph).dom().contains(ids@[i]@));
                    }
                }
            }
            if !covers_ids(&all_nonces, &ids) {
                let failure = SettleFailure::MissingNonce;
                return (Phase::Ended, SettleAction::Fail { failure });
            }
            proof {
                assert forall|t: Seq<u8>| #[trigger] graph_txs(graph).dom().contains(
                    t,
                ) implies nonce_position(all_nonces@, t) < all_nonces.len() by {
                    let i = choose|i: int| 0 <= i < ids.len() && (#[trigger] ids@[i])@ == t;
                    assert(nonce_position(all_nonces@, ids@[i]@) < all_nonces.len());
                }
                assert(first_ids(ids@, ids@.len() as int) =~= graph_txs(graph).dom());
            }
            let ghost signer = tree_signer(
                *cosigner,
                *forfeit_key,
                expiry,
                graph,
                commitment_tx,
                own_nonces,
                all_nonces@,
            );
            let mut own_nonces = own_nonces;
            match sign_all(
                cosigner,
                forfeit_key,
                expiry,
                &ids,
                &all_nonces,
                &graph,
                &commitment_tx,
                &mut own_nonces,
            ) {
                Ok(signatures) => {
                    proof {
                        assert forall|t: Seq<u8>| #[trigger]
                            graph_txs(graph).dom().contains(t) implies signer.signs(t) by {
                            let i = choose|i: int|
                                0 <= i < ids.len() && (#[trigger] ids@[i])@ == t;
                            assert(signer.signs(ids@[i]@));
                        }
                    }
                    (
                        Phase::Signing {
                            batch_id,
                            expiry,
                            connector_chunks,
                            graph,
                            commitment_tx,
                            own_nonces,
                            all_nonces,
                        },
                        SettleAction::SubmitSignatures {
                            batch_id: id,
                            cosigner: cosigner.public_key(),
                            signatures,
                        },
                    )
                },
                Err(error) => {
                    proof {
                        let i = choose|i: int|
                            0 <= i < ids.len() && !signer.signs((#[trigger] ids@[i])@);
                        assert(graph_txs(graph).dom().contains(ids@[i]@));
                    }
                    let failure = SettleFailure::SignTree(error);
                    (Phase::Ended, SettleAction::Fail { failure })
                },
            }
        },
        other => (other, SettleAction::Wait),
    }
}

/// The batch is being finalized.
fn batch_finalization(
    cosigner: &Keypair,
    forfeit_psbts: &Vec<Psbt>,
    forfeit_key: &XOnlyPublicKey,
    phase: Phase,
) -> (next: (Phase, SettleAction))
    requires
        forfeits_have_inputs(forfeit_psbts@),
        phase matches Phase::Signing { connector_chunks, .. } ==> is_walkable(
            chunk_views(connector_chunks@),
        ),
    ensures
        on_finalization(
            Settlement {
                cosigner: *cosigner,
                forfeit_psbts: *forfeit_psbts,
                forfeit_key: *forfeit_key,
                phase,
            },
            next.0,
            next.1,
        ),
{
    match phase {
        Phase::Signing { batch_id, connector_chunks, .. } => {
            if connector_chunks.len() == 0 {
                return (Phase::Finalized { batch_id }, SettleAction::Wait);
            }
            let connectors = match new_graph(connector_chunks) {
                Ok(connectors) => connectors,
                Err(error) => {
                    let failure = SettleFailure::ConnectorGraph(error);
                    return (Phase::Ended, SettleAction::Fail { failure });
                },
            };
            match complete_forfeits(forfeit_psbts, &connectors) {
                Ok(forfeits) => (
                    Phase::Finalized { batch_id },
                    SettleAction::SubmitForfeits { forfeits },
                ),
                Err(error) => {
                    let failure = SettleFailure::CompleteForfeits(error);
                    (Phase::Ended, SettleAction::Fail { failure })
                },
            }
        },
        other => (other, SettleAction::Wait),
    }
}

/// Whether a settlement takes part in a batch.
fn is_in_batch(phase: &Phase, id: &String) -> (is_in: bool)
    ensures
        is_in == (batch_of(*phase) == Some(id@)),
{
    match phase {
        Phase::Started { batch_id, .. } => *batch_id == *id,
        Phase::Signing { batch_id, .. } => *batch_id == *id,
        Phase::Finalized { batch_id } => *batch_id == *id,
        _ => false,
    }
}

/// A batch has failed.
fn batch_failed(phase: Phase, id: String, reason: String) -> (next: (Phase, SettleAction))
    ensures
        on_failed(phase, id, reason, next.0, next.1),
{
    if is_in_batch(&phase, &id) {
        let failure = SettleFailure::BatchFailed { id, reason };
        (Phase::Ended, SettleAction::Fail { failure })
    } else {
        (phase, SettleAction::Wait)
    }
}

// -- What holds of every settlement --

/// How far a settlement has come.
pub open spec fn progress(phase: Phase) -> int {
    match phase {
        Phase::Registering => 0,
        Phase::Waiting { .. } => 1,
        Phase::Started { .. } => 2,
        Phase::Signing { .. } => 3,
        Phase::Finalized { .. } => 4,
        Phase::Ended => 5,
    }
}

/// A settlement never goes back, and leaves out no phase unless it fails.
pub proof fn lemma_settlement_goes_forward(
    settlement: Settlement,
    event: SettleEvent,
    after: Phase,
    action: SettleAction,
)
    requires
        can_handle(settlement, event),
        leads_to(settlement, event, after, action),
    ensures
        progress(after) >= progress(settlement.phase),
        progress(after) <= progress(settlement.phase) + 1 || action is Fail,
        progress(after) == progress(settlement.phase) ==> action is Wait
            || action is SubmitSignatures || action is Fail,
{
}

/// A settlement finishes only when its batch is final after the forfeits were
/// handed in, and with the batch's transaction.
pub proof fn lemma_finishes_with_batch(
    settlement: Settlement,
    event: SettleEvent,
    after: Phase,
    action: SettleAction,
)
    requires
        leads_to(settlement, event, after, action),
        action is Finish,
    ensures
        settlement.phase is Finalized,
        event == (SettleEvent::BatchFinalized { commitment_txid: action->Finish_commitment_txid }),
        after is Ended,
{
}

/// Each phase is left by one kind of action only: registering by listening, waiting
/// by confirming, the start by submitting nonces, signing by handing in forfeits or
/// having none to hand in. Since a settlement never goes back, each of these is done
/// once at most.
pub proof fn lemma_actions_belong_to_phases(
    settlement: Settlement,
    event: SettleEvent,
    after: Phase,
    action: SettleAction,
)
    requires
        can_handle(settlement, event),
        leads_to(settlement, event, after, action),
    ensures
        action is Listen ==> settlement.phase is Registering && after is Waiting,
        action is ConfirmRegistration ==> settlement.phase is Waiting && after is Started,
        action is SubmitNonces ==> settlement.phase is Started && after is Signing,
        action is SubmitSignatures ==> settlement.phase is Signing && after is Signing,
        action is SubmitForfeits ==> settlement.phase is Signing && after is Finalized,
{
}

/// Nonces are used once: a tree that was signed is not signed again with the nonces
/// that are left.
pub proof fn lemma_signs_once(
    settlement: Settlement,
    event: SettleEvent,
    after: Phase,
    action: SettleAction,
    again: SettleEvent,
    last: Phase,
    then: SettleAction,
)
    requires
        leads_to(settlement, event, after, action),
        action is SubmitSignatures,
        graph_txs(after->Signing_graph).dom().len() > 0,
        graph_txs(after->Signing_graph).dom().finite(),
        leads_to(Settlement { phase: after, ..settlement }, again, last, then),
    ensures
        !(then is SubmitSignatures),
{
    let ids = graph_txs(after->Signing_graph).dom();
    let txid = ids.choose();
    assert(ids.contains(txid));
    if then is SubmitSignatures {
        assert(unused_nonces(after->Signing_own_nonces).contains(txid));
    }
}

// -- What each event does --

/// Once the intent is registered, the events are listened to that concern it: those of each
/// VTXO that is given up, by its outpoint, and those of the cosigner, by its key.
pub proof fn lemma_listens_to_own_events(
    before: Settlement,
    intent_id: String,
    after: Settlement,
    action: SettleAction,
)
    requires
        call_ensures(
            Settlement::handle,
            (before, SettleEvent::Registered { intent_id }),
            (after, action),
        ),
    ensures
        ({
            let forfeits = before.forfeit_psbts@;
            &&& after.phase matches Phase::Waiting { intent_id: id }
            &&& id@ == intent_id@
            &&& action matches SettleAction::Listen { topics }
            &&& topics@.len() == forfeits.len() + 1
            &&& topics@.last()@ == lower_hex(public_key_of(before.cosigner.secret_bytes()))
            &&& forall|i: int|
                0 <= i < forfeits.len() ==> {
                    let spent = frame_spends(psbt_frame(#[trigger] forfeits[i]))[0];
                    topics@[i]@ == outpoint_text(spent.0, spent.1)
                }
        }),
{
    let forfeits = psbt_views(before.forfeit_psbts@);
    let topics = action->topics;
    let listed = text_views(topics@);
    assert(listed == topics_of(forfeits, before.own_key()));
    assert(listed.len() == forfeits.len() + 1);
    assert(listed.last() == topics@.last()@);
    assert forall|i: int| 0 <= i < before.forfeit_psbts@.len() implies {
        let spent = frame_spends(psbt_frame(#[trigger] before.forfeit_psbts@[i]))[0];
        topics@[i]@ == outpoint_text(spent.0, spent.1)
    } by {
        assert(listed[i] == topics@[i]@);
        assert(forfeits[i] == psbt_view(before.forfeit_psbts@[i]));
    }
}

/// A settlement takes part in the first batch that names its intent, and in no other: it
/// confirms its own intent, and keeps the id and the expiry that the server announced.
pub proof fn lemma_joins_the_batch_that_names_it(
    before: Settlement,
    id: String,
    intent_id_hashes: Vec<String>,
    expiry: u32,
    after: Settlement,
    action: SettleAction,
)
    requires
        call_ensures(
            Settlement::handle,
            (before, SettleEvent::BatchStarted { id, intent_id_hashes, expiry }),
            (after, action),
        ),
    ensures
        before.phase matches Phase::Waiting { intent_id } && (exists|i: int|
            0 <= i < intent_id_hashes@.len() && (#[trigger] intent_id_hashes@[i])@ == lower_hex(
                sha256(encode_utf8(intent_id@)),
            )) ==> {
            &&& action matches SettleAction::ConfirmRegistration { intent_id: confirmed }
            &&& confirmed@ == before.phase->intent_id@
            &&& after.phase is Started
            &&& after.phase->Started_batch_id@ == id@
            &&& after.phase->Started_expiry == expiry
            &&& after.phase->Started_vtxo_chunks@.len() == 0
            &&& after.phase->Started_connector_chunks@.len() == 0
        },
        !(before.phase is Waiting && exists|i: int|
            0 <= i < intent_id_hashes@.len() && (#[trigger] intent_id_hashes@[i])@ == lower_hex(
                sha256(encode_utf8(before.phase->intent_id@)),
            )) ==> after.phase == before.phase && action is Wait,
{
    let hashes = text_views(intent_id_hashes@);
    if before.phase is Waiting {
        let own = lower_hex(sha256(encode_utf8(before.phase->intent_id@)));
        if exists|i: int|
            0 <= i < intent_id_hashes@.len() && (#[trigger] intent_id_hashes@[i])@ == own {
            let i = choose|i: int|
                0 <= i < intent_id_hashes@.len() && (#[trigger] intent_id_hashes@[i])@ == own;
            assert(hashes[i] == own);
            assert(hashes.contains(own));
        }
        if hashes.contains(own) {
            let i = choose|i: int| 0 <= i < hashes.len() && hashes[i] == own;
            assert(intent_id_hashes@[i]@ == own);
        }
    }
}

/// A transaction of a tree that arrives is kept behind those of its own tree that have
/// arrived, and the other tree stays as it is. Once the tree of VTXOs is being signed, no
/// transaction of it may arrive any more.
pub proof fn lemma_trees_arrive_in_order(
    before: Settlement,
    kind: TreeKind,
    chunk: TreeChunk,
    after: Settlement,
    action: SettleAction,
)
    requires
        call_ensures(
            Settlement::handle,
            (before, SettleEvent::TreeTx { kind, chunk }),
            (after, action),
        ),
    ensures
        before.phase is Started ==> {
            let vtxos = before.phase->Started_vtxo_chunks@;
            let connectors = before.phase->Started_connector_chunks@;
            &&& action is Wait
            &&& after.phase is Started
            &&& after.phase->Started_batch_id == before.phase->Started_batch_id
            &&& after.phase->Started_expiry == before.phase->Started_expiry
            &&& kind == TreeKind::Vtxo ==> after.phase->Started_vtxo_chunks@ == vtxos + seq![chunk]
                && after.phase->Started_connector_chunks@ == connectors
            &&& kind == TreeKind::Connector ==> after.phase->Started_vtxo_chunks@ == vtxos
                && after.phase->Started_connector_chunks@ == connectors + seq![chunk]
        },
        before.phase is Signing && kind == TreeKind::Vtxo ==> {
            &&& after.phase is Ended
            &&& action matches SettleAction::Fail { failure }
            &&& failure is UnexpectedVtxoChunk
        },
        before.phase is Signing && kind == TreeKind::Connector ==> {
            &&& action is Wait
            &&& after.phase is Signing
            &&& after.phase->Signing_batch_id == before.phase->Signing_batch_id
            &&& after.phase->Signing_expiry == before.phase->Signing_expiry
            &&& after.phase->Signing_connector_chunks@ == before.phase->Signing_connector_chunks@
                + seq![chunk]
            &&& after.phase->Signing_graph == before.phase->Signing_graph
            &&& after.phase->Signing_commitment_tx == before.phase->Signing_commitment_tx
            &&& after.phase->Signing_own_nonces == before.phase->Signing_own_nonces
            &&& after.phase->Signing_all_nonces == before.phase->Signing_all_nonces
        },
        !(before.phase is Started || before.phase is Signing) ==> after.phase == before.phase
            && action is Wait,
{
    if before.phase is Started {
        assert(before.phase->Started_vtxo_chunks@.push(chunk)
            =~= before.phase->Started_vtxo_chunks@ + seq![chunk]);
        assert(before.phase->Started_connector_chunks@.push(chunk)
            =~= before.phase->Started_connector_chunks@ + seq![chunk]);
    }
    if before.phase is Signing {
        assert(before.phase->Signing_connector_chunks@.push(chunk)
            =~= before.phase->Signing_connector_chunks@ + seq![chunk]);
    }
}

/// While a tree of VTXOs has not arrived as a whole, nothing is signed; once its signing
/// starts, the cosigner submits public nonces for exactly its transactions, if it is listed
/// and the chunks make a tree.
pub proof fn lemma_nonces_are_submitted_for_the_tree(
    before: Settlement,
    id: String,
    cosigners: Vec<PublicKey>,
    commitment_tx: Psbt,
    after: Settlement,
    action: SettleAction,
)
    requires
        before.phase is Started,
        call_ensures(
            Settlement::handle,
            (before, SettleEvent::TreeSigningStarted { id, cosigners, commitment_tx }),
            (after, action),
        ),
    ensures
        ({
            let own = public_key_of(before.cosigner.secret_bytes());
            let is_listed = exists|i: int| 0 <= i < cosigners@.len() && (#[trigger] cosigners@[i])@
                == own;
            match tx_graph(before.phase->Started_vtxo_chunks@.map_values(|chunk: TreeChunk| chunk@)) {
                None => {
                    &&& after.phase is Ended
                    &&& action matches SettleAction::Fail { failure }
                    &&& failure is VtxoGraph
                },
                Some(graph) => if !is_listed {
                    &&& after.phase is Ended
                    &&& action matches SettleAction::Fail { failure }
                    &&& failure matches SettleFailure::NotACosigner { cosigner }
                    &&& cosigner@ == own
                } else if !makes_nonces(graph_txs(graph), own, psbt_view(commitment_tx)) {
                    &&& after.phase is Ended
                    &&& action matches SettleAction::Fail { failure }
                    &&& failure is GenerateNonces
                } else {
                    &&& action matches SettleAction::SubmitNonces { batch_id, cosigner, nonces }
                    &&& batch_id@ == id@
                    &&& cosigner@ == own
                    &&& sent_nonces(nonces).dom() == graph_txs(graph).dom()
                    &&& after.phase is Signing
                    &&& sent_nonces(nonces) == own_public_nonces(after.phase->Signing_own_nonces)
                    &&& unused_nonces(after.phase->Signing_own_nonces) == graph_txs(graph).dom()
                    &&& after.phase->Signing_graph == graph
                    &&& after.phase->Signing_commitment_tx == commitment_tx
                    &&& after.phase->Signing_batch_id == before.phase->Started_batch_id
                    &&& after.phase->Signing_expiry == before.phase->Started_expiry
                    &&& after.phase->Signing_connector_chunks
                        == before.phase->Started_connector_chunks
                    &&& after.phase->Signing_all_nonces@.len() == 0
                },
            }
        }),
{
    assert(chunk_views(before.phase->Started_vtxo_chunks@)
        == before.phase->Started_vtxo_chunks@.map_values(|chunk: TreeChunk| chunk@));
}

/// The nonces of a transaction replace those that were kept for it and leave all others as
/// they are; nonces that lack the cosigner's own change nothing.
pub proof fn lemma_nonces_are_kept(
    before: Settlement,
    id: String,
    txid: Txid,
    nonces: TreeTxNoncePks,
    after: Settlement,
    action: SettleAction,
)
    requires
        before.phase is Signing,
        before.well_formed(),
        call_ensures(
            Settlement::handle,
            (before, SettleEvent::TreeNonces { id, txid, nonces }),
            (after, action),
        ),
    ensures
        ({
            let was = before.phase->Signing_all_nonces@;
            let now = after.phase->Signing_all_nonces@;
            let is_own = tx_nonces(nonces).dom().contains(before.cosigner.x_only_bytes());
            &&& !is_own ==> after.phase == before.phase && action is Wait
            &&& is_own && after.phase is Signing ==> {
                &&& exists|i: int|
                    0 <= i < now.len() && (#[trigger] now[i]).txid@ == txid@ && now[i].nonces
                        == nonces
                &&& forall|i: int|
                    0 <= i < was.len() && (#[trigger] was[i]).txid@ != txid@ ==> now[i] == was[i]
                &&& forall|i: int|
                    0 <= i < now.len() && (#[trigger] now[i]).txid@ != txid@ ==> i < was.len()
                        && was[i] == now[i]
                &&& forall|i: int, j: int|
                    0 <= i < j < now.len() ==> (#[trigger] now[i]).txid@ != (
                    #[trigger] now[j]).txid@
            }
        }),
{
    let was = before.phase->Signing_all_nonces@;
    let entry = TxNonces { txid, nonces };
    let at = nonce_position(was, txid@);
    lemma_nonce_position(was, txid@);
    lemma_put_nonces_distinct(was, entry);
    let is_own = tx_nonces(nonces).dom().contains(before.cosigner.x_only_bytes());
    if is_own && after.phase is Signing {
        let now = after.phase->Signing_all_nonces@;
        assert(now == put_nonces(was, entry));
        assert(now[at] == entry);
        assert forall|i: int| 0 <= i < was.len() && (#[trigger] was[i]).txid@ != txid@ implies now[i]
            == was[i] by {
            assert(i != at);
        }
    }
}

/// Once nonces were kept for as many transactions as the tree has, the cosigner signs every
/// transaction of the tree, and no other: each with its own secret key and nonce, the nonces
/// of all parties for that transaction, and the expiry, the tree and the commitment
/// transaction of its batch. Before that it waits.
pub proof fn lemma_every_transaction_is_signed(
    before: Settlement,
    id: String,
    txid: Txid,
    nonces: TreeTxNoncePks,
    after: Settlement,
    action: SettleAction,
)
    requires
        before.phase is Signing,
        before.well_formed(),
        tx_nonces(nonces).dom().contains(before.cosigner.x_only_bytes()),
        call_ensures(
            Settlement::handle,
            (before, SettleEvent::TreeNonces { id, txid, nonces }),
            (after, action),
        ),
    ensures
        ({
            let phase = before.phase;
            let own = own_public_nonces(phase->Signing_own_nonces);
            let txs = graph_txs(phase->Signing_graph);
            let was = phase->Signing_all_nonces@;
            let is_new = forall|i: int| 0 <= i < was.len() ==> (#[trigger] was[i]).txid@ != txid@;
            let count = if is_new {
                was.len() + 1
            } else {
                was.len()
            };
            let nonces_for = |t: Seq<u8>, of: TreeTxNoncePks|
                if t == txid@ {
                    of == nonces
                } else {
                    exists|i: int| 0 <= i < was.len() && (#[trigger] was[i]).txid@ == t
                        && was[i].nonces == of
                };
            let signature = |t: Seq<u8>, of: TreeTxNoncePks|
                tree_signature(
                    t,
                    phase->Signing_expiry,
                    before.forfeit_key@,
                    before.cosigner.secret_bytes(),
                    own[t],
                    tx_nonces(of),
                    txs,
                    psbt_view(phase->Signing_commitment_tx),
                );
            let signs = |t: Seq<u8>|
                unused_nonces(phase->Signing_own_nonces).contains(t) && exists|of: TreeTxNoncePks|
                    #[trigger] nonces_for(t, of) && signature(t, of) is Some;
            &&& count != graph_nodes(phase->Signing_graph) ==> action is Wait && after.phase
                is Signing
            &&& count == graph_nodes(phase->Signing_graph) && (forall|t: Seq<u8>| #[trigger]
                txs.dom().contains(t) ==> signs(t)) ==> action is SubmitSignatures
            &&& count == graph_nodes(phase->Signing_graph) && !(forall|t: Seq<u8>| #[trigger]
                txs.dom().contains(t) ==> signs(t)) ==> {
                &&& after.phase is Ended
                &&& action matches SettleAction::Fail { failure }
                &&& failure is MissingNonce || failure is SignTree
                &&& failure is MissingNonce <==> exists|t: Seq<u8>| #[trigger]
                    txs.dom().contains(t) && forall|of: TreeTxNoncePks| !#[trigger] nonces_for(t, of)
            }
            &&& action matches SettleAction::SubmitSignatures { batch_id, cosigner, signatures } ==> {
                &&& count == graph_nodes(phase->Signing_graph)
                &&& batch_id@ == id@
                &&& cosigner@ == public_key_of(before.cosigner.secret_bytes())
                &&& partial_sigs(signatures).dom() == txs.dom()
                &&& forall|t: Seq<u8>| #[trigger]
                    txs.dom().contains(t) ==> exists|of: TreeTxNoncePks| #[trigger]
                        nonces_for(t, of) && signature(t, of) == Some(partial_sigs(signatures)[t])
                &&& after.phase is Signing
                &&& unused_nonces(after.phase->Signing_own_nonces) == unused_nonces(
                    phase->Signing_own_nonces,
                ).difference(txs.dom())
            }
        }),
{
    let phase = before.phase;
    let own = own_public_nonces(phase->Signing_own_nonces);
    let txs = graph_txs(phase->Signing_graph);
    let was = phase->Signing_all_nonces@;
    let entry = TxNonces { txid, nonces };
    let list = put_nonces(was, entry);
    let at = nonce_position(was, txid@);
    lemma_nonce_position(was, txid@);
    let is_new = forall|i: int| 0 <= i < was.len() ==> (#[trigger] was[i]).txid@ != txid@;
    assert(is_new <==> at == was.len()) by {
        if at < was.len() {
            assert(was[at].txid@ == txid@);
        }
    }
    let nonces_for = |t: Seq<u8>, of: TreeTxNoncePks|
        if t == txid@ {
            of == nonces
        } else {
            exists|i: int| 0 <= i < was.len() && (#[trigger] was[i]).txid@ == t && was[i].nonces == of
        };
    let signature = |t: Seq<u8>, of: TreeTxNoncePks|
        tree_signature(
            t,
            phase->Signing_expiry,
            before.forfeit_key@,
            before.cosigner.secret_bytes(),
            own[t],
            tx_nonces(of),
            txs,
            psbt_view(phase->Signing_commitment_tx),
        );
    let signs = |t: Seq<u8>|
        unused_nonces(phase->Signing_own_nonces).contains(t) && exists|of: TreeTxNoncePks|
            #[trigger] nonces_for(t, of) && signature(t, of) is Some;
    let signer = tree_signer(
        before.cosigner,
        before.forfeit_key,
        phase->Signing_expiry,
        phase->Signing_graph,
        phase->Signing_commitment_tx,
        phase->Signing_own_nonces,
        list,
    );
    lemma_put_nonces_distinct(was, entry);
    assert forall|t: Seq<u8>| #[trigger] nonce_position(list, t) < list.len() implies nonces_for(
        t,
        list[nonce_position(list, t)].nonces,
    ) by {
        lemma_nonce_position(list, t);
        let i = nonce_position(list, t);
        if t == txid@ {
            assert(list[at] == entry);
            assert(i == at) by {
                if i < at {
                    assert(list[i].txid@ != list[at].txid@);
                }
                if at < i {
                    assert(list[at].txid@ != list[i].txid@);
                }
            }
        } else {
            assert(i != at);
            assert(list[i] == was[i]);
        }
    }
    assert forall|t: Seq<u8>, of: TreeTxNoncePks| #[trigger] nonces_for(t, of) implies nonce_position(
        list,
        t,
    ) < list.len() && list[nonce_position(list, t)].nonces == of by {
        lemma_nonce_position(list, t);
        let i = if t == txid@ {
            at
        } else {
            choose|i: int| 0 <= i < was.len() && (#[trigger] was[i]).txid@ == t && was[i].nonces == of
        };
        assert(list[i].txid@ == t && list[i].nonces == of) by {
            if t != txid@ {
                assert(i != at);
                assert(list[i] == was[i]);
            }
        }
        let p = nonce_position(list, t);
        if p < list.len() && p != i {
            if p < i {
                assert(list[p].txid@ != list[i].txid@);
            } else {
                assert(list[i].txid@ != list[p].txid@);
            }
        }
    }
    if list.len() == graph_nodes(phase->Signing_graph) && (forall|t: Seq<u8>| #[trigger]
        txs.dom().contains(t) ==> signs(t)) {
        assert forall|t: Seq<u8>| #[trigger] txs.dom().contains(t) implies nonce_position(list, t)
            < list.len() && signer.signs(t) by {
            assert(signs(t));
            let of = choose|of: TreeTxNoncePks| #[trigger] nonces_for(t, of) && signature(t, of)
                is Some;
            assert(nonces_for(t, of));
        }
        assert(covers(list, phase->Signing_graph));
    }
    assert(covers(list, phase->Signing_graph) <==> forall|t: Seq<u8>| #[trigger]
        txs.dom().contains(t) ==> exists|of: TreeTxNoncePks| #[trigger] nonces_for(t, of)) by {
        if covers(list, phase->Signing_graph) {
            assert forall|t: Seq<u8>| #[trigger] txs.dom().contains(t) implies exists|
                of: TreeTxNoncePks,
            | #[trigger] nonces_for(t, of) by {
                assert(nonce_position(list, t) < list.len());
                assert(nonces_for(t, list[nonce_position(list, t)].nonces));
            }
        }
    }
    if let SettleAction::SubmitSignatures { batch_id, cosigner, signatures } = action {
        assert(partial_sigs(signatures) == signer.signatures(txs.dom()));
        assert(partial_sigs(signatures).dom() =~= txs.dom());
        assert forall|t: Seq<u8>| #[trigger] txs.dom().contains(t) implies exists|
            of: TreeTxNoncePks,
        | #[trigger] nonces_for(t, of) && signature(t, of) == Some(partial_sigs(signatures)[t]) by {
            assert(signer.signs(t));
            assert(nonce_position(list, t) < list.len());
            assert(nonces_for(t, list[nonce_position(list, t)].nonces));
        }
    }
}

/// A signature that arrives is filed with its own transaction of the tree and changes no
/// other.
pub proof fn lemma_tree_signature_is_filed(
    before: Settlement,
    kind: TreeKind,
    txid: Txid,
    signature: bitcoin::taproot::Signature,
    after: Settlement,
    action: SettleAction,
)
    requires
        call_ensures(
            Settlement::handle,
            (before, SettleEvent::TreeSignature { kind, txid, signature }),
            (after, action),
        ),
    ensures
        action is Wait,
        before.phase is Signing && kind == TreeKind::Vtxo ==> {
            let was = graph_txs(before.phase->Signing_graph);
            &&& after.phase is Signing
            &&& graph_nodes(after.phase->Signing_graph) == graph_nodes(before.phase->Signing_graph)
            &&& graph_txs(after.phase->Signing_graph).dom() == was.dom()
            &&& forall|t: Seq<u8>| #[trigger]
                was.dom().contains(t) ==> graph_txs(after.phase->Signing_graph)[t] == (if t
                    == txid@ {
                    key_signed(was[t], signature)
                } else {
                    was[t]
                })
            &&& after.phase->Signing_batch_id == before.phase->Signing_batch_id
            &&& after.phase->Signing_expiry == before.phase->Signing_expiry
            &&& after.phase->Signing_connector_chunks == before.phase->Signing_connector_chunks
            &&& after.phase->Signing_commitment_tx == before.phase->Signing_commitment_tx
            &&& after.phase->Signing_own_nonces == before.phase->Signing_own_nonces
            &&& after.phase->Signing_all_nonces == before.phase->Signing_all_nonces
        },
        !(before.phase is Signing && kind == TreeKind::Vtxo) ==> after.phase == before.phase,
{
    if before.phase is Signing && kind == TreeKind::Vtxo {
        assert(graph_txs(after.phase->Signing_graph).dom() =~= graph_txs(
            before.phase->Signing_graph,
        ).dom());
    }
}

/// Signing starts once: when it is announced in any other phase, nothing happens. Nor do
/// nonces matter in any other phase than that of signing.
pub proof fn lemma_signing_starts_once(
    before: Settlement,
    event: SettleEvent,
    after: Settlement,
    action: SettleAction,
)
    requires
        call_ensures(Settlement::handle, (before, event), (after, action)),
        (event is TreeSigningStarted && !(before.phase is Started)) || (event is TreeNonces && !(
        before.phase is Signing)),
    ensures
        after.phase == before.phase,
        action is Wait,
{
}

/// Every event of a ceremony can be handled, but for a second registration and for trees of the
/// server that cannot be walked or spend nothing.
pub proof fn lemma_events_are_accepted(settlement: &Settlement, event: &SettleEvent, accepted: bool)
    requires
        call_ensures(Settlement::accepts, (settlement, event), accepted),
    ensures
        event is Registered ==> accepted == (settlement.phase is Registering),
        !(event is Registered || (event is TreeSigningStarted && settlement.phase is Started) || (
        event is BatchFinalization && settlement.phase is Signing)) ==> accepted,
        event is TreeSigningStarted && settlement.phase is Started ==> {
            let chunks = settlement.phase->Started_vtxo_chunks@.map_values(
                |chunk: TreeChunk| chunk@,
            );
            is_walkable(chunks) && (forall|i: int|
                0 <= i < chunks.len() ==> (#[trigger] chunks[i]).tx.inputs.len() > 0
                    && frame_spends(chunks[i].tx.frame).len() > 0) ==> accepted
        },
        event is BatchFinalization && settlement.phase is Signing ==> accepted == is_walkable(
            settlement.phase->Signing_connector_chunks@.map_values(|chunk: TreeChunk| chunk@),
        ),
{
    let chunks = chunk_views(settlement.phase->Started_vtxo_chunks@);
    assert(chunks == settlement.phase->Started_vtxo_chunks@.map_values(
        |chunk: TreeChunk| chunk@,
    ));
    if forall|i: int|
        0 <= i < chunks.len() ==> (#[trigger] chunks[i]).tx.inputs.len() > 0 && frame_spends(
            chunks[i].tx.frame,
        ).len() > 0 {
        assert(all_have_inputs(chunks));
    }
    assert(chunk_views(settlement.phase->Signing_connector_chunks@)
        == settlement.phase->Signing_connector_chunks@.map_values(|chunk: TreeChunk| chunk@));
}

/// When a batch is finalized, all forfeits are handed in, completed with the connectors that
/// arrived. Without connectors there is nothing to hand in.
pub proof fn lemma_forfeits_are_handed_in(
    before: Settlement,
    after: Settlement,
    action: SettleAction,
)
    requires
        call_ensures(Settlement::handle, (before, SettleEvent::BatchFinalization), (after, action)),
    ensures
        before.phase is Signing ==> {
            let chunks = before.phase->Signing_connector_chunks@;
            let forfeits = before.forfeit_psbts@.map_values(|psbt: Psbt| psbt_view(psbt));
            if chunks.len() == 0 {
                &&& action is Wait
                &&& after.phase == Phase::Finalized { batch_id: before.phase->Signing_batch_id }
            } else {
                match tx_graph(chunks.map_values(|chunk: TreeChunk| chunk@)) {
                    None => {
                        &&& after.phase is Ended
                        &&& action matches SettleAction::Fail { failure }
                        &&& failure is ConnectorGraph
                    },
                    Some(connectors) => match completed_forfeits(forfeits, connectors) {
                        None => {
                            &&& after.phase is Ended
                            &&& action matches SettleAction::Fail { failure }
                            &&& failure is CompleteForfeits
                        },
                        Some(completed) => {
                            &&& action matches SettleAction::SubmitForfeits { forfeits: submitted }
                            &&& submitted@.map_values(|psbt: Psbt| psbt_view(psbt)) == completed
                            &&& after.phase == Phase::Finalized {
                                batch_id: before.phase->Signing_batch_id,
                            }
                        },
                    },
                }
            }
        },
        !(before.phase is Signing) ==> after.phase == before.phase && action is Wait,
{
    assert(chunk_views(before.phase->Signing_connector_chunks@)
        == before.phase->Signing_connector_chunks@.map_values(|chunk: TreeChunk| chunk@));
    assert(psbt_views(before.forfeit_psbts@) == before.forfeit_psbts@.map_values(
        |psbt: Psbt| psbt_view(psbt),
    ));
}

/// A settlement ends with its own batch and with no other: it finishes with the transaction of
/// the batch once its forfeits were handed in, and fails if the batch fails that it takes
/// part in. When the events end, it fails.
pub proof fn lemma_settlement_ends_with_its_batch(
    before: Settlement,
    event: SettleEvent,
    after: Settlement,
    action: SettleAction,
)
    requires
        call_ensures(Settlement::handle, (before, event), (after, action)),
    ensures
        ({
            let ended = after.phase is Ended;
            let waits = after.phase == before.phase && action is Wait;
            match event {
                SettleEvent::BatchFinalized { commitment_txid } => if before.phase is Finalized {
                    ended && action == (SettleAction::Finish { commitment_txid })
                } else {
                    waits
                },
                SettleEvent::BatchFailed { id, reason } => {
                    let is_in = match before.phase {
                        Phase::Started { batch_id, .. } => batch_id@ == id@,
                        Phase::Signing { batch_id, .. } => batch_id@ == id@,
                        Phase::Finalized { batch_id } => batch_id@ == id@,
                        _ => false,
                    };
                    let failure = SettleFailure::BatchFailed { id, reason };
                    if is_in {
                        ended && action == (SettleAction::Fail { failure })
                    } else {
                        waits
                    }
                },
                SettleEvent::StreamError => {
                    ended && action == (SettleAction::Fail { failure: SettleFailure::StreamError })
                },
                SettleEvent::StreamEnded => {
                    ended && action == (SettleAction::Fail { failure: SettleFailure::StreamEnded })
                },
                SettleEvent::Other => waits,
                _ => true,
            }
        }),
{
}

// -- What holds over a run of events --

/// Whether a settlement went through some events, one after the other, with these actions to
/// be done.
pub open spec fn is_run(
    settlements: Seq<Settlement>,
    events: Seq<SettleEvent>,
    actions: Seq<SettleAction>,
) -> bool {
    &&& settlements.len() == events.len() + 1
    &&& actions.len() == events.len()
    &&& settlements[0].phase is Registering
    &&& forall|n: int|
        0 <= n < events.len() ==> call_ensures(
            Settlement::handle,
            (#[trigger] settlements[n], events[n]),
            (settlements[n + 1], actions[n]),
        )
}

/// The transactions of one of the trees that arrived with some events, in their order.
pub open spec fn arrived(events: Seq<SettleEvent>, kind: TreeKind) -> Seq<TreeChunk>
    decreases events.len(),
{
    if events.len() == 0 {
        Seq::empty()
    } else {
        let rest = arrived(events.drop_last(), kind);
        match events.last() {
            SettleEvent::TreeTx { kind: of, chunk } => if of == kind {
                rest.push(chunk)
            } else {
                rest
            },
            _ => rest,
        }
    }
}

/// Whether the settlement was waiting at `m`, and the event there started a batch that names
/// its intent.
pub open spec fn joins_at(
    settlements: Seq<Settlement>,
    events: Seq<SettleEvent>,
    m: int,
) -> bool {
    &&& 0 <= m < events.len()
    &&& settlements[m].phase matches Phase::Waiting { intent_id }
    &&& events[m] matches SettleEvent::BatchStarted { intent_id_hashes, .. }
    &&& text_views(intent_id_hashes@).contains(lower_hex(sha256(encode_utf8(intent_id@))))
}

/// Whether the batch that was joined at `m` had its signing started at `s`: with the tree that
/// had arrived since, which is the one that `graph` holds, signatures apart.
pub open spec fn signs_from(
    events: Seq<SettleEvent>,
    m: int,
    s: int,
    graph: TxGraph,
    commitment_tx: Psbt,
) -> bool {
    &&& m < s < events.len()
    &&& events[s] matches SettleEvent::TreeSigningStarted { commitment_tx: of, .. }
    &&& of == commitment_tx
    &&& tx_graph(chunk_views(arrived(events.subrange(m + 1, s), TreeKind::Vtxo))) matches Some(
        built,
    )
    &&& graph_txs(graph).dom() == graph_txs(built).dom()
    &&& graph_nodes(graph) == graph_nodes(built)
}

/// What a phase remembers of the events is what they said.
pub open spec fn remembers(
    settlements: Seq<Settlement>,
    events: Seq<SettleEvent>,
    n: int,
) -> bool {
    match settlements[n].phase {
        Phase::Waiting { intent_id } => exists|r: int|
            {
                &&& 0 <= r < n
                &&& #[trigger] events[r] matches SettleEvent::Registered { intent_id: registered }
                &&& registered@ == intent_id@
            },
        Phase::Started { batch_id, expiry, vtxo_chunks, connector_chunks } => exists|m: int|
            {
                &&& #[trigger] joins_at(settlements, events, m)
                &&& m < n
                &&& batch_id@ == events[m]->BatchStarted_id@
                &&& expiry == events[m]->BatchStarted_expiry
                &&& vtxo_chunks@ == arrived(events.subrange(m + 1, n), TreeKind::Vtxo)
                &&& connector_chunks@ == arrived(events.subrange(m + 1, n), TreeKind::Connector)
            },
        Phase::Signing { batch_id, expiry, connector_chunks, graph, commitment_tx, .. } => exists|
            m: int,
            s: int,
        |
            {
                &&& #[trigger] joins_at(settlements, events, m)
                &&& #[trigger] signs_from(events, m, s, graph, commitment_tx)
                &&& s < n
                &&& batch_id@ == events[m]->BatchStarted_id@
                &&& expiry == events[m]->BatchStarted_expiry
                &&& connector_chunks@ == arrived(events.subrange(m + 1, n), TreeKind::Connector)
            },
        Phase::Finalized { batch_id } => exists|m: int|
            {
                &&& #[trigger] joins_at(settlements, events, m)
                &&& m < n
                &&& batch_id@ == events[m]->BatchStarted_id@
            },
        _ => true,
    }
}

/// One event more arrives behind the others.
proof fn lemma_arrived(events: Seq<SettleEvent>, from: int, n: int, kind: TreeKind)
    requires
        0 <= from <= n < events.len(),
    ensures
        arrived(events.subrange(from, n + 1), kind) == (match events[n] {
            SettleEvent::TreeTx { kind: of, chunk } => if of == kind {
                arrived(events.subrange(from, n), kind).push(chunk)
            } else {
                arrived(events.subrange(from, n), kind)
            },
            _ => arrived(events.subrange(from, n), kind),
        }),
{
    assert(events.subrange(from, n + 1).drop_last() =~= events.subrange(from, n));
    assert(events.subrange(from, n + 1).last() == events[n]);
}

proof fn lemma_run_remembers(
    settlements: Seq<Settlement>,
    events: Seq<SettleEvent>,
    actions: Seq<SettleAction>,
    n: int,
)
    requires
        is_run(settlements, events, actions),
        0 <= n < settlements.len(),
    ensures
        remembers(settlements, events, n),
        settlements[n].cosigner == settlements[0].cosigner,
        settlements[n].forfeit_psbts == settlements[0].forfeit_psbts,
        settlements[n].forfeit_key == settlements[0].forfeit_key,
    decreases n,
{
    if n > 0 {
        let p = n - 1;
        lemma_run_remembers(settlements, events, actions, p);
        let before = settlements[p];
        let after = settlements[n];
        let event = events[p];
        assert(call_ensures(
            Settlement::handle,
            (settlements[p], events[p]),
            (settlements[p + 1], actions[p]),
        ));
        assert(leads_to(before, event, after.phase, actions[p]));
        match after.phase {
            Phase::Registering => {},
            Phase::Waiting { intent_id } => {
                if before.phase is Waiting {
                    if event is Registered {
                        assert(events[p] is Registered);
                    } else {
                        let r = choose|r: int|
                            {
                                &&& 0 <= r < p
                                &&& #[trigger] events[r] matches SettleEvent::Registered {
                                    intent_id: registered,
                                }
                                &&& registered@ == before.phase->intent_id@
                            };
                        assert(events[r] is Registered);
                    }
                } else {
                    assert(events[p] is Registered);
                }
            },
            Phase::Started { .. } => {
                if before.phase is Started {
                    let phase = before.phase;
                    let m = choose|m: int|
                        {
                            &&& #[trigger] joins_at(settlements, events, m)
                            &&& m < p
                            &&& phase->Started_batch_id@ == events[m]->BatchStarted_id@
                            &&& phase->Started_expiry == events[m]->BatchStarted_expiry
                            &&& phase->Started_vtxo_chunks@ == arrived(
                                events.subrange(m + 1, p),
                                TreeKind::Vtxo,
                            )
                            &&& phase->Started_connector_chunks@ == arrived(
                                events.subrange(m + 1, p),
                                TreeKind::Connector,
                            )
                        };
                    lemma_arrived(events, m + 1, p, TreeKind::Vtxo);
                    lemma_arrived(events, m + 1, p, TreeKind::Connector);
                    assert(joins_at(settlements, events, m));
                } else {
                    assert(joins_at(settlements, events, p));
                    assert(events.subrange(p + 1, n) =~= Seq::empty());
                }
            },
            Phase::Signing { .. } => {
                if before.phase is Signing {
                    let phase = before.phase;
                    let (m, s) = choose|m: int, s: int|
                        {
                            &&& #[trigger] joins_at(settlements, events, m)
                            &&& #[trigger] signs_from(
                                events,
                                m,
                                s,
                                phase->Signing_graph,
                                phase->Signing_commitment_tx,
                            )
                            &&& s < p
                            &&& phase->Signing_batch_id@ == events[m]->BatchStarted_id@
                            &&& phase->Signing_expiry == events[m]->BatchStarted_expiry
                            &&& phase->Signing_connector_chunks@ == arrived(
                                events.subrange(m + 1, p),
                                TreeKind::Connector,
                            )
                        };
                    lemma_arrived(events, m + 1, p, TreeKind::Connector);
                    assert(graph_txs(after.phase->Signing_graph).dom() =~= graph_txs(
                        phase->Signing_graph,
                    ).dom());
                    assert(joins_at(settlements, events, m));
                    assert(signs_from(
                        events,
                        m,
                        s,
                        after.phase->Signing_graph,
                        after.phase->Signing_commitment_tx,
                    ));
                } else {
                    let phase = before.phase;
                    let m = choose|m: int|
                        {
                            &&& #[trigger] joins_at(settlements, events, m)
                            &&& m < p
                            &&& phase->Started_batch_id@ == events[m]->BatchStarted_id@
                            &&& phase->Started_expiry == events[m]->BatchStarted_expiry
                            &&& phase->Started_vtxo_chunks@ == arrived(
                                events.subrange(m + 1, p),
                                TreeKind::Vtxo,
                            )
                            &&& phase->Started_connector_chunks@ == arrived(
                                events.subrange(m + 1, p),
                                TreeKind::Connector,
                            )
                        };
                    lemma_arrived(events, m + 1, p, TreeKind::Connector);
                    assert(joins_at(settlements, events, m));
                    assert(signs_from(
                        events,
                        m,
                        p,
                        after.phase->Signing_graph,
                        after.phase->Signing_commitment_tx,
                    ));
                }
            },
            Phase::Finalized { .. } => {
                let m = if before.phase is Signing {
                    let phase = before.phase;
                    let (m, s) = choose|m: int, s: int|
                        {
                            &&& #[trigger] joins_at(settlements, events, m)
                            &&& #[trigger] signs_from(
                                events,
                                m,
                                s,
                                phase->Signing_graph,
                                phase->Signing_commitment_tx,
                            )
                            &&& s < p
                            &&& phase->Signing_batch_id@ == events[m]->BatchStarted_id@
                            &&& phase->Signing_expiry == events[m]->BatchStarted_expiry
                            &&& phase->Signing_connector_chunks@ == arrived(
                                events.subrange(m + 1, p),
                                TreeKind::Connector,
                            )
                        };
                    m
                } else {
                    choose|m: int|
                        {
                            &&& #[trigger] joins_at(settlements, events, m)
                            &&& m < p
                            &&& before.phase->Finalized_batch_id@ == events[m]->BatchStarted_id@
                        }
                };
                assert(joins_at(settlements, events, m));
            },
            Phase::Ended => {},
        }
    }
}

/// Whatever tree is signed is signed as the server announced it. Over every run of events that
/// leads to signatures, the batch is one that named the intent while the settlement waited
/// for it, and every transaction of the tree that has arrived since then, and no other, is
/// signed: for exactly the expiry that the start of the batch announced, under exactly the
/// commitment transaction that the start of signing brought, with the cosigner's key, and
/// for the key that the server takes forfeits with.
pub proof fn lemma_tree_is_signed_as_announced(
    settlements: Seq<Settlement>,
    events: Seq<SettleEvent>,
    actions: Seq<SettleAction>,
    n: int,
)
    requires
        is_run(settlements, events, actions),
        0 <= n < events.len(),
        actions[n] is SubmitSignatures,
    ensures
        exists|m: int, s: int|
            {
                let graph = settlements[n].phase->Signing_graph;
                let signatures = partial_sigs(actions[n]->signatures);
                &&& #[trigger] joins_at(settlements, events, m)
                &&& #[trigger] signs_from(
                    events,
                    m,
                    s,
                    settlements[n].phase->Signing_graph,
                    settlements[n].phase->Signing_commitment_tx,
                )
                &&& s < n
                &&& signatures.dom() == graph_txs(graph).dom()
                &&& forall|txid: Seq<u8>| #[trigger]
                    signatures.dom().contains(txid) ==> exists|nonces: TreeTxNoncePks|
                        Some(signatures[txid]) == tree_signature(
                            txid,
                            events[m]->BatchStarted_expiry,
                            settlements[0].forfeit_key@,
                            settlements[0].cosigner.secret_bytes(),
                            own_public_nonces(settlements[n].phase->Signing_own_nonces)[txid],
                            #[trigger] tx_nonces(nonces),
                            graph_txs(graph),
                            psbt_view(events[s]->TreeSigningStarted_commitment_tx),
                        )
            },
{
    lemma_run_remembers(settlements, events, actions, n);
    let before = settlements[n];
    let phase = before.phase;
    assert(call_ensures(
        Settlement::handle,
        (settlements[n], events[n]),
        (settlements[n + 1], actions[n]),
    ));
    assert(leads_to(before, events[n], settlements[n + 1].phase, actions[n]));
    assert(events[n] is TreeNonces);
    assert(phase is Signing);
    let (m, s) = choose|m: int, s: int|
        {
            &&& #[trigger] joins_at(settlements, events, m)
            &&& #[trigger] signs_from(
                events,
                m,
                s,
                phase->Signing_graph,
                phase->Signing_commitment_tx,
            )
            &&& s < n
            &&& phase->Signing_batch_id@ == events[m]->BatchStarted_id@
            &&& phase->Signing_expiry == events[m]->BatchStarted_expiry
            &&& phase->Signing_connector_chunks@ == arrived(
                events.subrange(m + 1, n),
                TreeKind::Connector,
            )
        };
    let entry = TxNonces { txid: events[n]->TreeNonces_txid, nonces: events[n]->TreeNonces_nonces };
    let list = put_nonces(phase->Signing_all_nonces@, entry);
    let ids = graph_txs(phase->Signing_graph).dom();
    let signer = tree_signer(
        before.cosigner,
        before.forfeit_key,
        phase->Signing_expiry,
        phase->Signing_graph,
        phase->Signing_commitment_tx,
        phase->Signing_own_nonces,
        list,
    );
    let signatures = partial_sigs(actions[n]->signatures);
    assert(signatures == signer.signatures(ids));
    assert(signatures.dom() =~= ids);
    assert forall|txid: Seq<u8>| #[trigger] signatures.dom().contains(txid) implies exists|
        nonces: TreeTxNoncePks,
    |
        Some(signatures[txid]) == tree_signature(
            txid,
            events[m]->BatchStarted_expiry,
            settlements[0].forfeit_key@,
            settlements[0].cosigner.secret_bytes(),
            own_public_nonces(phase->Signing_own_nonces)[txid],
            #[trigger] tx_nonces(nonces),
            graph_txs(phase->Signing_graph),
            psbt_view(events[s]->TreeSigningStarted_commitment_tx),
        ) by {
        assert(ids.contains(txid));
        assert(signer.signs(txid));
        let nonces = list[nonce_position(list, txid)].nonces;
        assert(signer.signature(txid) == Some(signatures[txid]));
        assert(Some(signatures[txid]) == tree_signature(
            txid,
            events[m]->BatchStarted_expiry,
            settlements[0].forfeit_key@,
            settlements[0].cosigner.secret_bytes(),
            own_public_nonces(phase->Signing_own_nonces)[txid],
            tx_nonces(nonces),
            graph_txs(phase->Signing_graph),
            psbt_view(events[s]->TreeSigningStarted_commitment_tx),
        ));
    }
}

/// Forfeits are given up for their own batch only: what is handed in are the forfeits that the
/// settlement began with, completed with all connectors that have arrived since the batch
/// started that named the intent.
pub proof fn lemma_forfeits_are_completed_as_announced(
    settlements: Seq<Settlement>,
    events: Seq<SettleEvent>,
    actions: Seq<SettleAction>,
    n: int,
)
    requires
        is_run(settlements, events, actions),
        0 <= n < events.len(),
        actions[n] is SubmitForfeits,
    ensures
        exists|m: int|
            {
                let connectors = tx_graph(
                    chunk_views(arrived(events.subrange(m + 1, n), TreeKind::Connector)),
                );
                &&& #[trigger] joins_at(settlements, events, m)
                &&& m < n
                &&& events[n] is BatchFinalization
                &&& connectors is Some
                &&& completed_forfeits(
                    psbt_views(settlements[0].forfeit_psbts@),
                    connectors->0,
                ) == Some(psbt_views(actions[n]->forfeits@))
            },
{
    lemma_run_remembers(settlements, events, actions, n);
    let before = settlements[n];
    let phase = before.phase;
    assert(call_ensures(
        Settlement::handle,
        (settlements[n], events[n]),
        (settlements[n + 1], actions[n]),
    ));
    assert(leads_to(before, events[n], settlements[n + 1].phase, actions[n]));
    assert(phase is Signing);
    let (m, s) = choose|m: int, s: int|
        {
            &&& #[trigger] joins_at(settlements, events, m)
            &&& #[trigger] signs_from(
                events,
                m,
                s,
                phase->Signing_graph,
                phase->Signing_commitment_tx,
            )
            &&& s < n
            &&& phase->Signing_batch_id@ == events[m]->BatchStarted_id@
            &&& phase->Signing_expiry == events[m]->BatchStarted_expiry
            &&& phase->Signing_connector_chunks@ == arrived(
                events.subrange(m + 1, n),
                TreeKind::Connector,
            )
        };
    assert(joins_at(settlements, events, m));
}

/// What is confirmed is the intent that was registered.
pub proof fn lemma_confirms_what_was_registered(
    settlements: Seq<Settlement>,
    events: Seq<SettleEvent>,
    actions: Seq<SettleAction>,
    n: int,
)
    requires
        is_run(settlements, events, actions),
        0 <= n < events.len(),
        actions[n] is ConfirmRegistration,
    ensures
        exists|r: int|
            {
                &&& 0 <= r < n
                &&& #[trigger] events[r] matches SettleEvent::Registered { intent_id }
                &&& intent_id@ == actions[n]->intent_id@
            },
{
    lemma_run_remembers(settlements, events, actions, n);
    assert(call_ensures(
        Settlement::handle,
        (settlements[n], events[n]),
        (settlements[n + 1], actions[n]),
    ));
    assert(leads_to(settlements[n], events[n], settlements[n + 1].phase, actions[n]));
    assert(settlements[n].phase is Waiting);
}

/// A settlement begins exactly if the key pair is the cosigner's. It then has that key pair,
/// every forfeit of the delegate and the server's key for forfeits, hands out the delegate's
/// own intent to register, and has done nothing else.
pub proof fn lemma_settlement_begins(
    delegate: Delegate,
    cosigner: Keypair,
    forfeit_pk: &PublicKey,
    begun: Result<(Settlement, Intent), SettleFailure>,
)
    requires
        call_ensures(Settlement::new, (delegate, cosigner, forfeit_pk), begun),
    ensures
        begun is Ok <==> public_key_of(cosigner.secret_bytes()) == delegate.delegate_cosigner_pk@,
        begun is Err ==> begun->Err_0 is CosignerMismatch,
        begun matches Ok((settlement, intent)) ==> {
            &&& settlement.cosigner == cosigner
            &&& settlement.forfeit_psbts == delegate.forfeit_psbts
            &&& settlement.forfeit_key@ == forfeit_pk@.subrange(1, 33)
            &&& settlement.phase is Registering
            &&& intent == delegate.intent
        },
{
}

/// A settlement whose forfeits have inputs begins in the same way, and one of the cosigner
/// whose forfeits lack one does not begin.
pub proof fn lemma_settlement_begins_or_not(
    delegate: Delegate,
    cosigner: Keypair,
    forfeit_pk: &PublicKey,
    begun: Option<Result<(Settlement, Intent), SettleFailure>>,
)
    requires
        call_ensures(Settlement::try_new, (delegate, cosigner, forfeit_pk), begun),
    ensures
        ({
            let is_cosigner = public_key_of(cosigner.secret_bytes())
                == delegate.delegate_cosigner_pk@;
            let have_inputs = forall|i: int|
                0 <= i < delegate.forfeit_psbts@.len() ==> {
                    &&& psbt_inputs(#[trigger] delegate.forfeit_psbts@[i]).len() > 0
                    &&& frame_spends(psbt_frame(delegate.forfeit_psbts@[i])).len() > 0
                };
            &&& begun is None <==> is_cosigner && !have_inputs
            &&& begun is Some ==> (begun->0 is Ok <==> is_cosigner)
            &&& begun matches Some(Ok((settlement, intent))) ==> {
                &&& settlement.cosigner == cosigner
                &&& settlement.forfeit_psbts == delegate.forfeit_psbts
                &&& settlement.forfeit_key@ == forfeit_pk@.subrange(1, 33)
                &&& settlement.phase is Registering
                &&& intent == delegate.intent
            }
        }),
{
    let forfeits = delegate.forfeit_psbts@;
    if forfeits_have_inputs(forfeits) {
        assert forall|i: int| 0 <= i < forfeits.len() implies {
            &&& psbt_inputs(#[trigger] forfeits[i]).len() > 0
            &&& frame_spends(psbt_frame(forfeits[i])).len() > 0
        } by {
            assert(has_input(psbt_view(forfeits[i])));
        }
    } else {
        let i = choose|i: int|
            0 <= i < forfeits.len() && !has_input(psbt_view(#[trigger] forfeits[i]));
        assert(!has_input(psbt_view(forfeits[i])));
    }
}

/// Whatever happens, a settlement keeps its key pair, its forfeits and the server's key for
/// forfeits.
pub proof fn lemma_settlement_keeps_its_parts(
    before: Settlement,
    event: SettleEvent,
    after: Settlement,
    action: SettleAction,
)
    requires
        call_ensures(Settlement::handle, (before, event), (after, action)),
    ensures
        after.cosigner == before.cosigner,
        after.forfeit_psbts == before.forfeit_psbts,
        after.forfeit_key == before.forfeit_key,
{
}

/// The message of a batch that failed tells its id and the reason, and that of a settlement
/// that is not listed tells its key.
pub proof fn lemma_settle_failure_tells_why(failure: &SettleFailure, message: String)
    requires
        call_ensures(SettleFailure::message, (failure,), message),
    ensures
        *failure matches SettleFailure::BatchFailed { id, reason } ==> message@ == "batch failed "@
            + id@ + ": "@ + reason@,
        *failure matches SettleFailure::NotACosigner { cosigner } ==> message@
            == "own cosigner PK not in batch cosigners: "@ + lower_hex(cosigner@),
{
}

} // verus!
