//! The transaction trees of a batch, and the signatures on them.

use ark_core::server::{NoncePks, PartialSigTree, TreeTxNoncePks};
use ark_core::{batch, TxGraph};
use bitcoin::Psbt;
use vstd::prelude::*;

use crate::keys::{public_key_of, Keypair, PublicKey, XOnlyPublicKey};
use crate::offchain::frame_outputs;
use crate::psbt::{
    compute_txid, first_spend, frame_spends, frame_txid, input_count, psbt_frame, psbt_inputs,
    psbt_view, psbt_views, InputView, PsbtView,
};
use crate::tx::Txid;

verus! {

// -- Chunks --

/// A transaction of a tree, with the transactions that spend its outputs.
pub struct TreeChunk {
    pub tx: Psbt,
    /// For each output that is spent, the transaction that spends it.
    pub children: Vec<(u32, Txid)>,
}

/// A transaction of a tree, with the transactions that spend its outputs.
#[verifier::ext_equal]
pub struct ChunkView {
    pub tx: PsbtView,
    pub children: Seq<(u32, Seq<u8>)>,
}

impl View for TreeChunk {
    type V = ChunkView;

    open spec fn view(&self) -> ChunkView {
        ChunkView {
            tx: psbt_view(self.tx),
            children: self.children@.map_values(|child: (u32, Txid)| (child.0, child.1@)),
        }
    }
}

/// What some chunks say.
pub open spec fn chunk_views(chunks: Seq<TreeChunk>) -> Seq<ChunkView> {
    chunks.map_values(|chunk: TreeChunk| chunk@)
}

/// The id of the transaction of a chunk.
pub open spec fn chunk_id(chunk: ChunkView) -> Seq<u8> {
    frame_txid(chunk.tx.frame)
}

/// The ids of the transactions of some chunks.
pub open spec fn chunk_ids(chunks: Seq<ChunkView>) -> Set<Seq<u8>> {
    chunks.map_values(|chunk: ChunkView| chunk_id(chunk)).to_set()
}

/// The last of some chunks whose transaction has the id `txid`, if there is one.
pub open spec fn chunk_of(chunks: Seq<ChunkView>, txid: Seq<u8>) -> Option<ChunkView>
    decreases chunks.len(),
{
    if chunks.len() == 0 {
        None
    } else if chunk_id(chunks.last()) == txid {
        Some(chunks.last())
    } else {
        chunk_of(chunks.drop_last(), txid)
    }
}

/// Whether a chunk names `txid` as a child.
pub open spec fn has_child(chunk: ChunkView, txid: Seq<u8>) -> bool {
    exists|i: int| 0 <= i < chunk.children.len() && (#[trigger] chunk.children[i]).1 == txid
}

/// Whether `txid` is a transaction of some chunks that no other one names as a
/// child.
pub open spec fn is_root(chunks: Seq<ChunkView>, txid: Seq<u8>) -> bool {
    &&& chunk_of(chunks, txid) is Some
    &&& forall|other: Seq<u8>|
        #![trigger chunk_of(chunks, other)]
        other != txid && chunk_of(chunks, other) is Some ==> !has_child(
            chunk_of(chunks, other)->0,
            txid,
        )
}

/// Whether every path from `txid` to its children, their children and so on ends
/// within `steps` chunks.
pub open spec fn ends_within(chunks: Seq<ChunkView>, txid: Seq<u8>, steps: nat) -> bool
    decreases steps,
{
    match chunk_of(chunks, txid) {
        None => true,
        Some(chunk) => steps > 0 && forall|i: int|
            0 <= i < chunk.children.len() ==> ends_within(
                chunks,
                (#[trigger] chunk.children[i]).1,
                (steps - 1) as nat,
            ),
    }
}

/// Whether a chunk names one child at most for each output.
pub open spec fn has_one_child_each(chunk: ChunkView) -> bool {
    forall|i: int, j: int|
        0 <= i < j < chunk.children.len() ==> chunk.children[i].0 != chunk.children[j].0
}

/// The lock-time of the transaction in a frame, as a number.
pub uninterp spec fn frame_lock_time(frame: Seq<u8>) -> u32;

/// The sequence numbers of the inputs of the transaction in a frame.
pub uninterp spec fn frame_sequences(frame: Seq<u8>) -> Seq<u32>;

/// Reads the lock-time of the unsigned transaction of a `bitcoin::Psbt`.
///
/// Claimed of it: it depends on the frame alone.
#[verifier::external_body]
fn read_lock_time(psbt: &Psbt) -> (lock_time: u32)
    ensures
        lock_time == frame_lock_time(psbt_frame(*psbt)),
{
    psbt.unsigned_tx.lock_time.to_consensus_u32()
}

/// Reads the sequence numbers of the unsigned transaction of a `bitcoin::Psbt`.
///
/// Claimed of it: they depend on the frame alone.
#[verifier::external_body]
fn read_sequences(psbt: &Psbt) -> (sequences: Vec<u32>)
    ensures
        sequences@ == frame_sequences(psbt_frame(*psbt)),
{
    psbt.unsigned_tx.input.iter().map(|input| input.sequence.to_consensus_u32()).collect()
}

/// Whether the transaction in a frame can be sent at any time: it has no lock-time,
/// and all of its inputs are final.
pub open spec fn frame_is_final(frame: Seq<u8>) -> bool {
    &&& frame_lock_time(frame) == 0
    &&& forall|i: int|
        0 <= i < frame_sequences(frame).len() ==> #[trigger] frame_sequences(frame)[i] == u32::MAX
}

/// Whether a transaction can be sent at any time.
fn is_final(psbt: &Psbt) -> (is_final: bool)
    ensures
        is_final == frame_is_final(psbt_frame(*psbt)),
{
    if read_lock_time(psbt) != 0 {
        return false;
    }
    let sequences = read_sequences(psbt);
    let mut i: usize = 0;
    while i < sequences.len()
        invariant
            i <= sequences.len(),
            sequences@ == frame_sequences(psbt_frame(*psbt)),
            forall|k: int| 0 <= k < i ==> #[trigger] sequences@[k] == u32::MAX,
        decreases sequences.len() - i,
    {
        if sequences[i] != u32::MAX {
            return false;
        }
        i = i + 1;
    }
    true
}

/// Whether the transactions of all chunks can be sent at any time.
pub open spec fn all_final(chunks: Seq<ChunkView>) -> bool {
    forall|i: int| 0 <= i < chunks.len() ==> frame_is_final((#[trigger] chunks[i]).tx.frame)
}

/// Whether no path from the root of some chunks is endless, if there is one root.
pub open spec fn ends(chunks: Seq<ChunkView>) -> bool {
    forall|root: Seq<u8>|
        #![trigger is_root(chunks, root)]
        is_root(chunks, root) && (forall|other: Seq<u8>| #[trigger]
            is_root(chunks, other) ==> other == root) ==> ends_within(chunks, root, chunks.len())
}

/// Whether the chunks can be walked: each names one child at most for each output, and
/// if all transactions are final and there is one root, no path from it is endless.
pub open spec fn is_walkable(chunks: Seq<ChunkView>) -> bool {
    &&& forall|i: int| 0 <= i < chunks.len() ==> has_one_child_each(#[trigger] chunks[i])
    &&& all_final(chunks) ==> ends(chunks)
}

/// Whether a transaction has an input, in the PSBT and in the transaction itself.
pub open spec fn has_input(tx: PsbtView) -> bool {
    tx.inputs.len() > 0 && frame_spends(tx.frame).len() > 0
}

/// Whether every transaction of some chunks has an input.
pub open spec fn all_have_inputs(chunks: Seq<ChunkView>) -> bool {
    forall|i: int| 0 <= i < chunks.len() ==> has_input((#[trigger] chunks[i]).tx)
}

/// Where the last chunk with the id `txid` stands, if there is one.
fn find_chunk(chunks: &[TreeChunk], txid: &Txid) -> (found: Option<usize>)
    ensures
        match found {
            Some(i) => i < chunks.len() && chunk_of(chunk_views(chunks@), txid@) == Some(
                chunks@[i as int]@,
            ),
            None => chunk_of(chunk_views(chunks@), txid@) is None,
        },
{
    let ghost all = chunk_views(chunks@);
    let mut i: usize = chunks.len();
    assert(all.take(i as int) =~= all);
    while i > 0
        invariant
            i <= chunks.len(),
            all == chunk_views(chunks@),
            chunk_of(all, txid@) == chunk_of(all.take(i as int), txid@),
        decreases i,
    {
        i = i - 1;
        assert(all.take(i + 1).drop_last() =~= all.take(i as int));
        assert(all.take(i + 1).last() == chunks@[i as int]@);
        if compute_txid(&chunks[i].tx).same(txid) {
            return Some(i);
        }
    }
    None
}

/// Whether a chunk names `txid` as a child.
fn names_child(chunk: &TreeChunk, txid: &Txid) -> (names: bool)
    ensures
        names == has_child(chunk@, txid@),
{
    let mut i: usize = 0;
    while i < chunk.children.len()
        invariant
            i <= chunk.children.len(),
            forall|k: int| 0 <= k < i ==> (#[trigger] chunk@.children[k]).1 != txid@,
        decreases chunk.children.len() - i,
    {
        assert(chunk@.children[i as int] == (
            chunk.children@[i as int].0,
            chunk.children@[i as int].1@,
        ));
        if chunk.children[i].1.same(txid) {
            return true;
        }
        i = i + 1;
    }
    false
}

/// Where every path from `txid` ends, every path from one of its children ends a
/// chunk earlier.
proof fn lemma_step_ends(
    chunks: Seq<ChunkView>,
    txid: Seq<u8>,
    chunk: ChunkView,
    steps: nat,
    i: int,
)
    requires
        chunk_of(chunks, txid) == Some(chunk),
        0 <= i < chunk.children.len(),
        steps > 0,
    ensures
        ends_within(chunks, txid, steps) ==> ends_within(
            chunks,
            chunk.children[i].1,
            (steps - 1) as nat,
        ),
{
    if ends_within(chunks, txid, steps) {
        let c = chunk_of(chunks, txid)->0;
        assert(c == chunk);
        assert(forall|i: int|
            0 <= i < c.children.len() ==> ends_within(
                chunks,
                (#[trigger] c.children[i]).1,
                (steps - 1) as nat,
            ));
    }
}

/// Whether every path from `txid` ends within `steps` chunks.
fn walk_ends(chunks: &[TreeChunk], txid: &Txid, steps: usize) -> (ends: bool)
    ensures
        ends == ends_within(chunk_views(chunks@), txid@, steps as nat),
    decreases steps,
{
    let ghost all = chunk_views(chunks@);
    match find_chunk(chunks, txid) {
        None => true,
        Some(at) => {
            if steps == 0 {
                return false;
            }
            let ghost chunk = chunks@[at as int]@;
            let mut i: usize = 0;
            while i < chunks[at].children.len()
                invariant
                    at < chunks.len(),
                    steps > 0,
                    chunk == chunks@[at as int]@,
                    all == chunk_views(chunks@),
                    chunk_of(all, txid@) == Some(chunk),
                    i <= chunks@[at as int].children.len(),
                    forall|k: int|
                        0 <= k < i ==> ends_within(
                            all,
                            (#[trigger] chunk.children[k]).1,
                            (steps - 1) as nat,
                        ),
                decreases chunks@[at as int].children.len() - i,
            {
                let child = chunks[at].children[i].1;
                assert(chunk.children[i as int].1 == child@);
                if !walk_ends(chunks, &child, steps - 1) {
                    proof {
                        lemma_step_ends(all, txid@, chunk, steps as nat, i as int);
                    }
                    return false;
                }
                i = i + 1;
            }
            true
        },
    }
}

/// A chunk with some id is among the chunks.
pub proof fn lemma_chunk_of(chunks: Seq<ChunkView>, txid: Seq<u8>)
    ensures
        match chunk_of(chunks, txid) {
            Some(chunk) => chunk_id(chunk) == txid && chunks.contains(chunk),
            None => forall|i: int| 0 <= i < chunks.len() ==> chunk_id(#[trigger] chunks[i]) != txid,
        },
    decreases chunks.len(),
{
    if chunks.len() > 0 {
        let rest = chunks.drop_last();
        lemma_chunk_of(rest, txid);
        if chunk_id(chunks.last()) == txid {
            assert(chunks[chunks.len() - 1] == chunks.last());
        } else {
            match chunk_of(rest, txid) {
                Some(chunk) => {
                    let i = choose|i: int| 0 <= i < rest.len() && rest[i] == chunk;
                    assert(chunks[i] == chunk);
                },
                None => {
                    assert forall|i: int| 0 <= i < chunks.len() implies chunk_id(
                        #[trigger] chunks[i],
                    ) != txid by {
                        if i < rest.len() {
                            assert(rest[i] == chunks[i]);
                        }
                    }
                },
            }
        }
    }
}

/// Whether no other chunk names the transaction of one chunk as a child.
fn is_root_at(chunks: &[TreeChunk], at: usize) -> (root: bool)
    requires
        at < chunks.len(),
    ensures
        root == is_root(chunk_views(chunks@), chunk_id(chunks@[at as int]@)),
{
    let ghost all = chunk_views(chunks@);
    let txid = compute_txid(&chunks[at].tx);
    proof {
        lemma_chunk_of(all, txid@);
        assert(all[at as int] == chunks@[at as int]@);
        assert(chunk_of(all, txid@) is Some);
    }
    let mut i: usize = 0;
    while i < chunks.len()
        invariant
            i <= chunks.len(),
            at < chunks.len(),
            all == chunk_views(chunks@),
            txid@ == chunk_id(chunks@[at as int]@),
            chunk_of(all, txid@) is Some,
            forall|k: int|
                #![trigger all[k]]
                0 <= k < i && chunk_id(all[k]) != txid@ ==> !has_child(
                    chunk_of(all, chunk_id(all[k]))->0,
                    txid@,
                ),
        decreases chunks.len() - i,
    {
        let other = compute_txid(&chunks[i].tx);
        assert(all[i as int] == chunks@[i as int]@);
        if !other.same(&txid) {
            proof {
                lemma_chunk_of(all, other@);
            }
            match find_chunk(chunks, &other) {
                Some(last) => {
                    if names_child(&chunks[last], &txid) {
                        assert(chunk_of(all, other@) is Some);
                        assert(!is_root(all, txid@));
                        return false;
                    }
                },
                None => {},
            }
        }
        i = i + 1;
    }
    proof {
        assert forall|other: Seq<u8>|
            #![trigger chunk_of(all, other)]
            other != txid@ && chunk_of(all, other) is Some implies !has_child(
            chunk_of(all, other)->0,
            txid@,
        ) by {
            lemma_chunk_of(all, other);
            let chunk = chunk_of(all, other)->0;
            let k = choose|k: int| 0 <= k < all.len() && all[k] == chunk;
            assert(chunk_id(all[k]) == other);
        }
    }
    true
}

/// Whether a chunk names one child at most for each output.
fn names_one_child_each(chunk: &TreeChunk) -> (one: bool)
    ensures
        one == has_one_child_each(chunk@),
{
    let ghost children = chunk@.children;
    let mut i: usize = 0;
    while i < chunk.children.len()
        invariant
            i <= chunk.children.len(),
            children == chunk@.children,
            children.len() == chunk.children.len(),
            forall|a: int, b: int| 0 <= a < b < i ==> children[a].0 != children[b].0,
        decreases chunk.children.len() - i,
    {
        let output: u32 = chunk.children[i].0;
        assert(children[i as int].0 == output);
        let mut k: usize = 0;
        while k < i
            invariant
                k <= i,
                i < chunk.children.len(),
                children == chunk@.children,
                children.len() == chunk.children.len(),
                children[i as int].0 == output,
                forall|a: int| 0 <= a < k ==> (#[trigger] children[a]).0 != output,
            decreases i - k,
        {
            assert(children[k as int].0 == chunk.children@[k as int].0);
            if chunk.children[k].0 == output {
                assert(children[k as int].0 == children[i as int].0);
                return false;
            }
            k = k + 1;
        }
        i = i + 1;
    }
    true
}

/// Whether the transactions of all chunks can be sent at any time.
pub fn are_final(chunks: &[TreeChunk]) -> (are: bool)
    ensures
        are == all_final(chunk_views(chunks@)),
{
    let ghost all = chunk_views(chunks@);
    let mut i: usize = 0;
    while i < chunks.len()
        invariant
            i <= chunks.len(),
            all == chunk_views(chunks@),
            forall|k: int| 0 <= k < i ==> frame_is_final((#[trigger] all[k]).tx.frame),
        decreases chunks.len() - i,
    {
        assert(all[i as int] == chunks@[i as int]@);
        if !is_final(&chunks[i].tx) {
            assert(!frame_is_final(all[i as int].tx.frame));
            return false;
        }
        i = i + 1;
    }
    true
}

/// Whether the chunks can be walked: each names one child at most for each output, and
/// if all transactions are final and there is one root, no path from it is endless.
pub fn can_walk(chunks: &[TreeChunk]) -> (walkable: bool)
    ensures
        walkable == is_walkable(chunk_views(chunks@)),
{
    let ghost all = chunk_views(chunks@);
    let mut i: usize = 0;
    while i < chunks.len()
        invariant
            i <= chunks.len(),
            all == chunk_views(chunks@),
            forall|k: int| 0 <= k < i ==> has_one_child_each(#[trigger] all[k]),
        decreases chunks.len() - i,
    {
        assert(all[i as int] == chunks@[i as int]@);
        if !names_one_child_each(&chunks[i]) {
            assert(!has_one_child_each(all[i as int]));
            return false;
        }
        i = i + 1;
    }
    !are_final(chunks) || walks_end(chunks)
}

/// Whether no path from the root of some chunks is endless, if there is one root.
fn walks_end(chunks: &[TreeChunk]) -> (end: bool)
    ensures
        end == ends(chunk_views(chunks@)),
{
    let ghost all = chunk_views(chunks@);
    let mut root: Option<Txid> = None;
    let mut i: usize = 0;
    while i < chunks.len()
        invariant
            i <= chunks.len(),
            all == chunk_views(chunks@),
            root matches Some(r) ==> is_root(all, r@),
            forall|k: int|
                #![trigger all[k]]
                0 <= k < i && is_root(all, chunk_id(all[k])) ==> root is Some && root->0@
                    == chunk_id(all[k]),
        decreases chunks.len() - i,
    {
        assert(all[i as int] == chunks@[i as int]@);
        if is_root_at(chunks, i) {
            let txid = compute_txid(&chunks[i].tx);
            match root {
                Some(other) => {
                    if !other.same(&txid) {
                        // Two roots: there is nothing to walk.
                        assert(is_root(all, other@) && is_root(all, txid@));
                        assert forall|r: Seq<u8>|
                            #![trigger is_root(all, r)]
                            is_root(all, r) && (forall|o: Seq<u8>| #[trigger]
                                is_root(all, o) ==> o == r) implies ends_within(
                            all,
                            r,
                            all.len(),
                        ) by {
                            assert(other@ == r);
                            assert(txid@ == r);
                        }
                        return true;
                    }
                },
                None => {
                    root = Some(txid);
                },
            }
        }
        i = i + 1;
    }
    proof {
        assert forall|r: Seq<u8>| #[trigger] is_root(all, r) implies root is Some && root->0@
            == r by {
            lemma_chunk_of(all, r);
            let k = choose|k: int| 0 <= k < all.len() && all[k] == chunk_of(all, r)->0;
            assert(chunk_id(all[k]) == r);
        }
    }
    match root {
        Some(txid) => walk_ends(chunks, &txid, chunks.len()),
        None => true,
    }
}

/// Whether every transaction of some chunks has an input.
pub fn chunks_have_inputs(chunks: &[TreeChunk]) -> (have: bool)
    ensures
        have == all_have_inputs(chunk_views(chunks@)),
{
    let ghost all = chunk_views(chunks@);
    let mut i: usize = 0;
    while i < chunks.len()
        invariant
            i <= chunks.len(),
            all == chunk_views(chunks@),
            forall|k: int| 0 <= k < i ==> has_input((#[trigger] all[k]).tx),
        decreases chunks.len() - i,
    {
        assert(all[i as int] == chunks@[i as int]@);
        if !tx_has_input(&chunks[i].tx) {
            assert(!has_input(all[i as int].tx));
            return false;
        }
        i = i + 1;
    }
    true
}

/// Whether a transaction has an input.
pub fn tx_has_input(tx: &Psbt) -> (has: bool)
    ensures
        has == has_input(psbt_view(*tx)),
{
    input_count(tx) > 0 && first_spend(tx).is_some()
}

// -- Graphs --

/// `ark_core::TxGraph`: the transactions of a tree.
#[verifier::external_type_specification]
#[verifier::external_body]
pub struct ExTxGraph(TxGraph);

/// `bitcoin::taproot::Signature`.
#[verifier::external_type_specification]
#[verifier::external_body]
pub struct ExTaprootSignature(bitcoin::taproot::Signature);

/// The transactions that a graph holds, by their ids.
pub uninterp spec fn graph_txs(graph: TxGraph) -> Map<Seq<u8>, PsbtView>;

/// The number of nodes of a graph.
pub uninterp spec fn graph_nodes(graph: TxGraph) -> nat;

/// The graph that `ark_core::TxGraph::new` makes of some chunks, if it makes one.
pub uninterp spec fn tx_graph(chunks: Seq<ChunkView>) -> Option<TxGraph>;

/// Calls `ark_core::TxGraph::new`.
///
/// Claimed of it: whether chunks make a graph, and which, depends on the chunks
/// alone. A graph has as many nodes as there are different transactions among the
/// chunks, and holds none but these; of chunks with the same transaction it takes
/// the last. Nothing makes no graph, and neither does a transaction that is not final.
#[verifier::external_body]
pub(crate) fn new_graph(chunks: Vec<TreeChunk>) -> (graph: Result<TxGraph, ark_core::Error>)
    requires
        is_walkable(chunk_views(chunks@)),
    ensures
        chunks.len() == 0 || !all_final(chunk_views(chunks@)) ==> graph is Err,
        match graph {
            Ok(g) => {
                &&& tx_graph(chunk_views(chunks@)) == Some(g)
                &&& graph_nodes(g) == chunk_ids(chunk_views(chunks@)).len()
                &&& forall|txid: Seq<u8>| #[trigger]
                    graph_txs(g).dom().contains(txid) ==> chunk_of(chunk_views(chunks@), txid)
                        is Some && graph_txs(g)[txid] == (chunk_of(
                        chunk_views(chunks@),
                        txid,
                    )->0).tx
            },
            Err(_) => tx_graph(chunk_views(chunks@)) is None,
        },
{
    let id = |txid: Txid| bitcoin::hashes::Hash::from_byte_array(txid.bytes);
    let children = |list: Vec<(u32, Txid)>| list.into_iter().map(|(n, child)| (n, id(child)));
    TxGraph::new(chunks.into_iter().map(|chunk| ark_core::TxGraphChunk {
        txid: None,
        tx: chunk.tx,
        children: children(chunk.children).collect(),
    }).collect())
}

/// Calls `ark_core::TxGraph::nb_of_nodes`.
#[verifier::external_body]
pub(crate) fn nb_of_nodes(graph: &TxGraph) -> (nodes: usize)
    ensures
        nodes == graph_nodes(*graph),
{
    graph.nb_of_nodes()
}

/// Hands out the ids of `ark_core::TxGraph::as_map`.
///
/// Claimed of it: each id of a transaction of the graph comes out once. In which
/// order they come out is left open.
#[verifier::external_body]
pub(crate) fn graph_ids(graph: &TxGraph) -> (ids: Vec<Txid>)
    ensures
        forall|txid: Seq<u8>| #[trigger]
            graph_txs(*graph).dom().contains(txid) <==> exists|i: int|
                0 <= i < ids.len() && (#[trigger] ids@[i])@ == txid,
        forall|i: int, j: int| 0 <= i < j < ids.len() ==> ids@[i]@ != ids@[j]@,
{
    let bytes = |txid: bitcoin::Txid| bitcoin::hashes::Hash::to_byte_array(txid);
    graph.as_map().into_keys().map(|txid| Txid { bytes: bytes(txid) }).collect()
}

/// The map of an input with a key-spend signature set.
pub uninterp spec fn with_key_sig(other: Seq<u8>, signature: bitcoin::taproot::Signature) -> Seq<
    u8,
>;

/// A transaction with a key-spend signature on its first input.
pub open spec fn key_signed(tx: PsbtView, signature: bitcoin::taproot::Signature) -> PsbtView {
    PsbtView {
        inputs: tx.inputs.update(
            0,
            InputView { other: with_key_sig(tx.inputs[0].other, signature), ..tx.inputs[0] },
        ),
        ..tx
    }
}

/// The transaction at the root of a graph.
pub uninterp spec fn graph_root(graph: TxGraph) -> PsbtView;

/// Calls `ark_core::TxGraph::root`.
#[verifier::external_body]
fn root_tx(graph: &TxGraph) -> (tx: &Psbt)
    ensures
        psbt_view(*tx) == graph_root(*graph),
{
    graph.root()
}

/// Calls `ark_core::TxGraph::set_signature`.
///
/// Claimed of it: the signature is set on the transaction at the root. There are as
/// many nodes as before.
#[verifier::external_body]
fn sign_root(graph: &mut TxGraph, signature: bitcoin::taproot::Signature)
    requires
        has_input(graph_root(*old(graph))),
    ensures
        graph_root(*final(graph)) == key_signed(graph_root(*old(graph)), signature),
        graph_root(*final(graph)).inputs[0].other == with_key_sig(
            graph_root(*old(graph)).inputs[0].other,
            signature,
        ),
        graph_nodes(*final(graph)) == graph_nodes(*old(graph)),
{
    graph.set_signature(signature)
}

/// Sets a signature on the root of a graph if it is the transaction with the id `txid`,
/// and otherwise says to go on below.
fn sign_node(
    node: &mut TxGraph,
    txid: &Txid,
    signature: bitcoin::taproot::Signature,
) -> (go_on: bool)
    requires
        frame_txid(graph_root(*old(node)).frame) == txid@ ==> has_input(graph_root(*old(node))),
    ensures
        go_on == (frame_txid(graph_root(*old(node)).frame) != txid@),
        graph_root(*final(node)) == (if go_on {
            graph_root(*old(node))
        } else {
            key_signed(graph_root(*old(node)), signature)
        }),
        graph_nodes(*final(node)) == graph_nodes(*old(node)),
{
    if compute_txid(root_tx(node)).same(txid) {
        sign_root(node, signature);
        false
    } else {
        true
    }
}

/// Calls `ark_core::TxGraph::apply`, which visits the nodes from the root on and goes on
/// below a node if it is told to, with [`sign_node`].
///
/// Claimed of it: the signature is set on the transaction with the id `txid`, if the
/// graph holds it, and nothing else changes.
#[verifier::external_body]
pub(crate) fn set_signature(
    graph: &mut TxGraph,
    txid: Txid,
    signature: bitcoin::taproot::Signature,
)
    requires
        graph_txs(*old(graph)).dom().contains(txid@) ==> has_input(graph_txs(*old(graph))[txid@]),
    ensures
        graph_nodes(*final(graph)) == graph_nodes(*old(graph)),
        graph_txs(*final(graph)) == (if graph_txs(*old(graph)).dom().contains(txid@) {
            graph_txs(*old(graph)).insert(
                txid@,
                key_signed(graph_txs(*old(graph))[txid@], signature),
            )
        } else {
            graph_txs(*old(graph))
        }),
        graph_txs(*old(graph)).dom().contains(txid@) ==> graph_txs(
            *final(graph),
        )[txid@].inputs[0].other == with_key_sig(
            graph_txs(*old(graph))[txid@].inputs[0].other,
            signature,
        ),
{
    graph.apply(|node| Ok(sign_node(node, &txid, signature))).expect("nothing fails here")
}

// -- Nonces --

/// `ark_core::batch::NonceKps`: the nonces of a party for the transactions of a
/// graph.
#[verifier::external_type_specification]
#[verifier::external_body]
pub struct ExNonceKps(batch::NonceKps);

/// `ark_core::server::NoncePks`: the public nonces of a party for the transactions of
/// a graph.
#[verifier::external_type_specification]
#[verifier::external_body]
pub struct ExNoncePks(NoncePks);

/// `ark_core::server::TreeTxNoncePks`: the public nonces of all parties for one
/// transaction.
#[verifier::external_type_specification]
#[verifier::external_body]
pub struct ExTreeTxNoncePks(TreeTxNoncePks);

/// `ark_core::server::PartialSigTree`: the signatures of a party for the transactions
/// of a graph.
#[verifier::external_type_specification]
#[verifier::external_body]
pub struct ExPartialSigTree(PartialSigTree);

/// The transactions for which a party has a nonce that it has not used.
pub uninterp spec fn unused_nonces(nonces: batch::NonceKps) -> Set<Seq<u8>>;

/// The public key of the party that nonces were made for.
pub uninterp spec fn nonce_owner(nonces: batch::NonceKps) -> Seq<u8>;

/// The public nonces of a party, by transaction.
pub uninterp spec fn own_public_nonces(nonces: batch::NonceKps) -> Map<Seq<u8>, Seq<u8>>;

/// The public nonces that are sent for a party, by transaction.
pub uninterp spec fn sent_nonces(nonces: NoncePks) -> Map<Seq<u8>, Seq<u8>>;

/// The public nonces for a transaction, by the x-only key of the party.
pub uninterp spec fn tx_nonces(nonces: TreeTxNoncePks) -> Map<Seq<u8>, Seq<u8>>;

/// The signatures of a party, by transaction.
pub uninterp spec fn partial_sigs(sigs: PartialSigTree) -> Map<Seq<u8>, Seq<u8>>;

/// Whether every transaction of a graph has an input.
pub open spec fn graph_has_inputs(graph: TxGraph) -> bool {
    forall|txid: Seq<u8>| #[trigger]
        graph_txs(graph).dom().contains(txid) ==> has_input(graph_txs(graph)[txid])
}

/// Whether `ark_core::batch::generate_nonce_tree` makes nonces of a key for the
/// transactions of a graph under a commitment transaction.
pub uninterp spec fn makes_nonces(
    txs: Map<Seq<u8>, PsbtView>,
    key: Seq<u8>,
    commitment_tx: PsbtView,
) -> bool;

/// Calls `ark_core::batch::generate_nonce_tree` with the randomness of the operating
/// system.
///
/// Claimed of it: whether it makes nonces depends on its arguments alone. The nonces
/// are for the key, and there is one for each transaction of the graph. Which nonces
/// these are is chance.
#[verifier::external_body]
pub(crate) fn generate_nonces(graph: &TxGraph, key: &PublicKey, commitment_tx: &Psbt) -> (nonces:
    Result<batch::NonceKps, ark_core::Error>)
    requires
        graph_has_inputs(*graph),
    ensures
        nonces is Ok <==> makes_nonces(graph_txs(*graph), key@, psbt_view(*commitment_tx)),
        nonces matches Ok(n) ==> {
            &&& nonce_owner(n) == key@
            &&& unused_nonces(n) == graph_txs(*graph).dom()
            &&& own_public_nonces(n).dom() == graph_txs(*graph).dom()
        },
{
    let key = bitcoin::secp256k1::PublicKey::from_slice(&key.serialize()).expect("a public key");
    batch::generate_nonce_tree(&mut rand::rngs::OsRng, graph, key, commitment_tx)
}

/// Calls `ark_core::batch::NonceKps::to_nonce_pks`.
///
/// Claimed of it: it gives the public nonces.
#[verifier::external_body]
pub(crate) fn to_nonce_pks(nonces: &batch::NonceKps) -> (public: NoncePks)
    ensures
        sent_nonces(public) == own_public_nonces(*nonces),
{
    nonces.to_nonce_pks()
}

/// Reads whether `ark_core::server::TreeTxNoncePks` has a nonce of a key.
#[verifier::external_body]
pub(crate) fn has_nonce_of(nonces: &TreeTxNoncePks, key: &XOnlyPublicKey) -> (has: bool)
    ensures
        has == tx_nonces(*nonces).dom().contains(key@),
{
    let key = bitcoin::XOnlyPublicKey::from_slice(&key.serialize()).expect("an x-only key");
    nonces.0.contains_key(&key)
}

/// The signature of a party on a transaction of a tree, as
/// `ark_core::batch::sign_batch_tree_tx` makes it with a nonce that was not used, if it
/// makes one.
pub uninterp spec fn tree_signature(
    txid: Seq<u8>,
    expiry: u32,
    server: Seq<u8>,
    secret: Seq<u8>,
    own_nonce: Seq<u8>,
    all_nonces: Map<Seq<u8>, Seq<u8>>,
    txs: Map<Seq<u8>, PsbtView>,
    commitment_tx: PsbtView,
) -> Option<Seq<u8>>;

/// Calls `ark_core::batch::aggregate_nonces` and `ark_core::batch::sign_batch_tree_tx`.
///
/// Claimed of them: a signature takes a nonce for the transaction that was not used
/// before, and uses it up. With such a nonce, whether there is a signature, and which,
/// depends on the other arguments and the public part of the nonce. A failure uses up
/// nothing.
#[verifier::external_body]
pub(crate) fn sign_tree_tx(
    txid: Txid,
    expiry: u32,
    server: &XOnlyPublicKey,
    keypair: &Keypair,
    all_nonces: &TreeTxNoncePks,
    graph: &TxGraph,
    commitment_tx: &Psbt,
    nonces: &mut batch::NonceKps,
) -> (sigs: Result<PartialSigTree, ark_core::Error>)
    requires
        graph_has_inputs(*graph),
        tx_nonces(*all_nonces).dom().contains(keypair.x_only_bytes()),
        nonce_owner(*old(nonces)) == public_key_of(keypair.secret_bytes()),
    ensures
        nonce_owner(*final(nonces)) == nonce_owner(*old(nonces)),
        own_public_nonces(*final(nonces)) == own_public_nonces(*old(nonces)),
        ({
            let unused = unused_nonces(*old(nonces));
            let signature = tree_signature(
                txid@,
                expiry,
                server@,
                keypair.secret_bytes(),
                own_public_nonces(*old(nonces))[txid@],
                tx_nonces(*all_nonces),
                graph_txs(*graph),
                psbt_view(*commitment_tx),
            );
            match sigs {
                Ok(s) => {
                    &&& unused.contains(txid@)
                    &&& unused_nonces(*final(nonces)) == unused.remove(txid@)
                    &&& signature is Some
                    &&& partial_sigs(s) == map![txid@ => signature->0]
                },
                Err(_) => {
                    &&& unused_nonces(*final(nonces)) == unused
                    &&& unused.contains(txid@) ==> signature is None
                },
            }
        }),
{
    let txid = bitcoin::hashes::Hash::from_byte_array(txid.bytes);
    let expiry = bitcoin::Sequence(expiry);
    let server = bitcoin::XOnlyPublicKey::from_slice(&server.serialize()).expect("an x-only key");
    let secp = bitcoin::secp256k1::Secp256k1::new();
    let secret = keypair.secret();
    let own = bitcoin::secp256k1::Keypair::from_seckey_slice(&secp, &secret).expect("a key");
    let sum = batch::aggregate_nonces(all_nonces.clone());
    batch::sign_batch_tree_tx(txid, expiry, server, &own, sum, graph, commitment_tx, nonces)
}

/// Calls `default` on `ark_core::server::PartialSigTree`.
#[verifier::external_body]
pub(crate) fn no_sigs() -> (sigs: PartialSigTree)
    ensures
        partial_sigs(sigs).dom() == Set::<Seq<u8>>::empty(),
{
    PartialSigTree::default()
}

/// Calls `extend` on the map in an `ark_core::server::PartialSigTree`.
///
/// Claimed of it: the signatures of both are there afterwards; of two for the same
/// transaction, the one that was added.
#[verifier::external_body]
pub(crate) fn add_sigs(sigs: &mut PartialSigTree, more: PartialSigTree)
    ensures
        partial_sigs(*final(sigs)) == partial_sigs(*old(sigs)).union_prefer_right(
            partial_sigs(more),
        ),
{
    sigs.0.extend(more.0)
}

// -- Forfeits --

/// The forfeits that `ark_core::batch::complete_delegate_forfeit_txs` makes with the
/// leaves of a graph of connectors, if it makes them.
pub uninterp spec fn completed_forfeits(forfeits: Seq<PsbtView>, connectors: TxGraph) -> Option<
    Seq<PsbtView>,
>;

/// Calls `ark_core::batch::complete_delegate_forfeit_txs` with
/// `ark_core::TxGraph::leaves`.
///
/// Claimed of them: the completed forfeits are determined by the forfeits and the
/// graph. Each spends a connector in front of what the forfeit spends, and keeps
/// the outputs of the forfeit and its input with the signatures.
#[verifier::external_body]
pub(crate) fn complete_forfeits(forfeit_psbts: &Vec<Psbt>, connectors: &TxGraph) -> (completed:
    Result<Vec<Psbt>, ark_core::Error>)
    requires
        forall|i: int|
            0 <= i < forfeit_psbts.len() ==> has_input(psbt_view(#[trigger] forfeit_psbts@[i])),
    ensures
        match completed {
            Ok(c) => {
                &&& completed_forfeits(psbt_views(forfeit_psbts@), *connectors) == Some(
                    psbt_views(c@),
                )
                &&& c.len() == forfeit_psbts.len()
                &&& forall|i: int|
                    0 <= i < c.len() ==> completes(
                        psbt_view(#[trigger] c@[i]),
                        psbt_view(forfeit_psbts@[i]),
                    )
            },
            Err(_) => completed_forfeits(psbt_views(forfeit_psbts@), *connectors) is None,
        },
{
    batch::complete_delegate_forfeit_txs(forfeit_psbts, &connectors.leaves())
}

/// Whether a forfeit was completed: it spends one output more, in front, and keeps
/// its outputs and the first input that it had.
pub open spec fn completes(completed: PsbtView, forfeit: PsbtView) -> bool {
    &&& frame_spends(completed.frame).len() == frame_spends(forfeit.frame).len() + 1
    &&& frame_spends(completed.frame).skip(1) == frame_spends(forfeit.frame)
    &&& frame_outputs(completed.frame) == frame_outputs(forfeit.frame)
    &&& completed.inputs.len() == frame_spends(completed.frame).len()
    &&& completed.inputs[1] == forfeit.inputs[0]
}

// -- What can be walked --

/// Chunks of a tree can be walked, however many they are: those of which no two children hang on
/// the same output, and in which each child is lower than its parent.
pub proof fn lemma_trees_can_be_walked(
    chunks: &[TreeChunk],
    height: spec_fn(Seq<u8>) -> nat,
    walkable: bool,
)
    requires
        call_ensures(can_walk, (chunks,), walkable),
        forall|i: int, j: int, k: int|
            #![trigger chunks@[i]@.children[j], chunks@[i]@.children[k]]
            0 <= i < chunks@.len() && 0 <= j < k < chunks@[i]@.children.len()
                ==> chunks@[i]@.children[j].0 != chunks@[i]@.children[k].0,
        forall|i: int|
            0 <= i < chunks@.len() ==> 1 <= #[trigger] height(chunk_id(chunks@[i]@))
                <= chunks@.len(),
        forall|i: int, j: int|
            #![trigger chunks@[i]@.children[j]]
            0 <= i < chunks@.len() && 0 <= j < chunks@[i]@.children.len() ==> height(
                chunks@[i]@.children[j].1,
            ) < height(chunk_id(chunks@[i]@)),
    ensures
        walkable,
{
    let all = chunk_views(chunks@);
    assert forall|i: int| 0 <= i < all.len() implies has_one_child_each(#[trigger] all[i]) by {
        assert(all[i] == chunks@[i]@);
        assert forall|j: int, k: int| 0 <= j < k < all[i].children.len() implies
            all[i].children[j].0 != all[i].children[k].0 by {
            assert(chunks@[i]@.children[j].0 != chunks@[i]@.children[k].0);
        }
    }
    assert forall|root: Seq<u8>|
        #![trigger is_root(all, root)]
        is_root(all, root) implies ends_within(all, root, all.len()) by {
        lemma_chunk_of(all, root);
        let at = choose|at: int| 0 <= at < all.len() && all[at] == chunk_of(all, root)->0;
        assert(all[at] == chunks@[at]@);
        assert(height(chunk_id(chunks@[at]@)) <= all.len());
        lemma_lower_paths_end(chunks@, height, root, all.len());
    }
}

proof fn lemma_lower_paths_end(
    chunks: Seq<TreeChunk>,
    height: spec_fn(Seq<u8>) -> nat,
    txid: Seq<u8>,
    steps: nat,
)
    requires
        chunk_of(chunk_views(chunks), txid) is Some ==> height(txid) <= steps,
        forall|i: int|
            0 <= i < chunks.len() ==> 1 <= #[trigger] height(chunk_id(chunks[i]@)) <= chunks.len(),
        forall|i: int, j: int|
            #![trigger chunks[i]@.children[j]]
            0 <= i < chunks.len() && 0 <= j < chunks[i]@.children.len() ==> height(
                chunks[i]@.children[j].1,
            ) < height(chunk_id(chunks[i]@)),
    ensures
        ends_within(chunk_views(chunks), txid, steps),
    decreases steps,
{
    let all = chunk_views(chunks);
    lemma_chunk_of(all, txid);
    if let Some(chunk) = chunk_of(all, txid) {
        let at = choose|at: int| 0 <= at < all.len() && all[at] == chunk;
        assert(all[at] == chunks[at]@);
        assert(chunk_id(chunks[at]@) == txid);
        assert(height(chunk_id(chunks[at]@)) >= 1);
        assert forall|i: int| 0 <= i < chunk.children.len() implies ends_within(
            all,
            (#[trigger] chunk.children[i]).1,
            (steps - 1) as nat,
        ) by {
            assert(height(chunks[at]@.children[i].1) < height(chunk_id(chunks[at]@)));
            lemma_lower_paths_end(chunks, height, chunk.children[i].1, (steps - 1) as nat);
        }
    }
}

} // verus!
