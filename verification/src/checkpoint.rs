//! Checkpoints that come back from the server: restoring what it stripped, and
//! merging the signatures of all parties.

use bitcoin::Psbt;
use vstd::prelude::*;

use crate::psbt::{
    clone_psbt, compute_txid, first_witness_script, frame_txid, input_count, merge_inputs,
    merge_sigs, no_sigs_from, optional_bytes, psbt_inputs, psbt_view, psbt_views,
    set_first_witness_script, view_reads_back, InputView, PsbtView, SigKey,
};
use crate::tx::Txid;

verus! {

// -- Witness scripts --

/// The witness script of the last of `originals` whose transaction has the id
/// `txid`, if there is one.
pub open spec fn original_script(originals: Seq<PsbtView>, txid: Seq<u8>) -> Option<
    Option<Seq<u8>>,
>
    decreases originals.len(),
{
    if originals.len() == 0 {
        None
    } else if frame_txid(originals.last().frame) == txid {
        Some(originals.last().inputs[0].witness_script)
    } else {
        original_script(originals.drop_last(), txid)
    }
}

/// `checkpoint` with the witness script of the original of the same transaction,
/// if there is an original.
pub open spec fn restore_script(checkpoint: PsbtView, originals: Seq<PsbtView>) -> PsbtView {
    match original_script(originals, frame_txid(checkpoint.frame)) {
        Some(witness_script) => PsbtView {
            inputs: checkpoint.inputs.update(
                0,
                InputView { witness_script, ..checkpoint.inputs[0] },
            ),
            ..checkpoint
        },
        None => checkpoint,
    }
}

/// Each of `checkpoints` with the witness script of its original.
pub open spec fn restore_scripts(
    checkpoints: Seq<PsbtView>,
    originals: Seq<PsbtView>,
) -> Seq<PsbtView> {
    checkpoints.map_values(|checkpoint: PsbtView| restore_script(checkpoint, originals))
}

/// Whether the witness scripts of `originals` can be put into `checkpoints`: each
/// original has an input, and so has each checkpoint that has an original.
pub open spec fn restorable(checkpoints: Seq<PsbtView>, originals: Seq<PsbtView>) -> bool {
    &&& forall|i: int| 0 <= i < originals.len() ==> (#[trigger] originals[i]).inputs.len() > 0
    &&& forall|i: int|
        0 <= i < checkpoints.len() && original_script(
            originals,
            frame_txid((#[trigger] checkpoints[i]).frame),
        ) is Some ==> checkpoints[i].inputs.len() > 0
}

/// Whether no witness script of `originals` is longer than a million bytes.
pub open spec fn scripts_are_short(originals: Seq<PsbtView>) -> bool {
    forall|i: int|
        0 <= i < originals.len() ==> ((#[trigger] originals[i]).inputs[0].witness_script matches Some(
            script,
        ) ==> script.len() <= 1_000_000)
}

/// The witness script of the last of `originals` whose transaction has the id
/// `txid`, if there is one.
fn find_original(originals: &[Psbt], txid: &Txid) -> (script: Option<Option<Vec<u8>>>)
    requires
        forall|i: int| 0 <= i < originals.len() ==> psbt_inputs(#[trigger] originals@[i]).len() > 0,
    ensures
        match script {
            Some(s) => original_script(psbt_views(originals@), txid@) == Some(optional_bytes(s)),
            None => original_script(psbt_views(originals@), txid@) is None,
        },
        scripts_are_short(psbt_views(originals@)) ==> (script matches Some(Some(s)) ==> s.len()
            <= 1_000_000),
{
    let ghost all = psbt_views(originals@);
    let mut i: usize = originals.len();
    assert(all.take(i as int) =~= all);
    while i > 0
        invariant
            i <= originals.len(),
            all == psbt_views(originals@),
            original_script(all, txid@) == original_script(all.take(i as int), txid@),
            forall|k: int|
                0 <= k < originals.len() ==> psbt_inputs(#[trigger] originals@[k]).len() > 0,
        decreases i,
    {
        i = i - 1;
        assert(all.take(i + 1).drop_last() =~= all.take(i as int));
        assert(all.take(i + 1).last() == psbt_view(originals@[i as int]));
        if compute_txid(&originals[i]).same(txid) {
            assert(all[i as int] == psbt_view(originals@[i as int]));
            return Some(first_witness_script(&originals[i]));
        }
    }
    None
}

/// Puts the witness scripts of the checkpoints that were sent back into those that
/// the server returned, which may lack them.
pub fn restore_witness_scripts(checkpoints: Vec<Psbt>, originals: &[Psbt]) -> (restored: Vec<Psbt>)
    requires
        restorable(psbt_views(checkpoints@), psbt_views(originals@)),
    ensures
        psbt_views(restored@) == restore_scripts(psbt_views(checkpoints@), psbt_views(originals@)),
        scripts_are_short(psbt_views(originals@)) ==> forall|i: int|
            0 <= i < checkpoints.len() && view_reads_back(
                psbt_view(#[trigger] checkpoints@[i]),
            ) ==> view_reads_back(psbt_views(restored@)[i]),
{
    let ghost all = checkpoints@;
    let ghost given = psbt_views(checkpoints@);
    let ghost sent = psbt_views(originals@);
    let mut rest = checkpoints;
    let mut restored: Vec<Psbt> = Vec::new();
    let ghost mut done: int = 0;
    assert(psbt_views(restored@) =~= restore_scripts(given.take(0), sent));
    proof {
        assert forall|k: int| 0 <= k < originals.len() implies psbt_inputs(
            #[trigger] originals@[k],
        ).len() > 0 by {
            assert(sent[k].inputs.len() > 0);
        }
    }
    while rest.len() > 0
        invariant
            0 <= done <= all.len(),
            rest@ == all.skip(done),
            restored.len() == done,
            given == psbt_views(all),
            sent == psbt_views(originals@),
            restorable(given, sent),
            forall|k: int|
                0 <= k < originals.len() ==> psbt_inputs(#[trigger] originals@[k]).len() > 0,
            psbt_views(restored@) == restore_scripts(given.take(done), sent),
            scripts_are_short(sent) ==> forall|k: int|
                0 <= k < done && view_reads_back(psbt_view(#[trigger] all[k])) ==> view_reads_back(
                    psbt_view(restored@[k]),
                ),
        decreases rest.len(),
    {
        let mut checkpoint = rest.remove(0);
        let ghost was = psbt_view(checkpoint);
        let ghost before = restored@;
        assert(checkpoint == all[done]);
        assert(given[done] == was);
        let txid = compute_txid(&checkpoint);
        match find_original(originals, &txid) {
            Some(script) => {
                set_first_witness_script(&mut checkpoint, script);
            },
            None => {},
        }
        assert(psbt_view(checkpoint) =~= restore_script(was, sent));
        restored.push(checkpoint);
        proof {
            assert(rest@ =~= all.skip(done + 1));
            let next = restore_scripts(given.take(done + 1), sent);
            assert forall|k: int| 0 <= k <= done implies psbt_views(restored@)[k] == next[k] by {
                if k < done {
                    assert(psbt_views(before)[k] == restore_scripts(given.take(done), sent)[k]);
                }
            }
            assert(psbt_views(restored@) =~= next);
            done = done + 1;
        }
    }
    assert(given.take(done) =~= given);
    proof {
        if scripts_are_short(sent) {
            assert forall|i: int|
                0 <= i < all.len() && view_reads_back(
                    psbt_view(#[trigger] all[i]),
                ) implies view_reads_back(psbt_views(restored@)[i]) by {}
        }
    }
    restored
}

// -- Signatures --

/// `inputs` with the signatures that each party put on its copy of the checkpoint
/// at position `i`.
pub open spec fn merge_parties(
    inputs: Seq<InputView>,
    parties: Seq<Seq<PsbtView>>,
    i: int,
) -> Seq<InputView>
    decreases parties.len(),
{
    if parties.len() == 0 {
        inputs
    } else {
        merge_inputs(merge_parties(inputs, parties.drop_last(), i), parties.last()[i].inputs)
    }
}

/// The server's checkpoints with the signatures of all parties.
pub open spec fn merge_checkpoints(
    server: Seq<PsbtView>,
    parties: Seq<Seq<PsbtView>>,
) -> Seq<PsbtView> {
    Seq::new(
        server.len(),
        |i: int|
            PsbtView { inputs: merge_parties(server[i].inputs, parties, i), ..server[i] },
    )
}

/// What the checkpoints of each party hold.
pub open spec fn party_views(parties: Seq<Vec<Psbt>>) -> Seq<Seq<PsbtView>> {
    parties.map_values(|party: Vec<Psbt>| psbt_views(party@))
}

/// Whether every party has `count` checkpoints.
pub open spec fn all_have(parties: Seq<Seq<PsbtView>>, count: nat) -> bool {
    forall|p: int| 0 <= p < parties.len() ==> (#[trigger] parties[p]).len() == count
}

/// Whether the signatures on `other` are on inputs that `inputs` has too.
pub open spec fn within(other: Seq<InputView>, inputs: Seq<InputView>) -> bool {
    forall|i: int|
        inputs.len() <= i < other.len() ==> (#[trigger] other[i]).sigs == Map::<
            SigKey,
            Seq<u8>,
        >::empty()
}

/// Whether each signature of a party is on an input that the server's checkpoint
/// has too.
pub open spec fn all_within(parties: Seq<Seq<PsbtView>>, server: Seq<PsbtView>) -> bool {
    forall|p: int, i: int|
        #![trigger parties[p][i]]
        0 <= p < parties.len() && 0 <= i < server.len() && i < parties[p].len() ==> within(
            parties[p][i].inputs,
            server[i].inputs,
        )
}

/// A party has another number of checkpoints than the server returned.
#[derive(Clone, Copy, Debug, PartialEq, Eq, Structural)]
pub struct CheckpointCount {
    pub found: usize,
    pub expected: usize,
}

/// Merges the signatures of every party into one checkpoint of the server.
fn merge_one(server: &Psbt, parties: &[Vec<Psbt>], i: usize) -> (merged: Psbt)
    requires
        forall|p: int| 0 <= p < parties.len() ==> i < (#[trigger] parties@[p]).len(),
        forall|p: int|
            0 <= p < parties.len() ==> within(
                psbt_inputs((#[trigger] parties@[p])@[i as int]),
                psbt_inputs(*server),
            ),
    ensures
        psbt_view(merged) == (PsbtView {
            inputs: merge_parties(psbt_inputs(*server), party_views(parties@), i as int),
            ..psbt_view(*server)
        }),
        view_reads_back(psbt_view(*server)) ==> view_reads_back(psbt_view(merged)),
{
    let mut merged = clone_psbt(server);
    let ghost all = party_views(parties@);
    let mut p: usize = 0;
    assert(all.take(0) =~= Seq::empty());
    assert(psbt_view(merged) =~= psbt_view(*server));
    while p < parties.len()
        invariant
            p <= parties.len(),
            all == party_views(parties@),
            forall|q: int| 0 <= q < parties.len() ==> i < (#[trigger] parties@[q]).len(),
            forall|q: int|
                0 <= q < parties.len() ==> within(
                    psbt_inputs((#[trigger] parties@[q])@[i as int]),
                    psbt_inputs(*server),
                ),
            psbt_inputs(merged).len() == psbt_inputs(*server).len(),
            psbt_view(merged) == (PsbtView {
                inputs: merge_parties(psbt_inputs(*server), all.take(p as int), i as int),
                ..psbt_view(*server)
            }),
            view_reads_back(psbt_view(*server)) ==> view_reads_back(psbt_view(merged)),
        decreases parties.len() - p,
    {
        proof {
            let next = all.take(p + 1);
            assert(next.drop_last() =~= all.take(p as int));
            assert(next.last()[i as int] == psbt_view(parties@[p as int]@[i as int]));
            assert(within(psbt_inputs(parties@[p as int]@[i as int]), psbt_inputs(*server)));
        }
        merge_sigs(&mut merged, &parties[p][i]);
        p = p + 1;
    }
    assert(all.take(p as int) =~= all);
    merged
}

/// Merges the signatures of every party into the checkpoints that the server
/// signed.
///
/// Without checkpoints of the server there is nothing to merge. Otherwise every
/// party must have as many as the server; the first that has not is what the error
/// is about.
pub fn merge_all_checkpoint_sigs(
    server_checkpoints: &[Psbt],
    party_signed_checkpoints: &[Vec<Psbt>],
) -> (merged: Result<Vec<Psbt>, CheckpointCount>)
    requires
        all_have(party_views(party_signed_checkpoints@), server_checkpoints@.len()) ==> all_within(
            party_views(party_signed_checkpoints@),
            psbt_views(server_checkpoints@),
        ),
    ensures
        ({
            let server = psbt_views(server_checkpoints@);
            let parties = party_views(party_signed_checkpoints@);
            match merged {
                Ok(m) => {
                    &&& server.len() == 0 || all_have(parties, server.len())
                    &&& psbt_views(m@) == merge_checkpoints(server, parties)
                    &&& forall|i: int|
                        0 <= i < server.len() && view_reads_back(
                            #[trigger] server[i],
                        ) ==> view_reads_back(psbt_views(m@)[i])
                },
                Err(count) => {
                    &&& server.len() > 0
                    &&& count.expected == server.len()
                    &&& exists|p: int|
                        {
                            &&& 0 <= p < parties.len()
                            &&& (#[trigger] parties[p]).len() == count.found
                            &&& count.found != count.expected
                            &&& all_have(parties.take(p), server.len())
                        }
                },
            }
        }),
{
    let ghost server = psbt_views(server_checkpoints@);
    let ghost parties = party_views(party_signed_checkpoints@);
    let expected: usize = server_checkpoints.len();
    if expected == 0 {
        let none: Vec<Psbt> = Vec::new();
        assert(psbt_views(none@) =~= merge_checkpoints(server, parties));
        return Ok(none);
    }
    let mut p: usize = 0;
    while p < party_signed_checkpoints.len()
        invariant
            p <= party_signed_checkpoints.len(),
            expected == server.len(),
            expected > 0,
            server == psbt_views(server_checkpoints@),
            parties == party_views(party_signed_checkpoints@),
            forall|q: int| 0 <= q < p ==> (#[trigger] parties[q]).len() == expected,
        decreases party_signed_checkpoints.len() - p,
    {
        let found: usize = party_signed_checkpoints[p].len();
        assert(parties[p as int].len() == found);
        if found != expected {
            assert forall|q: int| 0 <= q < p implies (#[trigger] parties.take(p as int)[q]).len()
                == expected by {
                assert(parties[q].len() == expected);
            }
            assert(all_have(parties.take(p as int), server.len()));
            return Err(CheckpointCount { found, expected });
        }
        p = p + 1;
    }
    assert(all_have(parties, expected as nat));
    let mut merged: Vec<Psbt> = Vec::new();
    let mut i: usize = 0;
    while i < server_checkpoints.len()
        invariant
            i <= server_checkpoints.len(),
            merged.len() == i,
            server == psbt_views(server_checkpoints@),
            parties == party_views(party_signed_checkpoints@),
            all_have(parties, server.len()),
            all_within(parties, server),
            forall|k: int|
                0 <= k < i ==> psbt_view(#[trigger] merged@[k]) == merge_checkpoints(
                    server,
                    parties,
                )[k],
            forall|k: int|
                0 <= k < i && view_reads_back(#[trigger] server[k]) ==> view_reads_back(
                    psbt_view(merged@[k]),
                ),
        decreases server_checkpoints.len() - i,
    {
        proof {
            assert forall|q: int| 0 <= q < party_signed_checkpoints.len() implies i < (
            #[trigger] party_signed_checkpoints@[q]).len() && within(
                psbt_inputs(party_signed_checkpoints@[q]@[i as int]),
                psbt_inputs(server_checkpoints@[i as int]),
            ) by {
                assert(parties[q].len() == server.len());
                assert(within(parties[q][i as int].inputs, server[i as int].inputs));
            }
        }
        merged.push(merge_one(&server_checkpoints[i], party_signed_checkpoints, i));
        i = i + 1;
    }
    assert(psbt_views(merged@) =~= merge_checkpoints(server, parties));
    Ok(merged)
}

// -- Tests on what the server returned --

/// Whether the witness scripts of `originals` can be put into `checkpoints`.
pub fn can_restore(checkpoints: &[Psbt], originals: &[Psbt]) -> (can: bool)
    ensures
        can == restorable(psbt_views(checkpoints@), psbt_views(originals@)),
{
    let ghost given = psbt_views(checkpoints@);
    let ghost sent = psbt_views(originals@);
    let mut i: usize = 0;
    while i < originals.len()
        invariant
            i <= originals.len(),
            sent == psbt_views(originals@),
            forall|k: int| 0 <= k < i ==> psbt_inputs(#[trigger] originals@[k]).len() > 0,
        decreases originals.len() - i,
    {
        if input_count(&originals[i]) == 0 {
            assert(sent[i as int].inputs.len() == 0);
            return false;
        }
        i = i + 1;
    }
    let mut j: usize = 0;
    while j < checkpoints.len()
        invariant
            j <= checkpoints.len(),
            given == psbt_views(checkpoints@),
            sent == psbt_views(originals@),
            forall|k: int|
                0 <= k < originals.len() ==> psbt_inputs(#[trigger] originals@[k]).len() > 0,
            forall|k: int|
                0 <= k < j && original_script(sent, frame_txid((#[trigger] given[k]).frame))
                    is Some ==> given[k].inputs.len() > 0,
        decreases checkpoints.len() - j,
    {
        assert(given[j as int] == psbt_view(checkpoints@[j as int]));
        if input_count(&checkpoints[j]) == 0 {
            let txid = compute_txid(&checkpoints[j]);
            if find_original(originals, &txid).is_some() {
                assert(given[j as int].inputs.len() == 0);
                return false;
            }
        }
        j = j + 1;
    }
    true
}

/// Whether each signature of a party is on an input that the server's checkpoint
/// has too.
pub fn are_within(parties: &[Vec<Psbt>], server: &[Psbt]) -> (within_server: bool)
    ensures
        within_server == all_within(party_views(parties@), psbt_views(server@)),
{
    let ghost views = party_views(parties@);
    let ghost given = psbt_views(server@);
    let mut p: usize = 0;
    while p < parties.len()
        invariant
            p <= parties.len(),
            views == party_views(parties@),
            given == psbt_views(server@),
            forall|q: int, k: int|
                #![trigger views[q][k]]
                0 <= q < p && 0 <= k < given.len() && k < views[q].len() ==> within(
                    views[q][k].inputs,
                    given[k].inputs,
                ),
        decreases parties.len() - p,
    {
        let mut i: usize = 0;
        while i < parties[p as usize].len() && i < server.len()
            invariant
                p < parties.len(),
                i <= parties@[p as int].len(),
                i <= server.len(),
                views == party_views(parties@),
                given == psbt_views(server@),
                forall|k: int|
                    #![trigger views[p as int][k]]
                    0 <= k < i ==> within(views[p as int][k].inputs, given[k].inputs),
            decreases server.len() - i,
        {
            assert(views[p as int][i as int] == psbt_view(parties@[p as int]@[i as int]));
            assert(given[i as int] == psbt_view(server@[i as int]));
            if !no_sigs_from(&parties[p][i], input_count(&server[i])) {
                assert(!within(views[p as int][i as int].inputs, given[i as int].inputs));
                return false;
            }
            assert(within(views[p as int][i as int].inputs, given[i as int].inputs));
            i = i + 1;
        }
        p = p + 1;
    }
    true
}

// -- What holds of every checkpoint --

/// Whether `merged` is `server` with the signatures of `copies`, and otherwise the same. It
/// has a signature wherever the server or a copy has one. Where the server has one, that is
/// it; elsewhere it is that of the first copy that has one.
pub open spec fn carries(merged: PsbtView, server: PsbtView, copies: Seq<PsbtView>) -> bool {
    let signed_by = |p: int, j: int, file: SigKey|
        0 <= p < copies.len() && j < copies[p].inputs.len()
            && copies[p].inputs[j].sigs.dom().contains(file);
    &&& merged.frame == server.frame
    &&& merged.inputs.len() == server.inputs.len()
    &&& forall|j: int|
        0 <= j < server.inputs.len() ==> {
            &&& (#[trigger] merged.inputs[j]).other == server.inputs[j].other
            &&& merged.inputs[j].witness_script == server.inputs[j].witness_script
        }
    &&& forall|j: int, file: SigKey|
        0 <= j < server.inputs.len() ==> (#[trigger] merged.inputs[j].sigs.dom().contains(file) <==> {
            ||| server.inputs[j].sigs.dom().contains(file)
            ||| exists|p: int| #[trigger] signed_by(p, j, file)
        })
    &&& forall|j: int, file: SigKey|
        0 <= j < server.inputs.len() && #[trigger] server.inputs[j].sigs.dom().contains(file)
            ==> merged.inputs[j].sigs[file] == server.inputs[j].sigs[file]
    &&& forall|j: int, file: SigKey, p: int|
        0 <= j < server.inputs.len() && !server.inputs[j].sigs.dom().contains(file)
            && #[trigger] signed_by(p, j, file) && (forall|q: int|
            q < p ==> !#[trigger] signed_by(q, j, file))
            ==> merged.inputs[j].sigs[file] == copies[p].inputs[j].sigs[file]
}

/// The copies of the checkpoint at one position.
pub open spec fn copies_at(parties: Seq<Seq<PsbtView>>, i: int) -> Seq<PsbtView> {
    parties.map_values(|party: Seq<PsbtView>| party[i])
}

proof fn lemma_merge_carries(server: PsbtView, parties: Seq<Seq<PsbtView>>, i: int)
    ensures
        carries(
            PsbtView { inputs: merge_parties(server.inputs, parties, i), ..server },
            server,
            copies_at(parties, i),
        ),
    decreases parties.len(),
{
    let copies = copies_at(parties, i);
    let merged = PsbtView { inputs: merge_parties(server.inputs, parties, i), ..server };
    let signed_by = |p: int, j: int, file: SigKey|
        0 <= p < copies.len() && j < copies[p].inputs.len()
            && copies[p].inputs[j].sigs.dom().contains(file);
    if parties.len() > 0 {
        let rest = parties.drop_last();
        let some = copies_at(rest, i);
        let before = PsbtView { inputs: merge_parties(server.inputs, rest, i), ..server };
        let was_signed_by = |p: int, j: int, file: SigKey|
            0 <= p < some.len() && j < some[p].inputs.len()
                && some[p].inputs[j].sigs.dom().contains(file);
        lemma_merge_carries(server, rest, i);
        let last = parties.len() - 1;
        assert(some =~= copies.drop_last());
        assert(copies[last] == parties.last()[i]);
        assert forall|p: int, j: int, file: SigKey| p != last implies #[trigger] signed_by(p, j, file)
            == was_signed_by(p, j, file) by {}
        assert forall|j: int, file: SigKey| 0 <= j < server.inputs.len() implies (
        #[trigger] merged.inputs[j].sigs.dom().contains(file) <==> {
            ||| server.inputs[j].sigs.dom().contains(file)
            ||| exists|p: int| #[trigger] signed_by(p, j, file)
        }) by {
            assert(merged.inputs[j].sigs.dom().contains(file) <==> before.inputs[j].sigs.dom().contains(
                file,
            ) || signed_by(last, j, file));
            if exists|p: int| #[trigger] was_signed_by(p, j, file) {
                let p = choose|p: int| #[trigger] was_signed_by(p, j, file);
                assert(signed_by(p, j, file));
            }
            if exists|p: int| #[trigger] signed_by(p, j, file) {
                let p = choose|p: int| #[trigger] signed_by(p, j, file);
                assert(p != last ==> was_signed_by(p, j, file));
            }
        }
        assert forall|j: int, file: SigKey, p: int|
            0 <= j < server.inputs.len() && !server.inputs[j].sigs.dom().contains(file)
                && #[trigger] signed_by(p, j, file) && (forall|q: int|
                q < p ==> !#[trigger] signed_by(q, j, file)) implies merged.inputs[j].sigs[file]
            == copies[p].inputs[j].sigs[file] by {
            if p == last {
                assert forall|q: int| !#[trigger] was_signed_by(q, j, file) by {
                    if was_signed_by(q, j, file) {
                        assert(signed_by(q, j, file));
                    }
                }
                assert(!before.inputs[j].sigs.dom().contains(file));
            } else {
                assert(was_signed_by(p, j, file));
                assert forall|q: int| q < p implies !#[trigger] was_signed_by(q, j, file) by {
                    assert(!signed_by(q, j, file));
                }
                assert(before.inputs[j].sigs.dom().contains(file));
            }
        }
        assert forall|j: int, file: SigKey|
            0 <= j < server.inputs.len() && #[trigger] server.inputs[j].sigs.dom().contains(
                file,
            ) implies merged.inputs[j].sigs[file] == server.inputs[j].sigs[file] by {
            assert(before.inputs[j].sigs.dom().contains(file));
        }
    }
}

/// Merging loses no signature and makes none up: each merged checkpoint is the server's, with
/// exactly the signatures that the server and the parties put on their copies of it. It
/// fails only where there are checkpoints and a party has another number of them, and says
/// how many the first such party has.
pub proof fn lemma_merged_checkpoints_carry_all_signatures(
    server_checkpoints: &[Psbt],
    party_signed_checkpoints: &[Vec<Psbt>],
    merged: Result<Vec<Psbt>, CheckpointCount>,
)
    requires
        call_ensures(
            merge_all_checkpoint_sigs,
            (server_checkpoints, party_signed_checkpoints),
            merged,
        ),
    ensures
        ({
            let server = server_checkpoints@;
            let parties = party_signed_checkpoints@;
            &&& merged is Ok <==> server.len() == 0 || (forall|p: int|
                0 <= p < parties.len() ==> (#[trigger] parties[p])@.len() == server.len())
            &&& merged matches Ok(m) ==> {
                &&& m@.len() == server.len()
                &&& forall|i: int|
                    0 <= i < server.len() ==> carries(
                        psbt_view(#[trigger] m@[i]),
                        psbt_view(server[i]),
                        parties.map_values(|party: Vec<Psbt>| psbt_view(party@[i])),
                    )
            }
            &&& merged matches Err(count) ==> {
                &&& count.expected == server.len()
                &&& count.found != server.len()
                &&& exists|p: int|
                    {
                        &&& 0 <= p < parties.len()
                        &&& (#[trigger] parties[p])@.len() == count.found
                        &&& forall|q: int|
                            0 <= q < p ==> (#[trigger] parties[q])@.len() == server.len()
                    }
            }
        }),
{
    let server = psbt_views(server_checkpoints@);
    let parties = party_views(party_signed_checkpoints@);
    assert forall|p: int| 0 <= p < parties.len() implies (#[trigger] parties[p]).len()
        == party_signed_checkpoints@[p]@.len() by {}
    match merged {
        Ok(m) => {
            assert(psbt_views(m@).len() == server.len());
            if server.len() > 0 {
                assert forall|p: int| 0 <= p < parties.len() implies (
                #[trigger] party_signed_checkpoints@[p])@.len() == server.len() by {
                    assert(parties[p].len() == server.len());
                }
            }
            assert forall|i: int| 0 <= i < server.len() implies carries(
                psbt_view(#[trigger] m@[i]),
                psbt_view(server_checkpoints@[i]),
                party_signed_checkpoints@.map_values(
                    |party: Vec<Psbt>| psbt_view(party@[i]),
                ),
            ) by {
                lemma_merge_carries(server[i], parties, i);
                assert(psbt_views(m@)[i] == psbt_view(m@[i]));
                let copies = party_signed_checkpoints@.map_values(
                    |party: Vec<Psbt>| psbt_view(party@[i]),
                );
                assert forall|p: int| 0 <= p < parties.len() implies copies_at(parties, i)[p]
                    == copies[p] by {
                    assert(parties[p].len() == server.len());
                }
                assert(copies_at(parties, i) =~= copies);
            }
        },
        Err(count) => {
            let p = choose|p: int|
                {
                    &&& 0 <= p < parties.len()
                    &&& (#[trigger] parties[p]).len() == count.found
                    &&& count.found != count.expected
                    &&& all_have(parties.take(p), server.len())
                };
            assert(party_signed_checkpoints@[p]@.len() == count.found);
            assert forall|q: int| 0 <= q < p implies (
            #[trigger] party_signed_checkpoints@[q])@.len() == server.len() by {
                assert(parties.take(p)[q].len() == server.len());
            }
        },
    }
}

proof fn lemma_original_script(originals: Seq<PsbtView>, txid: Seq<u8>, k: int)
    requires
        0 <= k < originals.len(),
        frame_txid(originals[k].frame) == txid,
        forall|m: int| k < m < originals.len() ==> frame_txid((#[trigger] originals[m]).frame) != txid,
    ensures
        original_script(originals, txid) == Some(originals[k].inputs[0].witness_script),
    decreases originals.len(),
{
    if k < originals.len() - 1 {
        assert(frame_txid(originals[originals.len() - 1].frame) != txid);
        lemma_original_script(originals.drop_last(), txid, k);
    }
}

proof fn lemma_no_original_script(originals: Seq<PsbtView>, txid: Seq<u8>)
    requires
        forall|m: int|
            0 <= m < originals.len() ==> frame_txid((#[trigger] originals[m]).frame) != txid,
    ensures
        original_script(originals, txid) is None,
    decreases originals.len(),
{
    if originals.len() > 0 {
        assert(frame_txid(originals[originals.len() - 1].frame) != txid);
        lemma_no_original_script(originals.drop_last(), txid);
    }
}

/// Whether `now` is `was` with the witness script that was sent, and otherwise the same. The
/// script is that of the last original of the same transaction; without an original nothing
/// changes.
pub open spec fn restores(now: PsbtView, was: PsbtView, originals: Seq<PsbtView>) -> bool {
    let is_original = |k: int|
        0 <= k < originals.len() && frame_txid(originals[k].frame) == frame_txid(was.frame);
    &&& now.frame == was.frame
    &&& now.inputs.len() == was.inputs.len()
    &&& forall|j: int|
        0 <= j < was.inputs.len() ==> {
            &&& (#[trigger] now.inputs[j]).sigs == was.inputs[j].sigs
            &&& now.inputs[j].other == was.inputs[j].other
            &&& j > 0 ==> now.inputs[j].witness_script == was.inputs[j].witness_script
        }
    &&& forall|k: int|
        #[trigger] is_original(k) && (forall|m: int| m > k ==> !#[trigger] is_original(m))
            ==> now.inputs[0].witness_script == originals[k].inputs[0].witness_script
    &&& (forall|k: int| !#[trigger] is_original(k)) ==> now.inputs == was.inputs
}

proof fn lemma_restore_script(was: PsbtView, originals: Seq<PsbtView>)
    requires
        original_script(originals, frame_txid(was.frame)) is Some ==> was.inputs.len() > 0,
    ensures
        restores(restore_script(was, originals), was, originals),
{
    let txid = frame_txid(was.frame);
    let now = restore_script(was, originals);
    let is_original = |k: int|
        0 <= k < originals.len() && frame_txid(originals[k].frame) == frame_txid(was.frame);
    assert forall|k: int|
        #[trigger] is_original(k) && (forall|m: int|
            m > k ==> !#[trigger] is_original(m)) implies now.inputs[0].witness_script
        == originals[k].inputs[0].witness_script by {
        assert forall|m: int| k < m < originals.len() implies frame_txid(
            (#[trigger] originals[m]).frame,
        ) != txid by {
            assert(!is_original(m));
        }
        lemma_original_script(originals, txid, k);
    }
    if forall|k: int| !#[trigger] is_original(k) {
        assert forall|m: int| 0 <= m < originals.len() implies frame_txid(
            (#[trigger] originals[m]).frame,
        ) != txid by {
            assert(!is_original(m));
        }
        lemma_no_original_script(originals, txid);
    }
}

/// Restoring puts back the witness scripts that were sent and changes nothing else.
pub proof fn lemma_restoring_changes_scripts_only(
    checkpoints: Vec<Psbt>,
    originals: &[Psbt],
    restored: Vec<Psbt>,
)
    requires
        restorable(psbt_views(checkpoints@), psbt_views(originals@)),
        call_ensures(restore_witness_scripts, (checkpoints, originals), restored),
    ensures
        restored@.len() == checkpoints@.len(),
        forall|i: int|
            0 <= i < checkpoints@.len() ==> restores(
                psbt_view(#[trigger] restored@[i]),
                psbt_view(checkpoints@[i]),
                originals@.map_values(|original: Psbt| psbt_view(original)),
            ),
{
    let given = psbt_views(checkpoints@);
    let sent = psbt_views(originals@);
    let back = psbt_views(restored@);
    assert(back.len() == given.len());
    assert forall|i: int| 0 <= i < checkpoints@.len() implies restores(
        psbt_view(#[trigger] restored@[i]),
        psbt_view(checkpoints@[i]),
        sent,
    ) by {
        assert(given[i] == psbt_view(checkpoints@[i]));
        assert(back[i] == psbt_view(restored@[i]));
        lemma_restore_script(given[i], sent);
    }
}

/// What goes to the server once it has returned its checkpoints: each of them with the
/// witness script that was sent for it, and with exactly the signatures that the server and
/// the parties put on their copies.
pub(crate) proof fn lemma_kept_checkpoints(
    returned: Seq<PsbtView>,
    unsigned: Seq<PsbtView>,
    parties: Seq<Seq<PsbtView>>,
    i: int,
)
    requires
        restorable(returned, unsigned),
        0 <= i < returned.len(),
    ensures
        ({
            let restored = restore_scripts(returned, unsigned);
            let merged = merge_checkpoints(restored, parties);
            &&& merged.len() == returned.len()
            &&& restores(restored[i], returned[i], unsigned)
            &&& carries(merged[i], restored[i], copies_at(parties, i))
        }),
{
    let restored = restore_scripts(returned, unsigned);
    lemma_restore_script(returned[i], unsigned);
    lemma_merge_carries(restored[i], parties, i);
}

} // verus!
