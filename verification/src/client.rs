//! The decisions of a client: how an offchain spend proceeds, and how it resumes
//! after a crash.

use bitcoin::Psbt;
use vstd::prelude::*;

use crate::checkpoint::{
    all_have, all_within, are_within, can_restore, carries, copies_at, lemma_kept_checkpoints,
    merge_all_checkpoint_sigs, merge_checkpoints, party_views, restorable, restore_scripts,
    restore_witness_scripts, restores, scripts_are_short, CheckpointCount,
};
use crate::psbt::{
    all_psbts, base64_bytes, base64_text, clone_psbt, compute_txid, frame_txid, psbt_bytes,
    psbt_frame, psbt_inputs, psbt_of_text, psbt_text, psbt_texts, psbt_view, psbt_views,
    psbts_from_base64, psbts_of_texts, psbts_to_base64, text_views, texts_fail, view_reads_back,
    PsbtTextError, PsbtView,
};
use crate::spend_store::{PendingSpend, PendingView};
use crate::text::{decimal, decimal_text};
use crate::tx::{txid_of_text, txid_text, Txid};

verus! {

/// Where an offchain spend stands.
pub enum OffchainSpend {
    /// The store is being asked for a pending spend.
    Loading {
        id: String,
        ark_tx: Psbt,
        unsigned_checkpoints: Vec<Psbt>,
        party_signed_checkpoints: Vec<Vec<Psbt>>,
    },
    /// The ark transaction is being submitted.
    Submitting {
        id: String,
        ark_txid: Txid,
        unsigned_checkpoints: Vec<Psbt>,
        party_signed_checkpoints: Vec<Vec<Psbt>>,
    },
    /// The signed checkpoints are being put into the store.
    Saving { id: String, ark_txid: Txid, checkpoints: Vec<Psbt> },
    /// The signed checkpoints are being sent to the server.
    Finalizing { id: String, ark_txid: Txid },
    /// The pending spend is being taken out of the store.
    Removing { ark_txid: Txid },
    /// The spend has finished or failed.
    Ended,
}

/// What has happened to an offchain spend.
pub enum SpendEvent {
    /// The store was asked for a pending spend.
    Loaded(Option<PendingSpend>),
    /// The server took the ark transaction and returned its checkpoints.
    Submitted(Vec<Psbt>),
    /// The store has the pending spend.
    Saved,
    /// The server took the signed checkpoints.
    Finalized,
    /// The store has dropped the pending spend.
    Removed,
}

/// What is to be done next for an offchain spend.
pub enum SpendAction {
    /// Submit the ark transaction and the unsigned checkpoints.
    Submit { ark_tx: Psbt, checkpoints: Vec<Psbt> },
    /// Put a pending spend into the store.
    Save(PendingSpend),
    /// Send the signed checkpoints to the server.
    Finalize { ark_txid: Txid, checkpoints: Vec<Psbt> },
    /// Drop the pending spend from the store.
    Remove(String),
    /// Nothing: the spend has finished.
    Finish(Txid),
    /// Nothing: the spend has failed.
    Fail(SpendFailure),
}

/// Why an offchain spend failed.
#[derive(Debug)]
pub enum SpendFailure {
    /// The pending spend has no transaction id.
    InvalidArkTxid,
    /// A checkpoint of the pending spend could not be read.
    DecodeCheckpoints(PsbtTextError),
    /// A party has not signed each checkpoint.
    PartyCheckpoints { party: usize, found: usize, expected: usize },
    /// A party has another number of checkpoints than the server returned.
    MergeCheckpoints(CheckpointCount),
}

impl SpendFailure {
    /// What the failure says, apart from what caused it.
    pub open spec fn says(self) -> Seq<char> {
        match self {
            SpendFailure::InvalidArkTxid => "invalid ark_txid in pending spend"@,
            SpendFailure::DecodeCheckpoints(_) => "decoding persisted checkpoint PSBTs"@,
            SpendFailure::PartyCheckpoints { party, found, expected } => {
                "party "@ + decimal(party as nat) + " has "@ + decimal(found as nat)
                    + " checkpoints, expected "@ + decimal(expected as nat)
            },
            SpendFailure::MergeCheckpoints(count) => {
                "party has "@ + decimal(count.found as nat) + " checkpoints, expected "@ + decimal(
                    count.expected as nat,
                )
            },
        }
    }

    /// The failure as a text, apart from what caused it.
    pub fn message(&self) -> (message: String)
        ensures
            message@ == self.says(),
    {
        match self {
            SpendFailure::InvalidArkTxid => "invalid ark_txid in pending spend".to_owned(),
            SpendFailure::DecodeCheckpoints(_) => "decoding persisted checkpoint PSBTs".to_owned(),
            SpendFailure::PartyCheckpoints { party, found, expected } => {
                "party ".to_owned().concat(decimal_text(*party).as_str()).concat(" has ").concat(
                    decimal_text(*found).as_str(),
                ).concat(" checkpoints, expected ").concat(decimal_text(*expected).as_str())
            },
            SpendFailure::MergeCheckpoints(count) => {
                "party has ".to_owned().concat(decimal_text(count.found).as_str()).concat(
                    " checkpoints, expected ",
                ).concat(decimal_text(count.expected).as_str())
            },
        }
    }
}

// -- Views --

/// Where an offchain spend stands.
#[verifier::ext_equal]
pub enum SpendStateView {
    Loading {
        id: Seq<char>,
        ark_tx: PsbtView,
        unsigned: Seq<PsbtView>,
        parties: Seq<Seq<PsbtView>>,
    },
    Submitting {
        id: Seq<char>,
        ark_txid: Seq<u8>,
        unsigned: Seq<PsbtView>,
        parties: Seq<Seq<PsbtView>>,
    },
    Saving { id: Seq<char>, ark_txid: Seq<u8>, checkpoints: Seq<PsbtView> },
    Finalizing { id: Seq<char>, ark_txid: Seq<u8> },
    Removing { ark_txid: Seq<u8> },
    Ended,
}

/// What has happened to an offchain spend.
#[verifier::ext_equal]
pub enum SpendEventView {
    Loaded(Option<PendingView>),
    Submitted(Seq<PsbtView>),
    Saved,
    Finalized,
    Removed,
}

/// What is to be done next for an offchain spend.
#[verifier::ext_equal]
pub enum SpendActionView {
    Submit { ark_tx: PsbtView, checkpoints: Seq<PsbtView> },
    Save(PendingView),
    Finalize { ark_txid: Seq<u8>, checkpoints: Seq<PsbtView> },
    Remove(Seq<char>),
    Finish(Seq<u8>),
    Fail(SpendFailureView),
}

/// Why an offchain spend failed.
pub enum SpendFailureView {
    InvalidArkTxid,
    DecodeCheckpoints,
    PartyCheckpoints { party: nat, found: nat, expected: nat },
    MergeCheckpoints { found: nat, expected: nat },
}

impl View for OffchainSpend {
    type V = SpendStateView;

    open spec fn view(&self) -> SpendStateView {
        match *self {
            OffchainSpend::Loading {
                id,
                ark_tx,
                unsigned_checkpoints,
                party_signed_checkpoints,
            } => SpendStateView::Loading {
                id: id@,
                ark_tx: psbt_view(ark_tx),
                unsigned: psbt_views(unsigned_checkpoints@),
                parties: party_views(party_signed_checkpoints@),
            },
            OffchainSpend::Submitting {
                id,
                ark_txid,
                unsigned_checkpoints,
                party_signed_checkpoints,
            } => SpendStateView::Submitting {
                id: id@,
                ark_txid: ark_txid@,
                unsigned: psbt_views(unsigned_checkpoints@),
                parties: party_views(party_signed_checkpoints@),
            },
            OffchainSpend::Saving { id, ark_txid, checkpoints } => SpendStateView::Saving {
                id: id@,
                ark_txid: ark_txid@,
                checkpoints: psbt_views(checkpoints@),
            },
            OffchainSpend::Finalizing { id, ark_txid } => SpendStateView::Finalizing {
                id: id@,
                ark_txid: ark_txid@,
            },
            OffchainSpend::Removing { ark_txid } => SpendStateView::Removing { ark_txid: ark_txid@ },
            OffchainSpend::Ended => SpendStateView::Ended,
        }
    }
}

impl View for SpendEvent {
    type V = SpendEventView;

    open spec fn view(&self) -> SpendEventView {
        match *self {
            SpendEvent::Loaded(Some(pending)) => SpendEventView::Loaded(Some(pending@)),
            SpendEvent::Loaded(None) => SpendEventView::Loaded(None),
            SpendEvent::Submitted(checkpoints) => SpendEventView::Submitted(
                psbt_views(checkpoints@),
            ),
            SpendEvent::Saved => SpendEventView::Saved,
            SpendEvent::Finalized => SpendEventView::Finalized,
            SpendEvent::Removed => SpendEventView::Removed,
        }
    }
}

impl View for SpendAction {
    type V = SpendActionView;

    open spec fn view(&self) -> SpendActionView {
        match *self {
            SpendAction::Submit { ark_tx, checkpoints } => SpendActionView::Submit {
                ark_tx: psbt_view(ark_tx),
                checkpoints: psbt_views(checkpoints@),
            },
            SpendAction::Save(pending) => SpendActionView::Save(pending@),
            SpendAction::Finalize { ark_txid, checkpoints } => SpendActionView::Finalize {
                ark_txid: ark_txid@,
                checkpoints: psbt_views(checkpoints@),
            },
            SpendAction::Remove(id) => SpendActionView::Remove(id@),
            SpendAction::Finish(ark_txid) => SpendActionView::Finish(ark_txid@),
            SpendAction::Fail(failure) => SpendActionView::Fail(failure@),
        }
    }
}

impl View for SpendFailure {
    type V = SpendFailureView;

    open spec fn view(&self) -> SpendFailureView {
        match *self {
            SpendFailure::InvalidArkTxid => SpendFailureView::InvalidArkTxid,
            SpendFailure::DecodeCheckpoints(_) => SpendFailureView::DecodeCheckpoints,
            SpendFailure::PartyCheckpoints { party, found, expected } => {
                SpendFailureView::PartyCheckpoints {
                    party: party as nat,
                    found: found as nat,
                    expected: expected as nat,
                }
            },
            SpendFailure::MergeCheckpoints(count) => SpendFailureView::MergeCheckpoints {
                found: count.found as nat,
                expected: count.expected as nat,
            },
        }
    }
}

// -- How a spend proceeds --

/// The first of some parties that has another number of checkpoints than `count`;
/// the number of parties if there is none.
pub open spec fn first_without(parties: Seq<Seq<PsbtView>>, count: nat) -> int
    decreases parties.len(),
{
    if parties.len() == 0 {
        0
    } else {
        let earlier = first_without(parties.drop_last(), count);
        if earlier < parties.len() - 1 || parties.last().len() != count {
            earlier
        } else {
            parties.len() as int
        }
    }
}

/// What is kept of a spend.
pub open spec fn pending_spend(
    id: Seq<char>,
    ark_txid: Seq<u8>,
    checkpoints: Seq<PsbtView>,
) -> PendingView {
    PendingView {
        id,
        ark_txid: txid_text(ark_txid),
        signed_checkpoints: psbt_texts(checkpoints),
    }
}

/// How a spend goes on from what is kept of it: straight to finalizing.
pub open spec fn resume(id: Seq<char>, pending: PendingView) -> (SpendStateView, SpendActionView) {
    match txid_of_text(pending.ark_txid) {
        None => (
            SpendStateView::Ended,
            SpendActionView::Fail(SpendFailureView::InvalidArkTxid),
        ),
        Some(ark_txid) => if all_psbts(pending.signed_checkpoints) {
            (
                SpendStateView::Finalizing { id, ark_txid },
                SpendActionView::Finalize {
                    ark_txid,
                    checkpoints: psbts_of_texts(pending.signed_checkpoints),
                },
            )
        } else {
            (SpendStateView::Ended, SpendActionView::Fail(SpendFailureView::DecodeCheckpoints))
        },
    }
}

/// How a fresh spend begins: it is submitted if every party has signed each
/// checkpoint.
pub open spec fn begin(
    id: Seq<char>,
    ark_tx: PsbtView,
    unsigned: Seq<PsbtView>,
    parties: Seq<Seq<PsbtView>>,
) -> (SpendStateView, SpendActionView) {
    let party = first_without(parties, unsigned.len());
    if party < parties.len() {
        (
            SpendStateView::Ended,
            SpendActionView::Fail(
                SpendFailureView::PartyCheckpoints {
                    party: party as nat,
                    found: parties[party].len(),
                    expected: unsigned.len(),
                },
            ),
        )
    } else {
        (
            SpendStateView::Submitting { id, ark_txid: frame_txid(ark_tx.frame), unsigned, parties },
            SpendActionView::Submit { ark_tx, checkpoints: unsigned },
        )
    }
}

/// How a spend goes on once the server has returned its checkpoints: with the
/// signatures of all parties merged, it is saved.
pub open spec fn keep(
    id: Seq<char>,
    ark_txid: Seq<u8>,
    unsigned: Seq<PsbtView>,
    parties: Seq<Seq<PsbtView>>,
    returned: Seq<PsbtView>,
) -> (SpendStateView, SpendActionView) {
    let party = first_without(parties, returned.len());
    if returned.len() > 0 && party < parties.len() {
        (
            SpendStateView::Ended,
            SpendActionView::Fail(
                SpendFailureView::MergeCheckpoints {
                    found: parties[party].len(),
                    expected: returned.len(),
                },
            ),
        )
    } else {
        let checkpoints = merge_checkpoints(restore_scripts(returned, unsigned), parties);
        (
            SpendStateView::Saving { id, ark_txid, checkpoints },
            SpendActionView::Save(pending_spend(id, ark_txid, checkpoints)),
        )
    }
}

/// Where a spend stands after an event, and what is to be done.
pub open spec fn next(state: SpendStateView, event: SpendEventView) -> (
    SpendStateView,
    SpendActionView,
) {
    match (state, event) {
        (
            SpendStateView::Loading { id, ark_tx, unsigned, parties },
            SpendEventView::Loaded(Some(pending)),
        ) => resume(id, pending),
        (
            SpendStateView::Loading { id, ark_tx, unsigned, parties },
            SpendEventView::Loaded(None),
        ) => begin(id, ark_tx, unsigned, parties),
        (
            SpendStateView::Submitting { id, ark_txid, unsigned, parties },
            SpendEventView::Submitted(returned),
        ) => keep(id, ark_txid, unsigned, parties, returned),
        (SpendStateView::Saving { id, ark_txid, checkpoints }, SpendEventView::Saved) => (
            SpendStateView::Finalizing { id, ark_txid },
            SpendActionView::Finalize { ark_txid, checkpoints },
        ),
        (SpendStateView::Finalizing { id, ark_txid }, SpendEventView::Finalized) => (
            SpendStateView::Removing { ark_txid },
            SpendActionView::Remove(id),
        ),
        (SpendStateView::Removing { ark_txid }, SpendEventView::Removed) => (
            SpendStateView::Ended,
            SpendActionView::Finish(ark_txid),
        ),
        _ => (state, arbitrary()),
    }
}

/// Whether an event can happen in a state, with what it brings in order: the
/// checkpoints that the server returned have the inputs that scripts and
/// signatures are put on.
pub open spec fn is_due(state: SpendStateView, event: SpendEventView) -> bool {
    match (state, event) {
        (SpendStateView::Loading { .. }, SpendEventView::Loaded(_)) => true,
        (
            SpendStateView::Submitting { id, ark_txid, unsigned, parties },
            SpendEventView::Submitted(returned),
        ) => {
            &&& restorable(returned, unsigned)
            &&& all_have(parties, returned.len()) ==> all_within(parties, returned)
        },
        (SpendStateView::Saving { .. }, SpendEventView::Saved) => true,
        (SpendStateView::Finalizing { .. }, SpendEventView::Finalized) => true,
        (SpendStateView::Removing { .. }, SpendEventView::Removed) => true,
        _ => false,
    }
}

/// Whether checkpoints that the server returned read back from their bytes, also
/// with the scripts of `unsigned` put into them.
pub open spec fn is_readable(returned: Seq<PsbtView>, unsigned: Seq<PsbtView>) -> bool {
    &&& forall|i: int| 0 <= i < returned.len() ==> view_reads_back(#[trigger] returned[i])
    &&& scripts_are_short(unsigned)
}

/// Whether an event brings checkpoints that read back from their bytes.
pub open spec fn returned_is_readable(state: SpendStateView, event: SpendEventView) -> bool {
    match (state, event) {
        (
            SpendStateView::Submitting { id, ark_txid, unsigned, parties },
            SpendEventView::Submitted(returned),
        ) => is_readable(returned, unsigned),
        _ => false,
    }
}

/// What `first_without` finds.
proof fn lemma_first_without(parties: Seq<Seq<PsbtView>>, count: nat)
    ensures
        0 <= first_without(parties, count) <= parties.len(),
        first_without(parties, count) == parties.len() <==> all_have(parties, count),
        first_without(parties, count) < parties.len() ==> parties[first_without(
            parties,
            count,
        )].len() != count,
        forall|p: int|
            0 <= p < first_without(parties, count) ==> (#[trigger] parties[p]).len() == count,
    decreases parties.len(),
{
    if parties.len() > 0 {
        let rest = parties.drop_last();
        lemma_first_without(rest, count);
        let earlier = first_without(rest, count);
        assert(forall|p: int| 0 <= p < rest.len() ==> rest[p] == parties[p]);
        if earlier < rest.len() {
            assert(parties[earlier].len() != count);
        } else {
            assert(all_have(rest, count));
            assert forall|p: int| 0 <= p < rest.len() implies (#[trigger] parties[p]).len()
                == count by {
                assert(rest[p].len() == count);
            }
        }
    }
}

/// The position of a party that has another number of checkpoints than `count`,
/// where all before it have `count`.
proof fn lemma_first_without_is(parties: Seq<Seq<PsbtView>>, count: nat, p: int)
    requires
        0 <= p < parties.len(),
        parties[p].len() != count,
        forall|q: int| 0 <= q < p ==> (#[trigger] parties[q]).len() == count,
    ensures
        first_without(parties, count) == p,
{
    lemma_first_without(parties, count);
}

/// Copies of some PSBTs.
fn clone_psbts(psbts: &[Psbt]) -> (copies: Vec<Psbt>)
    ensures
        psbt_views(copies@) == psbt_views(psbts@),
{
    let mut copies: Vec<Psbt> = Vec::new();
    let mut i: usize = 0;
    while i < psbts.len()
        invariant
            i <= psbts.len(),
            copies.len() == i,
            forall|k: int| 0 <= k < i ==> psbt_view(#[trigger] copies@[k]) == psbt_view(psbts@[k]),
        decreases psbts.len() - i,
    {
        copies.push(clone_psbt(&psbts[i]));
        i = i + 1;
    }
    assert(psbt_views(copies@) =~= psbt_views(psbts@));
    copies
}

/// The first party that has another number of checkpoints than `expected`, with
/// the number that it has.
fn find_party_without(parties: &[Vec<Psbt>], expected: usize) -> (party: Option<(usize, usize)>)
    ensures
        match party {
            Some((p, found)) => {
                &&& p == first_without(party_views(parties@), expected as nat)
                &&& p < parties.len()
                &&& found == party_views(parties@)[p as int].len()
            },
            None => first_without(party_views(parties@), expected as nat) == parties.len(),
        },
{
    let ghost views = party_views(parties@);
    let mut p: usize = 0;
    while p < parties.len()
        invariant
            p <= parties.len(),
            views == party_views(parties@),
            forall|q: int| 0 <= q < p ==> (#[trigger] views[q]).len() == expected,
        decreases parties.len() - p,
    {
        let found: usize = parties[p].len();
        assert(views[p as int].len() == found);
        if found != expected {
            proof {
                lemma_first_without_is(views, expected as nat, p as int);
            }
            return Some((p, found));
        }
        p = p + 1;
    }
    proof {
        lemma_first_without(views, expected as nat);
        assert(all_have(views, expected as nat));
    }
    None
}

impl OffchainSpend {
    /// An offchain spend that begins with asking the store for a pending spend of
    /// this `id`.
    ///
    /// `ark_tx` carries all signatures but the server's, the checkpoints carry
    /// none. Each party's copies of the checkpoints are signed by that party.
    pub fn new(
        id: String,
        ark_tx: Psbt,
        unsigned_checkpoints: Vec<Psbt>,
        party_signed_checkpoints: Vec<Vec<Psbt>>,
    ) -> (spend: OffchainSpend)
        ensures
            spend@ == (SpendStateView::Loading {
                id: id@,
                ark_tx: psbt_view(ark_tx),
                unsigned: psbt_views(unsigned_checkpoints@),
                parties: party_views(party_signed_checkpoints@),
            }),
    {
        OffchainSpend::Loading { id, ark_tx, unsigned_checkpoints, party_signed_checkpoints }
    }

    /// Whether an event can happen now, with what it brings in order.
    pub fn accepts(&self, event: &SpendEvent) -> (due: bool)
        ensures
            due == is_due(self@, event@),
    {
        match (self, event) {
            (OffchainSpend::Loading { .. }, SpendEvent::Loaded(_)) => true,
            (
                OffchainSpend::Submitting { unsigned_checkpoints, party_signed_checkpoints, .. },
                SpendEvent::Submitted(returned),
            ) => {
                let ghost parties = party_views(party_signed_checkpoints@);
                proof {
                    lemma_first_without(parties, returned@.len());
                }
                can_restore(returned.as_slice(), unsigned_checkpoints.as_slice()) && (
                find_party_without(
                    party_signed_checkpoints.as_slice(),
                    returned.len(),
                ).is_some() || are_within(party_signed_checkpoints.as_slice(), returned.as_slice()))
            },
            (OffchainSpend::Saving { .. }, SpendEvent::Saved) => true,
            (OffchainSpend::Finalizing { .. }, SpendEvent::Finalized) => true,
            (OffchainSpend::Removing { .. }, SpendEvent::Removed) => true,
            _ => false,
        }
    }

    /// Goes on after an event. Where a checkpoint that was kept cannot be read, the
    /// failure says why the first of those cannot.
    ///
    /// What is saved leads, when it is loaded again, to the same finalization as
    /// going on, if the checkpoints that the server returned read back from their
    /// bytes.
    pub fn step(self, event: SpendEvent) -> (stepped: (OffchainSpend, SpendAction))
        requires
            is_due(self@, event@),
        ensures
            (stepped.0@, stepped.1@) == next(self@, event@),
            stepped.1 matches SpendAction::Fail(SpendFailure::DecodeCheckpoints(error))
                ==> texts_fail(event@->Loaded_0->0.signed_checkpoints, error),
            stepped.1@ is Save && returned_is_readable(self@, event@) ==> resume(
                self@->Submitting_id,
                stepped.1@->Save_0,
            ) == next(stepped.0@, SpendEventView::Saved),
    {
        match (self, event) {
            (
                OffchainSpend::Loading { id, .. },
                SpendEvent::Loaded(Some(pending)),
            ) => OffchainSpend::resume_from(id, pending),
            (
                OffchainSpend::Loading {
                    id,
                    ark_tx,
                    unsigned_checkpoints,
                    party_signed_checkpoints,
                },
                SpendEvent::Loaded(None),
            ) => OffchainSpend::begin_with(
                id,
                ark_tx,
                unsigned_checkpoints,
                party_signed_checkpoints,
            ),
            (
                OffchainSpend::Submitting {
                    id,
                    ark_txid,
                    unsigned_checkpoints,
                    party_signed_checkpoints,
                },
                SpendEvent::Submitted(returned),
            ) => OffchainSpend::keep_checkpoints(
                id,
                ark_txid,
                unsigned_checkpoints,
                party_signed_checkpoints,
                returned,
            ),
            (OffchainSpend::Saving { id, ark_txid, checkpoints }, SpendEvent::Saved) => (
                OffchainSpend::Finalizing { id, ark_txid },
                SpendAction::Finalize { ark_txid, checkpoints },
            ),
            (OffchainSpend::Finalizing { id, ark_txid }, SpendEvent::Finalized) => (
                OffchainSpend::Removing { ark_txid },
                SpendAction::Remove(id),
            ),
            (OffchainSpend::Removing { ark_txid }, SpendEvent::Removed) => (
                OffchainSpend::Ended,
                SpendAction::Finish(ark_txid),
            ),
            (state, _) => {
                assert(false);
                (state, SpendAction::Fail(SpendFailure::InvalidArkTxid))
            },
        }
    }

    /// Goes on from what was kept of a spend.
    fn resume_from(id: String, pending: PendingSpend) -> (stepped: (OffchainSpend, SpendAction))
        ensures
            (stepped.0@, stepped.1@) == resume(id@, pending@),
            stepped.1 matches SpendAction::Fail(SpendFailure::DecodeCheckpoints(error))
                ==> texts_fail(pending@.signed_checkpoints, error),
    {
        let ark_txid = match Txid::parse(pending.ark_txid.as_str()) {
            Some(ark_txid) => ark_txid,
            None => return (OffchainSpend::Ended, SpendAction::Fail(SpendFailure::InvalidArkTxid)),
        };
        match psbts_from_base64(pending.signed_checkpoints.as_slice()) {
            Ok(checkpoints) => (
                OffchainSpend::Finalizing { id, ark_txid },
                SpendAction::Finalize { ark_txid, checkpoints },
            ),
            Err(error) => (
                OffchainSpend::Ended,
                SpendAction::Fail(SpendFailure::DecodeCheckpoints(error)),
            ),
        }
    }

    /// Begins a fresh spend.
    fn begin_with(
        id: String,
        ark_tx: Psbt,
        unsigned_checkpoints: Vec<Psbt>,
        party_signed_checkpoints: Vec<Vec<Psbt>>,
    ) -> (stepped: (OffchainSpend, SpendAction))
        ensures
            (stepped.0@, stepped.1@) == begin(
                id@,
                psbt_view(ark_tx),
                psbt_views(unsigned_checkpoints@),
                party_views(party_signed_checkpoints@),
            ),
    {
        let expected: usize = unsigned_checkpoints.len();
        match find_party_without(party_signed_checkpoints.as_slice(), expected) {
            Some((party, found)) => {
                let failure = SpendFailure::PartyCheckpoints { party, found, expected };
                (OffchainSpend::Ended, SpendAction::Fail(failure))
            },
            None => {
                let ark_txid = compute_txid(&ark_tx);
                let checkpoints = clone_psbts(unsigned_checkpoints.as_slice());
                (
                    OffchainSpend::Submitting {
                        id,
                        ark_txid,
                        unsigned_checkpoints,
                        party_signed_checkpoints,
                    },
                    SpendAction::Submit { ark_tx, checkpoints },
                )
            },
        }
    }

    /// Goes on with the checkpoints that the server returned.
    fn keep_checkpoints(
        id: String,
        ark_txid: Txid,
        unsigned_checkpoints: Vec<Psbt>,
        party_signed_checkpoints: Vec<Vec<Psbt>>,
        returned: Vec<Psbt>,
    ) -> (stepped: (OffchainSpend, SpendAction))
        requires
            restorable(psbt_views(returned@), psbt_views(unsigned_checkpoints@)),
            all_have(party_views(party_signed_checkpoints@), returned@.len()) ==> all_within(
                party_views(party_signed_checkpoints@),
                psbt_views(returned@),
            ),
        ensures
            (stepped.0@, stepped.1@) == keep(
                id@,
                ark_txid@,
                psbt_views(unsigned_checkpoints@),
                party_views(party_signed_checkpoints@),
                psbt_views(returned@),
            ),
            stepped.1@ is Save && is_readable(
                psbt_views(returned@),
                psbt_views(unsigned_checkpoints@),
            ) ==> resume(id@, stepped.1@->Save_0) == next(stepped.0@, SpendEventView::Saved),
    {
        let ghost all = returned@;
        let ghost given = psbt_views(returned@);
        let ghost parties = party_views(party_signed_checkpoints@);
        let restored = restore_witness_scripts(returned, unsigned_checkpoints.as_slice());
        proof {
            assert(psbt_views(restored@).len() == given.len());
            if all_have(parties, given.len()) {
                assert(all_within(parties, psbt_views(restored@)));
            }
            lemma_first_without(parties, given.len());
        }
        match merge_all_checkpoint_sigs(restored.as_slice(), party_signed_checkpoints.as_slice()) {
            Ok(checkpoints) => {
                let pending = PendingSpend {
                    id: id.clone(),
                    ark_txid: ark_txid.to_string(),
                    signed_checkpoints: psbts_to_base64(checkpoints.as_slice()),
                };
                proof {
                    let merged = psbt_views(checkpoints@);
                    if is_readable(given, psbt_views(unsigned_checkpoints@)) {
                        assert forall|i: int| 0 <= i < merged.len() implies text_reads_back(
                            #[trigger] merged[i],
                        ) by {
                            assert(view_reads_back(given[i]));
                            assert(given[i] == psbt_view(all[i]));
                            assert(view_reads_back(psbt_views(restored@)[i]));
                            assert(merged[i] == psbt_view(checkpoints@[i]));
                            assert(pending.signed_checkpoints@[i]@ == text_views(
                                pending.signed_checkpoints@,
                            )[i]);
                        }
                        lemma_saved_spend_resumes(id@, ark_txid@, merged);
                    }
                }
                (OffchainSpend::Saving { id, ark_txid, checkpoints }, SpendAction::Save(pending))
            },
            Err(count) => {
                proof {
                    let p = choose|p: int|
                        0 <= p < parties.len() && (#[trigger] parties[p]).len() == count.found
                            && count.found != count.expected && all_have(
                            parties.take(p),
                            given.len(),
                        );
                    assert forall|q: int| 0 <= q < p implies (#[trigger] parties[q]).len()
                        == given.len() by {
                        assert(parties.take(p)[q].len() == given.len());
                    }
                    lemma_first_without_is(parties, given.len(), p);
                }
                (OffchainSpend::Ended, SpendAction::Fail(SpendFailure::MergeCheckpoints(count)))
            },
        }
    }
}

// -- What holds of every spend --

/// A spend that was saved resumes where it was: loading what was kept leads to
/// finalizing the same transaction with the same checkpoints as going on without a
/// crash, if these read back from their bytes.
pub proof fn lemma_saved_spend_resumes(
    id: Seq<char>,
    ark_txid: Seq<u8>,
    checkpoints: Seq<PsbtView>,
)
    requires
        txid_of_text(txid_text(ark_txid)) == Some(ark_txid),
        forall|i: int| 0 <= i < checkpoints.len() ==> text_reads_back(#[trigger] checkpoints[i]),
    ensures
        resume(id, pending_spend(id, ark_txid, checkpoints)) == next(
            SpendStateView::Saving { id, ark_txid, checkpoints },
            SpendEventView::Saved,
        ),
{
    let texts = psbt_texts(checkpoints);
    assert forall|i: int| 0 <= i < texts.len() implies psbt_of_text(#[trigger] texts[i])
        == Some(checkpoints[i]) by {
        assert(text_reads_back(checkpoints[i]));
    }
    assert(psbts_of_texts(texts) =~= checkpoints);
}

/// Whether what a PSBT holds reads back from its text.
pub open spec fn text_reads_back(view: PsbtView) -> bool {
    psbt_of_text(psbt_text(view)) == Some(view)
}

/// A spend that was pending is never submitted again.
pub proof fn lemma_pending_spend_is_not_submitted(state: SpendStateView, pending: PendingView)
    requires
        state is Loading,
    ensures
        next(state, SpendEventView::Loaded(Some(pending))).1 is Finalize || next(
            state,
            SpendEventView::Loaded(Some(pending)),
        ).1 is Fail,
{
}

/// A fresh spend is submitted exactly if every party has signed each checkpoint,
/// and what is submitted carries none of the parties' checkpoint signatures.
pub proof fn lemma_counts_are_checked_first(
    id: Seq<char>,
    ark_tx: PsbtView,
    unsigned: Seq<PsbtView>,
    parties: Seq<Seq<PsbtView>>,
)
    ensures
        ({
            let state = SpendStateView::Loading { id, ark_tx, unsigned, parties };
            let action = next(state, SpendEventView::Loaded(None)).1;
            &&& action is Submit <==> all_have(parties, unsigned.len())
            &&& action is Submit ==> action == SpendActionView::Submit {
                ark_tx,
                checkpoints: unsigned,
            }
        }),
{
    lemma_first_without(parties, unsigned.len());
}

/// The states that a spend goes through with some events, the first state among
/// them.
pub open spec fn states(start: SpendStateView, events: Seq<SpendEventView>) -> Seq<SpendStateView>
    decreases events.len(),
{
    if events.len() == 0 {
        seq![start]
    } else {
        let before = states(start, events.drop_last());
        before.push(next(before.last(), events.last()).0)
    }
}

/// What is to be done after one of some events.
pub open spec fn action_after(
    start: SpendStateView,
    events: Seq<SpendEventView>,
    n: int,
) -> SpendActionView {
    next(states(start, events)[n], events[n]).1
}

/// Whether each of some events can happen when it does.
pub open spec fn all_due(start: SpendStateView, events: Seq<SpendEventView>) -> bool {
    forall|n: int|
        0 <= n < events.len() ==> is_due(#[trigger] states(start, events)[n], events[n])
}

proof fn lemma_states(start: SpendStateView, events: Seq<SpendEventView>)
    ensures
        states(start, events).len() == events.len() + 1,
        states(start, events)[0] == start,
        forall|n: int|
            #![trigger events[n]]
            0 <= n < events.len() ==> states(start, events)[n + 1] == next(
                states(start, events)[n],
                events[n],
            ).0,
    decreases events.len(),
{
    if events.len() > 0 {
        let rest = events.drop_last();
        lemma_states(start, rest);
        assert forall|n: int| #![trigger events[n]] 0 <= n < events.len() implies states(
            start,
            events,
        )[n + 1] == next(states(start, events)[n], events[n]).0 by {
            if n < rest.len() {
                assert(rest[n] == events[n]);
                assert(states(start, rest)[n + 1] == next(states(start, rest)[n], rest[n]).0);
            }
        }
    }
}

/// Nothing is finalized that is not in the store: before a spend is finalized,
/// either it was loaded from the store, or what is finalized was saved there and
/// the store has it.
pub proof fn lemma_saved_before_finalized(
    start: SpendStateView,
    events: Seq<SpendEventView>,
    n: int,
)
    requires
        start is Loading,
        all_due(start, events),
        0 <= n < events.len(),
        action_after(start, events, n) is Finalize,
    ensures
        ({
            let action = action_after(start, events, n);
            let ark_txid = action->Finalize_ark_txid;
            let checkpoints = action->Finalize_checkpoints;
            ||| n == 0 && events[0] is Loaded && events[0]->Loaded_0 is Some
            ||| {
                &&& n >= 1
                &&& events[n] is Saved
                &&& action_after(start, events, n - 1) == SpendActionView::Save(
                    pending_spend(start->Loading_id, ark_txid, checkpoints),
                )
            }
        }),
{
    lemma_states(start, events);
    lemma_states_in_turn(start, events, n);
    let state = states(start, events)[n];
    assert(is_due(state, events[n]));
    if n > 0 {
        assert(is_due(states(start, events)[n - 1], events[n - 1]));
        lemma_states_in_turn(start, events, n - 1);
        assert(state == next(states(start, events)[n - 1], events[n - 1]).0);
    }
}

/// Which states a spend can be in after so many events.
proof fn lemma_states_in_turn(start: SpendStateView, events: Seq<SpendEventView>, n: int)
    requires
        start is Loading,
        all_due(start, events),
        0 <= n <= events.len(),
    ensures
        ({
            let state = states(start, events)[n];
            &&& state is Loading ==> n == 0
            &&& state is Submitting ==> n == 1 && state->Submitting_id == start->Loading_id
            &&& state is Saving ==> n == 2 && state->Saving_id == start->Loading_id
            &&& state is Finalizing ==> state->Finalizing_id == start->Loading_id
        }),
    decreases n,
{
    lemma_states(start, events);
    if n > 0 {
        lemma_states_in_turn(start, events, n - 1);
        assert(is_due(states(start, events)[n - 1], events[n - 1]));
        assert(states(start, events)[n] == next(states(start, events)[n - 1], events[n - 1]).0);
    }
}

/// A spend that finishes has been finalized and has left the store: its last three
/// actions are to finalize the transaction, to drop it from the store under the
/// spend's own id, and to finish with the transaction's id.
pub proof fn lemma_finished_spend_left_the_store(
    start: SpendStateView,
    events: Seq<SpendEventView>,
    n: int,
)
    requires
        start is Loading,
        all_due(start, events),
        0 <= n < events.len(),
        action_after(start, events, n) is Finish,
    ensures
        n >= 2,
        events[n] is Removed,
        events[n - 1] is Finalized,
        action_after(start, events, n - 1) == SpendActionView::Remove(start->Loading_id),
        action_after(start, events, n - 2) is Finalize,
        action_after(start, events, n - 2)->Finalize_ark_txid == action_after(
            start,
            events,
            n,
        )->Finish_0,
{
    lemma_states(start, events);
    assert(is_due(states(start, events)[n], events[n]));
    lemma_states_in_turn(start, events, n);
    assert(n >= 1);
    assert(is_due(states(start, events)[n - 1], events[n - 1]));
    assert(states(start, events)[n] == next(states(start, events)[n - 1], events[n - 1]).0);
    lemma_states_in_turn(start, events, n - 1);
    assert(n >= 2);
    assert(is_due(states(start, events)[n - 2], events[n - 2]));
    assert(states(start, events)[n - 1] == next(states(start, events)[n - 2], events[n - 2]).0);
}

// -- What each step does --

/// A fresh spend is submitted as it was given if every party has signed each checkpoint.
/// If not, nothing is submitted, and the failure names the first party that has not.
pub proof fn lemma_fresh_spend_is_submitted(
    spend: OffchainSpend,
    after: OffchainSpend,
    action: SpendAction,
)
    requires
        spend is Loading,
        call_ensures(OffchainSpend::step, (spend, SpendEvent::Loaded(None)), (after, action)),
    ensures
        ({
            let unsigned = spend->Loading_unsigned_checkpoints@;
            let parties = spend->Loading_party_signed_checkpoints@;
            let signed_each = |p: int| 0 <= p < parties.len() ==> parties[p]@.len() == unsigned.len();
            &&& (forall|p: int| #[trigger] signed_each(p)) ==> {
                &&& action matches SpendAction::Submit { ark_tx, checkpoints }
                &&& psbt_view(ark_tx) == psbt_view(spend->Loading_ark_tx)
                &&& checkpoints@.map_values(|psbt: Psbt| psbt_view(psbt)) == unsigned.map_values(
                    |psbt: Psbt| psbt_view(psbt),
                )
                &&& after is Submitting
                &&& after->Submitting_id@ == spend->Loading_id@
                &&& after->Submitting_ark_txid@ == frame_txid(psbt_frame(spend->Loading_ark_tx))
                &&& after->Submitting_unsigned_checkpoints@.map_values(
                    |psbt: Psbt| psbt_view(psbt),
                ) == unsigned.map_values(|psbt: Psbt| psbt_view(psbt))
                &&& party_views(after->Submitting_party_signed_checkpoints@) == party_views(parties)
            }
            &&& forall|p: int|
                !#[trigger] signed_each(p) && (forall|q: int| q < p ==> #[trigger] signed_each(q))
                    ==> {
                    &&& after is Ended
                    &&& action == SpendAction::Fail(
                        SpendFailure::PartyCheckpoints {
                            party: p as usize,
                            found: parties[p]@.len() as usize,
                            expected: unsigned.len() as usize,
                        },
                    )
                }
        }),
{
    let unsigned = spend->Loading_unsigned_checkpoints@;
    let parties = spend->Loading_party_signed_checkpoints@;
    let views = party_views(parties);
    let count = psbt_views(unsigned).len();
    let signed_each = |p: int| 0 <= p < parties.len() ==> parties[p]@.len() == unsigned.len();
    assert(is_due(spend@, SpendEvent::Loaded(None)@));
    lemma_first_without(views, count);
    if forall|p: int| #[trigger] signed_each(p) {
        assert forall|p: int| 0 <= p < views.len() implies (#[trigger] views[p]).len() == count by {
            assert(signed_each(p));
        }
        assert(all_have(views, count));
    }
    assert forall|p: int|
        !#[trigger] signed_each(p) && (forall|q: int| q < p ==> #[trigger] signed_each(q)) implies {
        &&& after is Ended
        &&& action == SpendAction::Fail(
            SpendFailure::PartyCheckpoints {
                party: p as usize,
                found: parties[p]@.len() as usize,
                expected: unsigned.len() as usize,
            },
        )
    } by {
        assert(views[p].len() != count);
        assert forall|q: int| 0 <= q < p implies (#[trigger] views[q]).len() == count by {
            assert(signed_each(q));
        }
        lemma_first_without_is(views, count, p);
    }
}

/// A spend that the store has is finalized as it was kept: the transaction and the
/// checkpoints are those that the texts stand for. It fails if a text stands for none.
pub proof fn lemma_pending_spend_is_finalized(
    spend: OffchainSpend,
    pending: PendingSpend,
    after: OffchainSpend,
    action: SpendAction,
)
    requires
        spend is Loading,
        call_ensures(
            OffchainSpend::step,
            (spend, SpendEvent::Loaded(Some(pending))),
            (after, action),
        ),
    ensures
        ({
            let texts = pending.signed_checkpoints@;
            let is_psbt = |i: int| 0 <= i < texts.len() ==> psbt_of_text(texts[i]@) is Some;
            match txid_of_text(pending.ark_txid@) {
                None => after is Ended && action == SpendAction::Fail(SpendFailure::InvalidArkTxid),
                Some(txid) => if forall|i: int| #[trigger] is_psbt(i) {
                    &&& action matches SpendAction::Finalize { ark_txid, checkpoints }
                    &&& ark_txid@ == txid
                    &&& checkpoints@.len() == texts.len()
                    &&& forall|i: int|
                        0 <= i < texts.len() ==> psbt_of_text((#[trigger] texts[i])@) == Some(
                            psbt_view(checkpoints@[i]),
                        )
                    &&& after matches OffchainSpend::Finalizing { id, ark_txid: of }
                    &&& id@ == spend->Loading_id@
                    &&& of@ == txid
                } else {
                    &&& after is Ended
                    &&& action matches SpendAction::Fail(SpendFailure::DecodeCheckpoints(error))
                    &&& exists|i: int|
                        {
                            &&& 0 <= i < texts.len()
                            &&& psbt_of_text((#[trigger] texts[i])@) is None
                            &&& error is NotBase64 <==> base64_bytes(texts[i]@) is None
                            &&& forall|k: int|
                                0 <= k < i ==> psbt_of_text((#[trigger] texts[k])@) is Some
                        }
                },
            }
        }),
{
    let texts = pending.signed_checkpoints@;
    let views = text_views(texts);
    let is_psbt = |i: int| 0 <= i < texts.len() ==> psbt_of_text(texts[i]@) is Some;
    let event = SpendEvent::Loaded(Some(pending));
    assert(is_due(spend@, event@));
    assert(event@ == SpendEventView::Loaded(Some(pending@)));
    if txid_of_text(pending.ark_txid@) is Some {
        if forall|i: int| #[trigger] is_psbt(i) {
            assert forall|i: int| 0 <= i < views.len() implies psbt_of_text(#[trigger] views[i])
                is Some by {
                assert(is_psbt(i));
            }
            assert(all_psbts(views));
            let read = psbts_of_texts(views);
            let checkpoints = action->Finalize_checkpoints@;
            assert(psbt_views(checkpoints) == read);
            assert(checkpoints.len() == read.len());
            assert forall|i: int| 0 <= i < texts.len() implies psbt_of_text((#[trigger] texts[i])@)
                == Some(psbt_view(checkpoints[i])) by {
                assert(is_psbt(i));
                assert(psbt_views(checkpoints)[i] == read[i]);
                assert(views[i] == texts[i]@);
            }
        } else {
            let i = choose|i: int| !#[trigger] is_psbt(i);
            assert(psbt_of_text(views[i]) is None);
            assert(!all_psbts(views));
            let error = action->Fail_0->DecodeCheckpoints_0;
            assert(texts_fail(views, error));
            let first = choose|i: int|
                {
                    &&& 0 <= i < views.len()
                    &&& forall|k: int| 0 <= k < i ==> psbt_of_text(#[trigger] views[k]) is Some
                    &&& crate::psbt::text_fails(#[trigger] views[i], error)
                };
            assert(views[first] == texts[first]@);
            assert forall|k: int| 0 <= k < first implies psbt_of_text((#[trigger] texts[k])@)
                is Some by {
                assert(psbt_of_text(views[k]) is Some);
            }
        }
    }
}

/// What comes back from the server is kept under the spend's own id, with the id of the ark
/// transaction that was submitted, and goes on to be finalized: each checkpoint with the
/// witness script that was sent for it and all signatures of the server and the parties. It
/// fails only if a party has another number of checkpoints than came back.
pub proof fn lemma_returned_checkpoints_are_kept(
    spend: OffchainSpend,
    returned: Vec<Psbt>,
    after: OffchainSpend,
    action: SpendAction,
)
    requires
        spend is Submitting,
        is_due(spend@, SpendEvent::Submitted(returned)@),
        call_ensures(OffchainSpend::step, (spend, SpendEvent::Submitted(returned)), (after, action)),
    ensures
        ({
            let unsigned = spend->Submitting_unsigned_checkpoints@;
            let parties = spend->Submitting_party_signed_checkpoints@;
            let signed_each = |p: int|
                0 <= p < parties.len() ==> parties[p]@.len() == returned@.len();
            &&& returned@.len() == 0 || (forall|p: int| #[trigger] signed_each(p)) ==> {
                &&& action matches SpendAction::Save(pending)
                &&& pending.id@ == spend->Submitting_id@
                &&& pending.ark_txid@ == txid_text(spend->Submitting_ark_txid@)
                &&& after matches OffchainSpend::Saving { id, ark_txid, checkpoints }
                &&& id@ == spend->Submitting_id@
                &&& ark_txid@ == spend->Submitting_ark_txid@
                &&& checkpoints@.len() == returned@.len()
                &&& pending.signed_checkpoints@.len() == returned@.len()
                &&& forall|i: int|
                    0 <= i < returned@.len() ==> {
                        let kept = psbt_view(#[trigger] checkpoints@[i]);
                        &&& pending.signed_checkpoints@[i]@ == base64_text(
                            psbt_bytes(kept.frame, kept.inputs),
                        )
                        &&& exists|restored: PsbtView|
                            {
                                &&& #[trigger] restores(
                                    restored,
                                    psbt_view(returned@[i]),
                                    psbt_views(unsigned),
                                )
                                &&& carries(
                                    kept,
                                    restored,
                                    parties.map_values(
                                        |party: Vec<Psbt>| psbt_views(party@)[i],
                                    ),
                                )
                            }
                    }
            }
            &&& returned@.len() > 0 ==> forall|p: int|
                !#[trigger] signed_each(p) && (forall|q: int| q < p ==> #[trigger] signed_each(q))
                    ==> {
                    &&& after is Ended
                    &&& action@ == SpendActionView::Fail(
                        SpendFailureView::MergeCheckpoints {
                            found: parties[p]@.len(),
                            expected: returned@.len(),
                        },
                    )
                }
        }),
{
    let unsigned = psbt_views(spend->Submitting_unsigned_checkpoints@);
    let parties = spend->Submitting_party_signed_checkpoints@;
    let views = party_views(parties);
    let given = psbt_views(returned@);
    let event = SpendEvent::Submitted(returned);
    let signed_each = |p: int| 0 <= p < parties.len() ==> parties[p]@.len() == returned@.len();
    assert(event@ == SpendEventView::Submitted(given));
    lemma_first_without(views, given.len());
    if returned@.len() == 0 || (forall|p: int| #[trigger] signed_each(p)) {
        if returned@.len() > 0 {
            assert forall|p: int| 0 <= p < views.len() implies (#[trigger] views[p]).len()
                == given.len() by {
                assert(signed_each(p));
            }
            assert(all_have(views, given.len()));
        }
        let merged = merge_checkpoints(restore_scripts(given, unsigned), views);
        let checkpoints = after->Saving_checkpoints@;
        let pending = action->Save_0;
        assert(psbt_views(checkpoints) == merged);
        assert(psbt_views(checkpoints).len() == given.len());
        assert(text_views(pending.signed_checkpoints@) == psbt_texts(merged));
        assert(text_views(pending.signed_checkpoints@).len() == given.len());
        assert forall|i: int| 0 <= i < returned@.len() implies {
            let kept = psbt_view(#[trigger] checkpoints[i]);
            &&& pending.signed_checkpoints@[i]@ == base64_text(
                psbt_bytes(kept.frame, kept.inputs),
            )
            &&& exists|restored: PsbtView|
                {
                    &&& #[trigger] restores(restored, psbt_view(returned@[i]), unsigned)
                    &&& carries(
                        kept,
                        restored,
                        parties.map_values(|party: Vec<Psbt>| psbt_views(party@)[i]),
                    )
                }
        } by {
            lemma_kept_checkpoints(given, unsigned, views, i);
            assert(psbt_views(checkpoints)[i] == psbt_view(checkpoints[i]));
            assert(text_views(pending.signed_checkpoints@)[i] == psbt_texts(merged)[i]);
            let copies = parties.map_values(|party: Vec<Psbt>| psbt_views(party@)[i]);
            assert(copies_at(views, i) =~= copies);
            assert(restores(restore_scripts(given, unsigned)[i], psbt_view(returned@[i]), unsigned));
        }
    }
    if returned@.len() > 0 {
        assert forall|p: int|
            !#[trigger] signed_each(p) && (forall|q: int| q < p ==> #[trigger] signed_each(q)) implies {
            &&& after is Ended
            &&& action@ == SpendActionView::Fail(
                SpendFailureView::MergeCheckpoints {
                    found: parties[p]@.len(),
                    expected: returned@.len(),
                },
            )
        } by {
            assert(views[p].len() != given.len());
            assert forall|q: int| 0 <= q < p implies (#[trigger] views[q]).len()
                == given.len() by {
                assert(signed_each(q));
            }
            lemma_first_without_is(views, given.len(), p);
        }
    }
}

/// Once the store has a spend it is finalized with what was kept, then dropped from the store
/// under its own id, and then finished with the id of its transaction.
pub proof fn lemma_kept_spend_is_finalized_and_dropped(
    spend: OffchainSpend,
    event: SpendEvent,
    after: OffchainSpend,
    action: SpendAction,
)
    requires
        call_ensures(OffchainSpend::step, (spend, event), (after, action)),
    ensures
        spend is Saving && event is Saved ==> {
            &&& action matches SpendAction::Finalize { ark_txid, checkpoints }
            &&& ark_txid@ == spend->Saving_ark_txid@
            &&& checkpoints@.map_values(|psbt: Psbt| psbt_view(psbt))
                == spend->Saving_checkpoints@.map_values(|psbt: Psbt| psbt_view(psbt))
            &&& after matches OffchainSpend::Finalizing { id, ark_txid: of }
            &&& id@ == spend->Saving_id@
            &&& of@ == spend->Saving_ark_txid@
        },
        spend is Finalizing && event is Finalized ==> {
            &&& action matches SpendAction::Remove(id)
            &&& id@ == spend->Finalizing_id@
            &&& after matches OffchainSpend::Removing { ark_txid }
            &&& ark_txid@ == spend->Finalizing_ark_txid@
        },
        spend is Removing && event is Removed ==> {
            &&& action matches SpendAction::Finish(ark_txid)
            &&& ark_txid@ == spend->Removing_ark_txid@
            &&& after is Ended
        },
{
}

/// Whether a spend was begun and went through some events, one after the other, with these
/// actions to be done.
pub open spec fn is_run(
    spends: Seq<OffchainSpend>,
    events: Seq<SpendEvent>,
    actions: Seq<SpendAction>,
) -> bool {
    &&& spends.len() == events.len() + 1
    &&& actions.len() == events.len()
    &&& spends[0] is Loading
    &&& forall|n: int|
        0 <= n < events.len() ==> {
            &&& is_due((#[trigger] spends[n])@, events[n]@)
            &&& call_ensures(
                OffchainSpend::step,
                (spends[n], events[n]),
                (spends[n + 1], actions[n]),
            )
        }
}

proof fn lemma_run_keeps_id(
    spends: Seq<OffchainSpend>,
    events: Seq<SpendEvent>,
    actions: Seq<SpendAction>,
    n: int,
)
    requires
        is_run(spends, events, actions),
        0 <= n < spends.len(),
    ensures
        ({
            let id = spends[0]->Loading_id@;
            let fresh = frame_txid(psbt_frame(spends[0]->Loading_ark_tx));
            match spends[n] {
                OffchainSpend::Loading { .. } => n == 0,
                OffchainSpend::Submitting { id: own, ark_txid, .. } => {
                    &&& n == 1
                    &&& own@ == id
                    &&& ark_txid@ == fresh
                },
                OffchainSpend::Saving { id: own, ark_txid, .. } => {
                    &&& n == 2
                    &&& own@ == id
                    &&& ark_txid@ == fresh
                },
                OffchainSpend::Finalizing { id: own, .. } => own@ == id,
                _ => true,
            }
        }),
    decreases n,
{
    if n > 0 {
        lemma_run_keeps_id(spends, events, actions, n - 1);
        let before = spends[n - 1];
        assert(is_due(before@, events[n - 1]@));
        assert(call_ensures(
            OffchainSpend::step,
            (before, events[n - 1]),
            (spends[(n - 1) + 1], actions[n - 1]),
        ));
        assert(next(before@, events[n - 1]@) == (spends[n]@, actions[n - 1]@));
    }
}

/// The store knows a spend by one id: whatever happens, what is saved carries the id that the
/// spend was begun with, under which the store is asked for it, and what is removed is
/// removed under that id. What is saved names the ark transaction that was submitted.
pub proof fn lemma_store_knows_spend_by_its_id(
    id: String,
    ark_tx: Psbt,
    unsigned_checkpoints: Vec<Psbt>,
    party_signed_checkpoints: Vec<Vec<Psbt>>,
    spends: Seq<OffchainSpend>,
    events: Seq<SpendEvent>,
    actions: Seq<SpendAction>,
    n: int,
)
    requires
        is_run(spends, events, actions),
        call_ensures(
            OffchainSpend::new,
            (id, ark_tx, unsigned_checkpoints, party_signed_checkpoints),
            spends[0],
        ),
        0 <= n < events.len(),
    ensures
        actions[n] matches SpendAction::Save(pending) ==> {
            &&& pending.id@ == id@
            &&& pending.ark_txid@ == txid_text(frame_txid(psbt_frame(ark_tx)))
        },
        actions[n] matches SpendAction::Remove(removed) ==> removed@ == id@,
{
    lemma_run_keeps_id(spends, events, actions, n);
    let spend = spends[n];
    assert(is_due(spend@, events[n]@));
    assert(call_ensures(
        OffchainSpend::step,
        (spend, events[n]),
        (spends[n + 1], actions[n]),
    ));
    assert(next(spend@, events[n]@) == (spends[n + 1]@, actions[n]@));
    assert(psbt_view(spends[0]->Loading_ark_tx) == psbt_view(ark_tx));
    if let SpendAction::Save(pending) = actions[n] {
        assert(actions[n]@ == SpendActionView::Save(pending@));
        assert(pending@.id == pending.id@);
    }
}

/// A spend takes every event that comes in turn. Checkpoints that the server returned are
/// taken if all that were sent and all that came back have an input, and no party has signed
/// an input that the server's checkpoint lacks.
pub proof fn lemma_events_in_turn_are_accepted(spend: &OffchainSpend, event: &SpendEvent, due: bool)
    requires
        call_ensures(OffchainSpend::accepts, (spend, event), due),
    ensures
        spend is Loading && event is Loaded ==> due,
        spend is Saving && event is Saved ==> due,
        spend is Finalizing && event is Finalized ==> due,
        spend is Removing && event is Removed ==> due,
        spend is Submitting && event is Submitted ==> {
            let unsigned = spend->Submitting_unsigned_checkpoints@;
            let parties = spend->Submitting_party_signed_checkpoints@;
            let returned = event->Submitted_0@;
            (forall|k: int|
                0 <= k < unsigned.len() ==> psbt_inputs(#[trigger] unsigned[k]).len() > 0) && (forall|
                i: int,
            |
                0 <= i < returned.len() ==> psbt_inputs(#[trigger] returned[i]).len() > 0) && (forall|
                p: int,
                i: int,
            |
                #![trigger parties[p]@[i]]
                0 <= p < parties.len() && 0 <= i < returned.len() && i < parties[p]@.len()
                    ==> psbt_inputs(parties[p]@[i]).len() <= psbt_inputs(returned[i]).len()) ==> due
        },
{
    if spend is Submitting && event is Submitted {
        let unsigned = spend->Submitting_unsigned_checkpoints@;
        let parties = spend->Submitting_party_signed_checkpoints@;
        let returned = event->Submitted_0@;
        let sent = psbt_views(unsigned);
        let given = psbt_views(returned);
        let views = party_views(parties);
        if (forall|k: int|
            0 <= k < unsigned.len() ==> psbt_inputs(#[trigger] unsigned[k]).len() > 0) && (forall|
            i: int,
        |
            0 <= i < returned.len() ==> psbt_inputs(#[trigger] returned[i]).len() > 0) && (forall|
            p: int,
            i: int,
        |
            #![trigger parties[p]@[i]]
            0 <= p < parties.len() && 0 <= i < returned.len() && i < parties[p]@.len()
                ==> psbt_inputs(parties[p]@[i]).len() <= psbt_inputs(returned[i]).len()) {
            assert forall|k: int| 0 <= k < sent.len() implies (#[trigger] sent[k]).inputs.len()
                > 0 by {
                assert(psbt_inputs(unsigned[k]).len() > 0);
            }
            assert forall|i: int| 0 <= i < given.len() implies (#[trigger] given[i]).inputs.len()
                > 0 by {
                assert(psbt_inputs(returned[i]).len() > 0);
            }
            assert forall|p: int, i: int|
                #![trigger views[p][i]]
                0 <= p < views.len() && 0 <= i < given.len() && i
                    < views[p].len() implies crate::checkpoint::within(
                views[p][i].inputs,
                given[i].inputs,
            ) by {
                assert(views[p][i] == psbt_view(parties[p]@[i]));
                assert(given[i] == psbt_view(returned[i]));
            }
        }
    }
}

/// The message of copies that do not fit tells whose they are, how many there are and how many
/// there should be.
pub proof fn lemma_spend_failure_tells_counts(failure: &SpendFailure, message: String)
    requires
        call_ensures(SpendFailure::message, (failure,), message),
    ensures
        *failure matches SpendFailure::PartyCheckpoints { party, found, expected } ==> message@
            == "party "@ + decimal(party as nat) + " has "@ + decimal(found as nat)
            + " checkpoints, expected "@ + decimal(expected as nat),
        *failure matches SpendFailure::MergeCheckpoints(count) ==> message@ == "party has "@
            + decimal(count.found as nat) + " checkpoints, expected "@ + decimal(
            count.expected as nat,
        ),
{
}

/// A spend begins as it is given: with its id, its transaction, and all checkpoints and copies in
/// their places.
pub proof fn lemma_spend_begins_as_given(
    id: String,
    ark_tx: Psbt,
    unsigned_checkpoints: Vec<Psbt>,
    party_signed_checkpoints: Vec<Vec<Psbt>>,
    spend: OffchainSpend,
)
    requires
        call_ensures(
            OffchainSpend::new,
            (id, ark_tx, unsigned_checkpoints, party_signed_checkpoints),
            spend,
        ),
    ensures
        ({
            let unsigned = spend->Loading_unsigned_checkpoints@;
            let parties = spend->Loading_party_signed_checkpoints@;
            &&& spend is Loading
            &&& spend->Loading_id@ == id@
            &&& psbt_view(spend->Loading_ark_tx) == psbt_view(ark_tx)
            &&& unsigned.len() == unsigned_checkpoints@.len()
            &&& forall|i: int|
                0 <= i < unsigned.len() ==> psbt_view(#[trigger] unsigned[i]) == psbt_view(
                    unsigned_checkpoints@[i],
                )
            &&& parties.len() == party_signed_checkpoints@.len()
            &&& forall|p: int|
                0 <= p < parties.len() ==> (#[trigger] parties[p])@.len()
                    == party_signed_checkpoints@[p]@.len()
            &&& forall|p: int, i: int|
                0 <= p < parties.len() && 0 <= i < parties[p]@.len() ==> psbt_view(
                    #[trigger] parties[p]@[i],
                ) == psbt_view(party_signed_checkpoints@[p]@[i])
        }),
{
    let unsigned = spend->Loading_unsigned_checkpoints@;
    let parties = spend->Loading_party_signed_checkpoints@;
    let given = psbt_views(unsigned_checkpoints@);
    let copies = party_views(party_signed_checkpoints@);
    assert(psbt_views(unsigned).len() == given.len());
    assert forall|i: int| 0 <= i < unsigned.len() implies psbt_view(#[trigger] unsigned[i])
        == psbt_view(unsigned_checkpoints@[i]) by {
        assert(psbt_views(unsigned)[i] == given[i]);
    }
    assert(party_views(parties).len() == copies.len());
    assert forall|p: int| 0 <= p < parties.len() implies psbt_views((#[trigger] parties[p])@)
        == psbt_views(party_signed_checkpoints@[p]@) by {
        assert(party_views(parties)[p] == copies[p]);
    }
    assert forall|p: int| 0 <= p < parties.len() implies (#[trigger] parties[p])@.len()
        == party_signed_checkpoints@[p]@.len() by {
        assert(psbt_views(parties[p]@).len() == psbt_views(party_signed_checkpoints@[p]@).len());
    }
    assert forall|p: int, i: int|
        0 <= p < parties.len() && 0 <= i < parties[p]@.len() implies psbt_view(
        #[trigger] parties[p]@[i],
    ) == psbt_view(party_signed_checkpoints@[p]@[i]) by {
        assert(psbt_views(parties[p]@)[i] == psbt_views(party_signed_checkpoints@[p]@)[i]);
    }
}

} // verus!
