//! Finding the VTXOs of an escrow: which of them can be spent, which are
//! recoverable, and which contract holds each when the server's key has changed.

use ark_core::VtxoList;
use vstd::prelude::*;

use crate::address::ArkAddress;
use crate::bytes::bytes_equal;
use crate::contract::{
    leaf_of_parties, lemma_leaf_of_parties, EscrowContract, EscrowOptions, SignerSet,
};
use crate::intent::{
    all_read_back, lemma_settling_is_settling_vtxos, refuses, settles_vtxos, Delegate,
    IntentInputView,
};
use crate::keys::{PublicKey, XOnlyPublicKey};
use crate::offchain::EscrowTransaction;
use crate::refresh::{
    active_options, forfeits_fit, input_vtxos, lemma_vtxo_sum_is_a_sum, prepare_refresh_resolved,
    refresh_is_refused, refreshes, settled_inputs, vtxo_sum, RefreshError, RefreshInput,
    RefreshIntent, RefreshVtxo,
};
use crate::server::{onchain_script, ServerInfo};
use crate::spend::{
    build_refund_tx, build_release_tx, lemma_payment_spends_the_escrow, lemma_refund_is_fair,
    lemma_release_is_fair, pays_buyer_and_every_fee, pays_seller_all, refund_outcome,
    release_outcome, spends_through, EscrowVtxo, SpendError,
};
use crate::tx::{outpoint_text, OutPoint};
use crate::{fee_sum, fee_views, FeeOutput};

verus! {

// -- VTXOs as the server lists them --

/// A VTXO as the server lists it.
#[derive(Clone, Debug, PartialEq, Eq)]
pub struct ListedVtxo {
    pub outpoint: OutPoint,
    /// In satoshis.
    pub amount: u64,
    /// When the VTXO expires, in seconds since 1970.
    pub expires_at: i64,
    /// The script that it pays to.
    pub script: Vec<u8>,
    /// Whether it spends another VTXO, and is no leaf of a batch.
    pub is_preconfirmed: bool,
    pub is_swept: bool,
    pub is_unrolled: bool,
    pub is_spent: bool,
}

/// What a listed VTXO says.
#[verifier::ext_equal]
pub struct ListedView {
    pub outpoint: (Seq<u8>, u32),
    pub amount: u64,
    pub expires_at: i64,
    pub script: Seq<u8>,
    pub is_preconfirmed: bool,
    pub is_swept: bool,
    pub is_unrolled: bool,
    pub is_spent: bool,
}

impl View for ListedVtxo {
    type V = ListedView;

    open spec fn view(&self) -> ListedView {
        ListedView {
            outpoint: self.outpoint@,
            amount: self.amount,
            expires_at: self.expires_at,
            script: self.script@,
            is_preconfirmed: self.is_preconfirmed,
            is_swept: self.is_swept,
            is_unrolled: self.is_unrolled,
            is_spent: self.is_spent,
        }
    }
}

/// What some listed VTXOs say.
pub open spec fn listed_views(vtxos: Seq<ListedVtxo>) -> Seq<ListedView> {
    vtxos.map_values(|vtxo: ListedVtxo| vtxo@)
}

/// What can be done with a VTXO.
pub enum VtxoClass {
    /// It can be spent offchain.
    Spendable,
    /// It can only be settled in a batch.
    Recoverable,
    /// It is gone.
    Gone,
}

/// The earliest and the latest time that was read off the clock, in seconds since 1970.
pub struct ClockReadings {
    pub earliest: int,
    pub latest: int,
}

/// Whether a VTXO may be put into a class. What is spent or unrolled is gone. Of the
/// rest, what is swept or below the dust limit is recoverable. For the others the clock
/// decides: what expires before the earliest reading has expired and is recoverable, and
/// what does not expire before the latest is spendable. The clock is read more than once
/// for one VTXO: one that expires between two readings may be taken for neither
/// recoverable nor spendable, and so for gone.
pub open spec fn may_be(
    vtxo: ListedView,
    class: VtxoClass,
    dust: u64,
    clock: ClockReadings,
) -> bool {
    if vtxo.is_spent || vtxo.is_unrolled {
        class is Gone
    } else if vtxo.is_swept || vtxo.amount < dust {
        class is Recoverable
    } else if vtxo.expires_at < clock.earliest {
        class is Recoverable
    } else if vtxo.expires_at >= clock.latest {
        class is Spendable
    } else {
        true
    }
}

/// Whether each VTXO may be put into its class.
pub open spec fn may_all_be(
    vtxos: Seq<ListedView>,
    classes: Seq<VtxoClass>,
    dust: u64,
    clock: ClockReadings,
) -> bool {
    &&& classes.len() == vtxos.len()
    &&& forall|i: int|
        0 <= i < vtxos.len() ==> may_be(#[trigger] vtxos[i], classes[i], dust, clock)
}

/// The VTXOs of which `keep` holds, in their order.
pub open spec fn chosen(
    vtxos: Seq<ListedView>,
    classes: Seq<VtxoClass>,
    keep: spec_fn(ListedView, VtxoClass) -> bool,
) -> Seq<ListedView>
    decreases vtxos.len(),
{
    if vtxos.len() == 0 {
        Seq::empty()
    } else {
        let rest = chosen(vtxos.drop_last(), classes.drop_last(), keep);
        if keep(vtxos.last(), classes.last()) {
            rest.push(vtxos.last())
        } else {
            rest
        }
    }
}

/// The spendable VTXOs: those that spend another VTXO first, then the leaves of
/// batches.
pub open spec fn spendable_of(vtxos: Seq<ListedView>, classes: Seq<VtxoClass>) -> Seq<ListedView> {
    chosen(vtxos, classes, preconfirmed()) + chosen(vtxos, classes, confirmed())
}

/// Choose what is spendable and spends another VTXO.
pub open spec fn preconfirmed() -> spec_fn(ListedView, VtxoClass) -> bool {
    |vtxo: ListedView, class: VtxoClass| class is Spendable && vtxo.is_preconfirmed
}

/// Choose what is spendable and is a leaf of a batch.
pub open spec fn confirmed() -> spec_fn(ListedView, VtxoClass) -> bool {
    |vtxo: ListedView, class: VtxoClass| class is Spendable && !vtxo.is_preconfirmed
}

/// Choose what is recoverable.
pub open spec fn to_recover() -> spec_fn(ListedView, VtxoClass) -> bool {
    |vtxo: ListedView, class: VtxoClass| class is Recoverable
}

/// The recoverable VTXOs.
pub open spec fn recoverable_of(vtxos: Seq<ListedView>, classes: Seq<VtxoClass>) -> Seq<
    ListedView,
> {
    chosen(vtxos, classes, to_recover())
}

/// `ark_core::VtxoList`: VTXOs by what can be done with them.
#[verifier::external_type_specification]
#[verifier::external_body]
pub struct ExVtxoList(VtxoList);

/// The VTXOs of a list that can be spent offchain.
pub uninterp spec fn list_spendable(list: VtxoList) -> Seq<ListedView>;

/// The VTXOs of a list that are recoverable, and the times by which they were told from
/// the others when the list was made.
pub uninterp spec fn list_recoverable(list: VtxoList) -> (Seq<ListedView>, ClockReadings);

/// Calls `ark_core::VtxoList::new`.
///
/// Claimed of it: each VTXO is put into a class that it may be in, and the order
/// within a class stays. The clock decides on VTXOs that are neither gone nor
/// swept nor below the dust limit; it counts from 1970, and the list names the earliest
/// and the latest reading that was made for it.
#[verifier::external_body]
fn new_list(dust: u64, vtxos: &Vec<ListedVtxo>) -> (list: VtxoList)
    ensures
        0 <= list_recoverable(list).1.earliest <= list_recoverable(list).1.latest <= i64::MAX,
        exists|classes: Seq<VtxoClass>|
            #![trigger spendable_of(listed_views(vtxos@), classes)]
            {
                &&& may_all_be(listed_views(vtxos@), classes, dust, list_recoverable(list).1)
                &&& list_spendable(list) == spendable_of(listed_views(vtxos@), classes)
                &&& list_recoverable(list).0 == recoverable_of(listed_views(vtxos@), classes)
            },
{
    let list = vtxos.iter().map(|v| ark_core::server::VirtualTxOutPoint {
        outpoint: v.outpoint.to_string().parse().expect("an outpoint"),
        created_at: 0, expires_at: v.expires_at, amount: bitcoin::Amount::from_sat(v.amount),
        script: bitcoin::ScriptBuf::from(v.script.clone()), is_preconfirmed: v.is_preconfirmed,
        is_swept: v.is_swept, is_unrolled: v.is_unrolled, is_spent: v.is_spent, spent_by: None,
        commitment_txids: vec![], settled_by: None, ark_txid: None, assets: vec![], depth: 0,
    }).collect();
    VtxoList::new(bitcoin::Amount::from_sat(dust), list)
}

/// Hands out `ark_core::VtxoList::spendable_offchain`.
#[verifier::external_body]
fn spendable_offchain(list: &VtxoList) -> (vtxos: Vec<ListedVtxo>)
    ensures
        listed_views(vtxos@) == list_spendable(*list),
{
    list.spendable_offchain().map(|vtxo| ListedVtxo {
        outpoint: OutPoint::parse(&vtxo.outpoint.to_string()).expect("an outpoint"),
        amount: vtxo.amount.to_sat(),
        expires_at: vtxo.expires_at,
        script: vtxo.script.to_bytes(),
        is_preconfirmed: vtxo.is_preconfirmed,
        is_swept: vtxo.is_swept,
        is_unrolled: vtxo.is_unrolled,
        is_spent: vtxo.is_spent,
    }).collect()
}

/// Hands out `ark_core::VtxoList::recoverable`.
#[verifier::external_body]
fn recoverable(list: &VtxoList) -> (vtxos: Vec<ListedVtxo>)
    ensures
        listed_views(vtxos@) == list_recoverable(*list).0,
{
    list.recoverable().map(|vtxo| ListedVtxo {
        outpoint: OutPoint::parse(&vtxo.outpoint.to_string()).expect("an outpoint"),
        amount: vtxo.amount.to_sat(),
        expires_at: vtxo.expires_at,
        script: vtxo.script.to_bytes(),
        is_preconfirmed: vtxo.is_preconfirmed,
        is_swept: vtxo.is_swept,
        is_unrolled: vtxo.is_unrolled,
        is_spent: vtxo.is_spent,
    }).collect()
}

/// VTXOs by what can be done with them.
pub struct SortedVtxos {
    /// Those that can be spent offchain.
    pub spendable: Vec<ListedVtxo>,
    /// Those that can only be settled in a batch.
    pub recoverable: Vec<ListedVtxo>,
}

/// Whether `list` came out of `ark_core::VtxoList::new` for this dust limit and these
/// VTXOs.
pub closed spec fn lists(list: VtxoList, dust: u64, vtxos: Vec<ListedVtxo>) -> bool {
    call_ensures(new_list, (dust, &vtxos), list)
}

/// Whether VTXOs were sorted by what can be done with them, by a clock with these
/// readings.
pub open spec fn sorts(
    sorted: SortedVtxos,
    vtxos: Seq<ListedView>,
    dust: u64,
    clock: ClockReadings,
) -> bool {
    &&& 0 <= clock.earliest <= clock.latest <= i64::MAX
    &&& exists|classes: Seq<VtxoClass>|
        #![trigger spendable_of(vtxos, classes)]
        {
            &&& may_all_be(vtxos, classes, dust, clock)
            &&& listed_views(sorted.spendable@) == spendable_of(vtxos, classes)
            &&& listed_views(sorted.recoverable@) == recoverable_of(vtxos, classes)
        }
}

/// Sorts VTXOs by what can be done with them. The clock decides which have expired: the
/// VTXOs are those of one list that was made of exactly these, with the readings that
/// were made for it.
pub fn sort_vtxos(dust: u64, vtxos: &Vec<ListedVtxo>) -> (sorted: SortedVtxos)
    ensures
        exists|list: VtxoList|
            {
                &&& lists(list, dust, *vtxos)
                &&& listed_views(sorted.spendable@) == #[trigger] list_spendable(list)
                &&& listed_views(sorted.recoverable@) == list_recoverable(list).0
                &&& sorts(sorted, listed_views(vtxos@), dust, list_recoverable(list).1)
            },
{
    let list = new_list(dust, vtxos);
    SortedVtxos { spendable: spendable_offchain(&list), recoverable: recoverable(&list) }
}

/// What is chosen comes from the list, in a class that it was chosen for.
proof fn lemma_chosen(
    vtxos: Seq<ListedView>,
    classes: Seq<VtxoClass>,
    keep: spec_fn(ListedView, VtxoClass) -> bool,
    n: int,
)
    requires
        classes.len() == vtxos.len(),
        0 <= n < chosen(vtxos, classes, keep).len(),
    ensures
        exists|i: int|
            0 <= i < vtxos.len() && #[trigger] vtxos[i] == chosen(vtxos, classes, keep)[n] && keep(
                vtxos[i],
                classes[i],
            ),
    decreases vtxos.len(),
{
    let rest = chosen(vtxos.drop_last(), classes.drop_last(), keep);
    if n < rest.len() {
        lemma_chosen(vtxos.drop_last(), classes.drop_last(), keep, n);
        let i = choose|i: int|
            0 <= i < vtxos.drop_last().len() && #[trigger] vtxos.drop_last()[i] == rest[n] && keep(
                vtxos.drop_last()[i],
                classes.drop_last()[i],
            );
        assert(vtxos[i] == rest[n]);
        assert(classes[i] == classes.drop_last()[i]);
    } else {
        assert(vtxos[vtxos.len() - 1] == chosen(vtxos, classes, keep)[n]);
    }
}

/// What is spendable is neither spent nor unrolled nor swept, and reaches the dust
/// limit.
pub proof fn lemma_spendable_is_sound(
    sorted: SortedVtxos,
    vtxos: Seq<ListedView>,
    dust: u64,
    clock: ClockReadings,
    n: int,
)
    requires
        sorts(sorted, vtxos, dust, clock),
        0 <= n < sorted.spendable@.len(),
    ensures
        ({
            let vtxo = sorted.spendable@[n]@;
            &&& vtxos.contains(vtxo)
            &&& !vtxo.is_spent && !vtxo.is_unrolled && !vtxo.is_swept
            &&& vtxo.amount >= dust
        }),
{
    let classes = choose|classes: Seq<VtxoClass>|
        #![trigger spendable_of(vtxos, classes)]
        {
            &&& may_all_be(vtxos, classes, dust, clock)
            &&& listed_views(sorted.spendable@) == spendable_of(vtxos, classes)
            &&& listed_views(sorted.recoverable@) == recoverable_of(vtxos, classes)
        };
    let first = chosen(vtxos, classes, preconfirmed());
    let second = chosen(vtxos, classes, confirmed());
    let vtxo = sorted.spendable@[n]@;
    assert(listed_views(sorted.spendable@)[n] == vtxo);
    assert(listed_views(sorted.spendable@).len() == first.len() + second.len());
    if n < first.len() {
        lemma_chosen(vtxos, classes, preconfirmed(), n);
        assert(vtxo == first[n]);
        let i = choose|i: int|
            0 <= i < vtxos.len() && #[trigger] vtxos[i] == first[n] && preconfirmed()(
                vtxos[i],
                classes[i],
            );
        assert(may_be(vtxos[i], classes[i], dust, clock));
    } else {
        let m = n - first.len();
        lemma_chosen(vtxos, classes, confirmed(), m);
        assert(vtxo == second[m]);
        let i = choose|i: int|
            0 <= i < vtxos.len() && #[trigger] vtxos[i] == second[m] && confirmed()(
                vtxos[i],
                classes[i],
            );
        assert(may_be(vtxos[i], classes[i], dust, clock));
    }
}

/// What is recoverable is neither spent nor unrolled.
pub proof fn lemma_recoverable_is_sound(
    sorted: SortedVtxos,
    vtxos: Seq<ListedView>,
    dust: u64,
    clock: ClockReadings,
    n: int,
)
    requires
        sorts(sorted, vtxos, dust, clock),
        0 <= n < sorted.recoverable@.len(),
    ensures
        ({
            let vtxo = sorted.recoverable@[n]@;
            vtxos.contains(vtxo) && !vtxo.is_spent && !vtxo.is_unrolled
        }),
{
    let classes = choose|classes: Seq<VtxoClass>|
        #![trigger spendable_of(vtxos, classes)]
        {
            &&& may_all_be(vtxos, classes, dust, clock)
            &&& listed_views(sorted.spendable@) == spendable_of(vtxos, classes)
            &&& listed_views(sorted.recoverable@) == recoverable_of(vtxos, classes)
        };
    let vtxo = sorted.recoverable@[n]@;
    assert(listed_views(sorted.recoverable@)[n] == vtxo);
    lemma_chosen(vtxos, classes, to_recover(), n);
    let i = choose|i: int|
        0 <= i < vtxos.len() && #[trigger] vtxos[i] == vtxo && to_recover()(
            vtxos[i],
            classes[i],
        );
    assert(may_be(vtxos[i], classes[i], dust, clock));
}

/// A VTXO that is chosen comes out.
proof fn lemma_chosen_comes_out(
    vtxos: Seq<ListedView>,
    classes: Seq<VtxoClass>,
    keep: spec_fn(ListedView, VtxoClass) -> bool,
    i: int,
)
    requires
        classes.len() == vtxos.len(),
        0 <= i < vtxos.len(),
        keep(vtxos[i], classes[i]),
    ensures
        chosen(vtxos, classes, keep).contains(vtxos[i]),
    decreases vtxos.len(),
{
    let rest = chosen(vtxos.drop_last(), classes.drop_last(), keep);
    let all = chosen(vtxos, classes, keep);
    if i < vtxos.len() - 1 {
        lemma_chosen_comes_out(vtxos.drop_last(), classes.drop_last(), keep, i);
        let n = choose|n: int| 0 <= n < rest.len() && rest[n] == vtxos[i];
        assert(all[n] == vtxos[i]);
    } else {
        assert(all[all.len() - 1] == vtxos[i]);
    }
}

/// What is swept or below the dust limit, but neither spent nor unrolled, is
/// recoverable whatever the clock says.
pub proof fn lemma_swept_is_recoverable(
    sorted: SortedVtxos,
    vtxos: Seq<ListedView>,
    dust: u64,
    clock: ClockReadings,
    i: int,
)
    requires
        sorts(sorted, vtxos, dust, clock),
        0 <= i < vtxos.len(),
        !vtxos[i].is_spent && !vtxos[i].is_unrolled,
        vtxos[i].is_swept || vtxos[i].amount < dust,
    ensures
        listed_views(sorted.recoverable@).contains(vtxos[i]),
{
    let classes = choose|classes: Seq<VtxoClass>|
        #![trigger spendable_of(vtxos, classes)]
        {
            &&& may_all_be(vtxos, classes, dust, clock)
            &&& listed_views(sorted.spendable@) == spendable_of(vtxos, classes)
            &&& listed_views(sorted.recoverable@) == recoverable_of(vtxos, classes)
        };
    assert(may_be(vtxos[i], classes[i], dust, clock));
    lemma_chosen_comes_out(vtxos, classes, to_recover(), i);
}

/// What never expires, is neither spent nor unrolled nor swept, and reaches the dust
/// limit, is spendable whatever the clock says.
pub proof fn lemma_lasting_is_spendable(
    sorted: SortedVtxos,
    vtxos: Seq<ListedView>,
    dust: u64,
    clock: ClockReadings,
    i: int,
)
    requires
        sorts(sorted, vtxos, dust, clock),
        0 <= i < vtxos.len(),
        !vtxos[i].is_spent && !vtxos[i].is_unrolled && !vtxos[i].is_swept,
        vtxos[i].amount >= dust,
        vtxos[i].expires_at == i64::MAX,
    ensures
        listed_views(sorted.spendable@).contains(vtxos[i]),
{
    let classes = choose|classes: Seq<VtxoClass>|
        #![trigger spendable_of(vtxos, classes)]
        {
            &&& may_all_be(vtxos, classes, dust, clock)
            &&& listed_views(sorted.spendable@) == spendable_of(vtxos, classes)
            &&& listed_views(sorted.recoverable@) == recoverable_of(vtxos, classes)
        };
    assert(may_be(vtxos[i], classes[i], dust, clock));
    let first = chosen(vtxos, classes, preconfirmed());
    let second = chosen(vtxos, classes, confirmed());
    if vtxos[i].is_preconfirmed {
        lemma_chosen_comes_out(vtxos, classes, preconfirmed(), i);
        let n = choose|n: int| 0 <= n < first.len() && first[n] == vtxos[i];
        assert((first + second)[n] == vtxos[i]);
    } else {
        lemma_chosen_comes_out(vtxos, classes, confirmed(), i);
        let n = choose|n: int| 0 <= n < second.len() && second[n] == vtxos[i];
        assert((first + second)[first.len() + n] == vtxos[i]);
    }
}

/// A list that VTXOs are sorted by came out of the outside call itself, asked with the very
/// dust limit and VTXOs.
proof fn lemma_list_is_an_answer(list: VtxoList, dust: u64, vtxos: Vec<ListedVtxo>)
    requires
        lists(list, dust, vtxos),
    ensures
        call_ensures(new_list, (dust, &vtxos), list),
{
}

/// What is chosen is what a test on the VTXOs alone picks, if the choice agrees with it.
proof fn lemma_chosen_is_filtered(
    vtxos: Seq<ListedView>,
    classes: Seq<VtxoClass>,
    keep: spec_fn(ListedView, VtxoClass) -> bool,
    picks: spec_fn(ListedView) -> bool,
)
    requires
        classes.len() == vtxos.len(),
        forall|i: int|
            0 <= i < vtxos.len() ==> keep(#[trigger] vtxos[i], classes[i]) == picks(vtxos[i]),
    ensures
        chosen(vtxos, classes, keep) == vtxos.filter(picks),
    decreases vtxos.len(),
{
    reveal(Seq::filter);
    if vtxos.len() > 0 {
        let rest = vtxos.drop_last();
        assert forall|i: int| 0 <= i < rest.len() implies keep(
            #[trigger] rest[i],
            classes.drop_last()[i],
        ) == picks(rest[i]) by {
            assert(rest[i] == vtxos[i]);
        }
        lemma_chosen_is_filtered(rest, classes.drop_last(), keep, picks);
        assert(keep(vtxos[vtxos.len() - 1], classes[vtxos.len() - 1]) == picks(vtxos.last()));
    }
}

/// The clock tells what is spendable from what is recoverable. Of the VTXOs that are
/// neither spent nor unrolled nor swept and reach the dust limit, those that do not
/// expire before the latest reading of the clock are spendable, and those that expire
/// before the earliest are recoverable.
pub proof fn lemma_clock_decides(
    dust: u64,
    vtxos: &Vec<ListedVtxo>,
    sorted: SortedVtxos,
)
    requires
        call_ensures(sort_vtxos, (dust, vtxos), sorted),
    ensures
        exists|list: VtxoList|
            {
                let clock = list_recoverable(list).1;
                &&& #[trigger] lists(list, dust, *vtxos)
                &&& 0 <= clock.earliest <= clock.latest <= i64::MAX
                &&& forall|i: int|
                    0 <= i < vtxos.len() && !(#[trigger] vtxos@[i]).is_spent
                        && !vtxos@[i].is_unrolled && !vtxos@[i].is_swept && vtxos@[i].amount >= dust
                        && vtxos@[i].expires_at >= clock.latest ==> listed_views(
                        sorted.spendable@,
                    ).contains(vtxos@[i]@)
                &&& forall|i: int|
                    0 <= i < vtxos.len() && !(#[trigger] vtxos@[i]).is_spent
                        && !vtxos@[i].is_unrolled && !vtxos@[i].is_swept && vtxos@[i].amount >= dust
                        && vtxos@[i].expires_at < clock.earliest ==> listed_views(
                        sorted.recoverable@,
                    ).contains(vtxos@[i]@)
            },
{
    let views = listed_views(vtxos@);
    let list = choose|list: VtxoList|
        {
            &&& lists(list, dust, *vtxos)
            &&& listed_views(sorted.spendable@) == #[trigger] list_spendable(list)
            &&& listed_views(sorted.recoverable@) == list_recoverable(list).0
            &&& sorts(sorted, views, dust, list_recoverable(list).1)
        };
    let clock = list_recoverable(list).1;
    let classes = choose|classes: Seq<VtxoClass>|
        #![trigger spendable_of(views, classes)]
        {
            &&& may_all_be(views, classes, dust, clock)
            &&& listed_views(sorted.spendable@) == spendable_of(views, classes)
            &&& listed_views(sorted.recoverable@) == recoverable_of(views, classes)
        };
    assert forall|i: int|
        0 <= i < vtxos.len() && !(#[trigger] vtxos@[i]).is_spent && !vtxos@[i].is_unrolled
            && !vtxos@[i].is_swept && vtxos@[i].amount >= dust && vtxos@[i].expires_at
            >= clock.latest implies listed_views(sorted.spendable@).contains(vtxos@[i]@) by {
        assert(views[i] == vtxos@[i]@);
        assert(may_be(views[i], classes[i], dust, clock));
        let first = chosen(views, classes, preconfirmed());
        let second = chosen(views, classes, confirmed());
        if views[i].is_preconfirmed {
            lemma_chosen_comes_out(views, classes, preconfirmed(), i);
            let n = choose|n: int| 0 <= n < first.len() && first[n] == views[i];
            assert((first + second)[n] == views[i]);
        } else {
            lemma_chosen_comes_out(views, classes, confirmed(), i);
            let n = choose|n: int| 0 <= n < second.len() && second[n] == views[i];
            assert((first + second)[first.len() + n] == views[i]);
        }
    }
    assert forall|i: int|
        0 <= i < vtxos.len() && !(#[trigger] vtxos@[i]).is_spent && !vtxos@[i].is_unrolled
            && !vtxos@[i].is_swept && vtxos@[i].amount >= dust && vtxos@[i].expires_at
            < clock.earliest implies listed_views(sorted.recoverable@).contains(vtxos@[i]@) by {
        assert(views[i] == vtxos@[i]@);
        assert(may_be(views[i], classes[i], dust, clock));
        lemma_chosen_comes_out(views, classes, to_recover(), i);
    }
}

/// Where no VTXO expires between two readings of the clock, the clock leaves nothing open.
/// Spendable is exactly what is neither spent nor unrolled nor swept, reaches the dust
/// limit and has not expired: first what spends another VTXO, then the leaves of batches,
/// each in the order in which they are listed. Recoverable, in that order too, is exactly
/// the rest of what is neither spent nor unrolled.
pub proof fn lemma_sorting_is_decided(dust: u64, vtxos: &Vec<ListedVtxo>, sorted: SortedVtxos)
    requires
        call_ensures(sort_vtxos, (dust, vtxos), sorted),
    ensures
        exists|list: VtxoList|
            {
                let clock = list_recoverable(list).1;
                let views = vtxos@.map_values(|vtxo: ListedVtxo| vtxo@);
                let lasts = |vtxo: ListedView|
                    !vtxo.is_spent && !vtxo.is_unrolled && !vtxo.is_swept && vtxo.amount >= dust
                        && vtxo.expires_at >= clock.latest;
                &&& #[trigger] lists(list, dust, *vtxos)
                &&& (forall|i: int|
                    0 <= i < vtxos.len() ==> (#[trigger] vtxos@[i]).expires_at < clock.earliest
                        || vtxos@[i].expires_at >= clock.latest) ==> {
                    &&& sorted.spendable@.map_values(|vtxo: ListedVtxo| vtxo@) == views.filter(
                        |vtxo: ListedView| lasts(vtxo) && vtxo.is_preconfirmed,
                    ) + views.filter(|vtxo: ListedView| lasts(vtxo) && !vtxo.is_preconfirmed)
                    &&& sorted.recoverable@.map_values(|vtxo: ListedVtxo| vtxo@) == views.filter(
                        |vtxo: ListedView| !vtxo.is_spent && !vtxo.is_unrolled && !lasts(vtxo),
                    )
                }
            },
{
    let views = listed_views(vtxos@);
    let list = choose|list: VtxoList|
        {
            &&& lists(list, dust, *vtxos)
            &&& listed_views(sorted.spendable@) == #[trigger] list_spendable(list)
            &&& listed_views(sorted.recoverable@) == list_recoverable(list).0
            &&& sorts(sorted, views, dust, list_recoverable(list).1)
        };
    let clock = list_recoverable(list).1;
    let classes = choose|classes: Seq<VtxoClass>|
        #![trigger spendable_of(views, classes)]
        {
            &&& may_all_be(views, classes, dust, clock)
            &&& listed_views(sorted.spendable@) == spendable_of(views, classes)
            &&& listed_views(sorted.recoverable@) == recoverable_of(views, classes)
        };
    let lasts = |vtxo: ListedView|
        !vtxo.is_spent && !vtxo.is_unrolled && !vtxo.is_swept && vtxo.amount >= dust
            && vtxo.expires_at >= clock.latest;
    let first = |vtxo: ListedView| lasts(vtxo) && vtxo.is_preconfirmed;
    let second = |vtxo: ListedView| lasts(vtxo) && !vtxo.is_preconfirmed;
    let rest = |vtxo: ListedView| !vtxo.is_spent && !vtxo.is_unrolled && !lasts(vtxo);
    if forall|i: int|
        0 <= i < vtxos.len() ==> (#[trigger] vtxos@[i]).expires_at < clock.earliest
            || vtxos@[i].expires_at >= clock.latest {
        assert forall|i: int| 0 <= i < views.len() implies {
            &&& preconfirmed()(#[trigger] views[i], classes[i]) == first(views[i])
            &&& confirmed()(views[i], classes[i]) == second(views[i])
            &&& to_recover()(views[i], classes[i]) == rest(views[i])
        } by {
            assert(views[i] == vtxos@[i]@);
            assert(may_be(views[i], classes[i], dust, clock));
        }
        lemma_chosen_is_filtered(views, classes, preconfirmed(), first);
        lemma_chosen_is_filtered(views, classes, confirmed(), second);
        lemma_chosen_is_filtered(views, classes, to_recover(), rest);
    }
}

// -- What a client makes of them --

/// A listed VTXO as one that is spent.
pub open spec fn as_escrow_vtxo(vtxo: ListedVtxo) -> EscrowVtxo {
    EscrowVtxo { outpoint: vtxo.outpoint, amount: vtxo.amount }
}

/// A listed VTXO as one that is refreshed.
pub open spec fn as_refresh_vtxo(vtxo: ListedVtxo) -> RefreshVtxo {
    RefreshVtxo { outpoint: vtxo.outpoint, amount: vtxo.amount, is_swept: vtxo.is_swept }
}

impl SortedVtxos {
    /// The first spendable VTXO, if there is one.
    pub fn first_spendable(&self) -> (vtxo: Option<EscrowVtxo>)
        ensures
            vtxo == (if self.spendable@.len() > 0 {
                Some(as_escrow_vtxo(self.spendable@[0]))
            } else {
                None
            }),
    {
        if self.spendable.len() > 0 {
            Some(
                EscrowVtxo {
                    outpoint: self.spendable[0].outpoint,
                    amount: self.spendable[0].amount,
                },
            )
        } else {
            None
        }
    }

    /// All spendable VTXOs.
    pub fn all_spendable(&self) -> (vtxos: Vec<EscrowVtxo>)
        ensures
            vtxos@ == self.spendable@.map_values(|vtxo: ListedVtxo| as_escrow_vtxo(vtxo)),
    {
        let mut vtxos: Vec<EscrowVtxo> = Vec::new();
        let mut i: usize = 0;
        while i < self.spendable.len()
            invariant
                i <= self.spendable.len(),
                vtxos.len() == i,
                forall|k: int|
                    0 <= k < i ==> #[trigger] vtxos@[k] == as_escrow_vtxo(self.spendable@[k]),
            decreases self.spendable.len() - i,
        {
            vtxos.push(
                EscrowVtxo {
                    outpoint: self.spendable[i].outpoint,
                    amount: self.spendable[i].amount,
                },
            );
            i = i + 1;
        }
        assert(vtxos@ =~= self.spendable@.map_values(|vtxo: ListedVtxo| as_escrow_vtxo(vtxo)));
        vtxos
    }

    /// The first spendable VTXO with an outpoint, if there is one.
    pub fn spendable_at(&self, outpoint: &OutPoint) -> (vtxo: Option<&ListedVtxo>)
        ensures
            match vtxo {
                Some(v) => exists|i: int|
                    {
                        &&& 0 <= i < self.spendable@.len()
                        &&& *v == #[trigger] self.spendable@[i]
                        &&& v.outpoint@ == outpoint@
                        &&& forall|k: int|
                            0 <= k < i ==> (#[trigger] self.spendable@[k]).outpoint@ != outpoint@
                    },
                None => forall|i: int|
                    0 <= i < self.spendable@.len() ==> (#[trigger] self.spendable@[i]).outpoint@
                        != outpoint@,
            },
    {
        let mut i: usize = 0;
        while i < self.spendable.len()
            invariant
                i <= self.spendable.len(),
                forall|k: int|
                    0 <= k < i ==> (#[trigger] self.spendable@[k]).outpoint@ != outpoint@,
            decreases self.spendable.len() - i,
        {
            if self.spendable[i].outpoint.same(outpoint) {
                return Some(&self.spendable[i]);
            }
            i = i + 1;
        }
        None
    }

    /// All unspent VTXOs, the spendable ones first, and whether any is recoverable.
    pub fn refresh_vtxos(&self) -> (found: (Vec<RefreshVtxo>, bool))
        ensures
            found.0@ == (self.spendable@ + self.recoverable@).map_values(
                |vtxo: ListedVtxo| as_refresh_vtxo(vtxo),
            ),
            found.1 == (self.recoverable@.len() > 0),
    {
        let ghost all = self.spendable@ + self.recoverable@;
        let mut vtxos: Vec<RefreshVtxo> = Vec::new();
        let mut i: usize = 0;
        while i < self.spendable.len()
            invariant
                i <= self.spendable.len(),
                vtxos.len() == i,
                all == self.spendable@ + self.recoverable@,
                forall|k: int| 0 <= k < i ==> #[trigger] vtxos@[k] == as_refresh_vtxo(all[k]),
            decreases self.spendable.len() - i,
        {
            vtxos.push(refresh_vtxo(&self.spendable[i]));
            i = i + 1;
        }
        let mut j: usize = 0;
        while j < self.recoverable.len()
            invariant
                j <= self.recoverable.len(),
                vtxos.len() == self.spendable.len() + j,
                all == self.spendable@ + self.recoverable@,
                forall|k: int|
                    0 <= k < self.spendable.len() + j ==> #[trigger] vtxos@[k] == as_refresh_vtxo(
                        all[k],
                    ),
            decreases self.recoverable.len() - j,
        {
            vtxos.push(refresh_vtxo(&self.recoverable[j]));
            j = j + 1;
        }
        assert(vtxos@ =~= all.map_values(|vtxo: ListedVtxo| as_refresh_vtxo(vtxo)));
        (vtxos, self.recoverable.len() > 0)
    }
}

/// A listed VTXO as one that is refreshed.
fn refresh_vtxo(vtxo: &ListedVtxo) -> (refresh: RefreshVtxo)
    ensures
        refresh == as_refresh_vtxo(*vtxo),
{
    RefreshVtxo { outpoint: vtxo.outpoint, amount: vtxo.amount, is_swept: vtxo.is_swept }
}

// -- Contracts under other server keys --

/// The options of a contract under each of some server keys that make a contract
/// of their own.
pub open spec fn under_keys(options: EscrowOptions, keys: Seq<PublicKey>) -> Seq<EscrowOptions>
    decreases keys.len(),
{
    if keys.len() == 0 {
        Seq::empty()
    } else {
        let rest = under_keys(options, keys.drop_last());
        let last = EscrowOptions { server: keys.last().without_parity(), ..options };
        if last.server@ != options.server@ && last.keys_are_distinct() {
            rest.push(last)
        } else {
            rest
        }
    }
}

/// What some contracts were made of.
pub open spec fn contract_terms(contracts: Seq<EscrowContract>) -> Seq<EscrowOptions> {
    contracts.map_values(|contract: EscrowContract| contract.terms())
}

/// What the contracts are made of that may hold the VTXOs of an escrow: the contract
/// itself, and the same contract under the server's active key and under each key that
/// the server signed with before.
pub open spec fn candidates(options: EscrowOptions, server_info: ServerInfo) -> Seq<
    EscrowOptions,
> {
    seq![options] + under_keys(
        options,
        seq![server_info.signer_pk] + server_info.deprecated_signers@,
    )
}

/// The contracts that may hold the VTXOs of an escrow.
pub fn candidate_contracts(contract: &EscrowContract, server_info: &ServerInfo) -> (contracts: Vec<
    EscrowContract,
>)
    ensures
        contract_terms(contracts@) == candidates(contract.terms(), *server_info),
        forall|i: int|
            0 <= i < contracts.len() ==> (#[trigger] contracts@[i]).on_network()
                == contract.on_network(),
{
    let ghost options = contract.terms();
    let mut keys: Vec<PublicKey> = Vec::new();
    keys.push(server_info.signer_pk);
    let mut n: usize = 0;
    while n < server_info.deprecated_signers.len()
        invariant
            n <= server_info.deprecated_signers.len(),
            keys@ == seq![server_info.signer_pk] + server_info.deprecated_signers@.take(n as int),
        decreases server_info.deprecated_signers.len() - n,
    {
        keys.push(server_info.deprecated_signers[n]);
        n = n + 1;
        assert(keys@ =~= seq![server_info.signer_pk] + server_info.deprecated_signers@.take(
            n as int,
        ));
    }
    assert(server_info.deprecated_signers@.take(n as int) =~= server_info.deprecated_signers@);
    let mut contracts: Vec<EscrowContract> = Vec::new();
    contracts.push(contract.clone());
    let mut i: usize = 0;
    assert(contract_terms(contracts@) =~= seq![options] + under_keys(options, keys@.take(0)));
    while i < keys.len()
        invariant
            i <= keys.len(),
            options == contract.terms(),
            contract_terms(contracts@) == seq![options] + under_keys(options, keys@.take(i as int)),
            forall|k: int|
                0 <= k < contracts.len() ==> (#[trigger] contracts@[k]).on_network()
                    == contract.on_network(),
        decreases keys.len() - i,
    {
        let key = keys[i].x_only();
        let ghost before = contracts@;
        proof {
            assert(keys@.take(i + 1).drop_last() =~= keys@.take(i as int));
            assert(keys@.take(i + 1).last() == keys@[i as int]);
        }
        if !key.same(&contract.options().server) {
            match contract.with_server(key) {
                Ok(other) => {
                    contracts.push(other);
                    assert(contract_terms(contracts@) =~= contract_terms(before).push(
                        other.terms(),
                    ));
                },
                Err(_) => {},
            }
        }
        assert(contract_terms(contracts@) =~= seq![options] + under_keys(
            options,
            keys@.take(i + 1),
        ));
        i = i + 1;
    }
    assert(keys@.take(i as int) =~= keys@);
    contracts
}

/// Where the first of some contracts stands that pays to a script; their number if
/// there is none.
pub open spec fn holder(contracts: Seq<EscrowOptions>, script: Seq<u8>) -> int
    decreases contracts.len(),
{
    if contracts.len() == 0 {
        0
    } else {
        let earlier = holder(contracts.drop_last(), script);
        if earlier < contracts.len() - 1 || contracts.last().output_script() == script {
            earlier
        } else {
            contracts.len() as int
        }
    }
}

proof fn lemma_holder(contracts: Seq<EscrowOptions>, script: Seq<u8>)
    ensures
        0 <= holder(contracts, script) <= contracts.len(),
        holder(contracts, script) < contracts.len() ==> contracts[holder(
            contracts,
            script,
        )].output_script() == script,
        forall|i: int|
            0 <= i < holder(contracts, script) ==> (#[trigger] contracts[i]).output_script()
                != script,
    decreases contracts.len(),
{
    if contracts.len() > 0 {
        let rest = contracts.drop_last();
        lemma_holder(rest, script);
        assert forall|i: int| 0 <= i < holder(contracts, script) implies (
        #[trigger] contracts[i]).output_script() != script by {
            if i < rest.len() {
                assert(rest[i] == contracts[i]);
            }
        }
    }
}

/// The first of some contracts that pays to a script, if there is one.
pub fn find_holder<'a>(contracts: &'a Vec<EscrowContract>, script: &[u8]) -> (found: Option<
    &'a EscrowContract,
>)
    ensures
        ({
            let at = holder(contract_terms(contracts@), script@);
            match found {
                Some(contract) => at < contracts.len() && *contract == contracts@[at],
                None => at == contracts.len(),
            }
        }),
{
    let ghost terms = contract_terms(contracts@);
    proof {
        lemma_holder(terms, script@);
    }
    let mut i: usize = 0;
    while i < contracts.len()
        invariant
            i <= contracts.len(),
            terms == contract_terms(contracts@),
            forall|k: int| 0 <= k < i ==> (#[trigger] terms[k]).output_script() != script@,
            0 <= holder(terms, script@) <= terms.len(),
            holder(terms, script@) < terms.len() ==> terms[holder(
                terms,
                script@,
            )].output_script() == script@,
            forall|k: int|
                0 <= k < holder(terms, script@) ==> (#[trigger] terms[k]).output_script()
                    != script@,
        decreases contracts.len() - i,
    {
        assert(terms[i as int] == contracts@[i as int].terms());
        if bytes_equal(contracts[i].script_pubkey().as_slice(), script) {
            return Some(&contracts[i]);
        }
        i = i + 1;
    }
    None
}

/// Why a VTXO could not be found.
#[derive(Clone, Copy, Debug, PartialEq, Eq)]
pub enum LookupError {
    /// The server does not list the VTXO.
    UnknownVtxo(OutPoint),
    /// None of the contracts holds the VTXO.
    NoContract(OutPoint),
}

impl LookupError {
    /// What the error says.
    pub open spec fn says(self) -> Seq<char> {
        match self {
            LookupError::UnknownVtxo(outpoint) => {
                "VTXO not found: "@ + outpoint_text(outpoint.txid@, outpoint.vout)
            },
            LookupError::NoContract(outpoint) => {
                "VTXO is held by none of the contracts: "@ + outpoint_text(
                    outpoint.txid@,
                    outpoint.vout,
                )
            },
        }
    }

    /// The error as a text.
    pub fn message(&self) -> (message: String)
        ensures
            message@ == self.says(),
    {
        match self {
            LookupError::UnknownVtxo(outpoint) => "VTXO not found: ".to_owned().concat(
                outpoint.to_string().as_str(),
            ),
            LookupError::NoContract(outpoint) => {
                "VTXO is held by none of the contracts: ".to_owned().concat(
                    outpoint.to_string().as_str(),
                )
            },
        }
    }
}

/// Where the first listed VTXO with an outpoint stands; the number of listed VTXOs
/// if there is none.
pub open spec fn listed_at(listed: Seq<ListedView>, outpoint: (Seq<u8>, u32)) -> int
    decreases listed.len(),
{
    if listed.len() == 0 {
        0
    } else {
        let earlier = listed_at(listed.drop_last(), outpoint);
        if earlier < listed.len() - 1 || listed.last().outpoint == outpoint {
            earlier
        } else {
            listed.len() as int
        }
    }
}

proof fn lemma_listed_at(listed: Seq<ListedView>, outpoint: (Seq<u8>, u32))
    ensures
        0 <= listed_at(listed, outpoint) <= listed.len(),
        listed_at(listed, outpoint) < listed.len() ==> listed[listed_at(
            listed,
            outpoint,
        )].outpoint == outpoint,
        forall|i: int|
            0 <= i < listed_at(listed, outpoint) ==> (#[trigger] listed[i]).outpoint != outpoint,
    decreases listed.len(),
{
    if listed.len() > 0 {
        let rest = listed.drop_last();
        lemma_listed_at(rest, outpoint);
        assert forall|i: int| 0 <= i < listed_at(listed, outpoint) implies (
        #[trigger] listed[i]).outpoint != outpoint by {
            if i < rest.len() {
                assert(rest[i] == listed[i]);
            }
        }
    }
}

/// The position of the contract that holds the VTXO at an outpoint, as far as it is
/// listed and held.
pub open spec fn resolved(
    outpoint: OutPoint,
    listed: Seq<ListedView>,
    contracts: Seq<EscrowOptions>,
) -> Result<int, LookupError> {
    let at = listed_at(listed, outpoint@);
    if at >= listed.len() {
        Err(LookupError::UnknownVtxo(outpoint))
    } else {
        let of = holder(contracts, listed[at].script);
        if of >= contracts.len() {
            Err(LookupError::NoContract(outpoint))
        } else {
            Ok(of)
        }
    }
}

/// The contract that holds the VTXO at an outpoint.
pub fn resolve<'a>(
    outpoint: &OutPoint,
    listed: &Vec<ListedVtxo>,
    contracts: &'a Vec<EscrowContract>,
) -> (found: Result<&'a EscrowContract, LookupError>)
    ensures
        match resolved(*outpoint, listed_views(listed@), contract_terms(contracts@)) {
            Ok(of) => found matches Ok(contract) && 0 <= of < contracts.len() && *contract
                == contracts@[of],
            Err(error) => found == Err::<&EscrowContract, LookupError>(error),
        },
{
    let ghost views = listed_views(listed@);
    proof {
        lemma_listed_at(views, outpoint@);
    }
    let mut i: usize = 0;
    while i < listed.len()
        invariant
            i <= listed.len(),
            views == listed_views(listed@),
            forall|k: int| 0 <= k < i ==> (#[trigger] views[k]).outpoint != outpoint@,
            0 <= listed_at(views, outpoint@) <= views.len(),
            listed_at(views, outpoint@) < views.len() ==> views[listed_at(
                views,
                outpoint@,
            )].outpoint == outpoint@,
            forall|k: int|
                0 <= k < listed_at(views, outpoint@) ==> (#[trigger] views[k]).outpoint
                    != outpoint@,
        decreases listed.len() - i,
    {
        assert(views[i as int] == listed@[i as int]@);
        if listed[i].outpoint.same(outpoint) {
            proof {
                assert(listed_at(views, outpoint@) == i);
                lemma_holder(contract_terms(contracts@), listed@[i as int].script@);
            }
            return match find_holder(contracts, listed[i].script.as_slice()) {
                Some(contract) => Ok(contract),
                None => Err(LookupError::NoContract(*outpoint)),
            };
        }
        i = i + 1;
    }
    Err(LookupError::UnknownVtxo(*outpoint))
}

/// Why a refresh could not be prepared.
#[derive(Debug)]
pub enum ResolveError {
    Lookup(LookupError),
    Refresh(RefreshError),
}

/// Whether `inputs` are some VTXOs, each with the contract that holds it.
pub open spec fn resolves<'a>(
    inputs: Seq<RefreshInput<'a>>,
    vtxos: Seq<RefreshVtxo>,
    listed: Seq<ListedView>,
    contracts: Seq<EscrowOptions>,
) -> bool {
    &&& inputs.len() == vtxos.len()
    &&& forall|i: int|
        0 <= i < vtxos.len() ==> {
            &&& *(#[trigger] inputs[i]).vtxo == vtxos[i]
            &&& resolved(vtxos[i].outpoint, listed, contracts) matches Ok(of)
            &&& inputs[i].contract.terms() == contracts[of]
        }
}

/// Finds the contract that holds each of some VTXOs. The first that is not found is
/// what the error is about.
pub fn resolve_inputs<'a>(
    vtxos: &'a [RefreshVtxo],
    listed: &Vec<ListedVtxo>,
    contracts: &'a Vec<EscrowContract>,
) -> (inputs: Result<Vec<RefreshInput<'a>>, LookupError>)
    ensures
        ({
            let views = listed_views(listed@);
            let terms = contract_terms(contracts@);
            match inputs {
                Ok(i) => resolves(i@, vtxos@, views, terms),
                Err(error) => exists|n: int|
                    {
                        &&& 0 <= n < vtxos.len()
                        &&& resolved((#[trigger] vtxos@[n]).outpoint, views, terms) == Err::<
                            int,
                            LookupError,
                        >(error)
                        &&& forall|k: int|
                            0 <= k < n ==> resolved((#[trigger] vtxos@[k]).outpoint, views, terms)
                                is Ok
                    },
            }
        }),
{
    let ghost views = listed_views(listed@);
    let ghost terms = contract_terms(contracts@);
    let mut inputs: Vec<RefreshInput<'a>> = Vec::new();
    let mut i: usize = 0;
    while i < vtxos.len()
        invariant
            i <= vtxos.len(),
            inputs.len() == i,
            views == listed_views(listed@),
            terms == contract_terms(contracts@),
            forall|k: int|
                0 <= k < i ==> resolved((#[trigger] vtxos@[k]).outpoint, views, terms) is Ok,
            forall|k: int|
                0 <= k < i ==> {
                    &&& *(#[trigger] inputs@[k]).vtxo == vtxos@[k]
                    &&& resolved(vtxos@[k].outpoint, views, terms) matches Ok(of)
                    &&& inputs@[k].contract.terms() == terms[of]
                },
        decreases vtxos.len() - i,
    {
        match resolve(&vtxos[i].outpoint, listed, contracts) {
            Ok(contract) => inputs.push(RefreshInput { contract, vtxo: &vtxos[i] }),
            Err(error) => {
                assert(resolved(vtxos@[i as int].outpoint, views, terms) == Err::<
                    int,
                    LookupError,
                >(error));
                return Err(error);
            },
        }
        i = i + 1;
    }
    Ok(inputs)
}

/// Prepares a refresh of VTXOs that may be held under any key that the server has
/// signed with, into `contract` under the server's active key. `listed` is what the
/// server lists for the candidate contracts.
///
/// Whether it succeeds with VTXOs that are found rests with the clock.
pub fn prepare_resolved_refresh(
    contract: &EscrowContract,
    vtxos: &[RefreshVtxo],
    listed: &Vec<ListedVtxo>,
    signer_set: SignerSet,
    refresh_cosigner_pk: &PublicKey,
    server_info: &ServerInfo,
) -> (refresh: Result<RefreshIntent, ResolveError>)
    requires
        vtxo_sum(vtxos@) <= u64::MAX,
        active_options(contract.terms(), *server_info).keys_are_distinct() ==> forfeits_fit(
            vtxos@,
            server_info.dust,
        ),
    ensures
        ({
            let views = listed_views(listed@);
            let terms = candidates(contract.terms(), *server_info);
            match refresh {
                Ok(r) => {
                    &&& active_options(contract.terms(), *server_info).keys_are_distinct()
                    &&& vtxos.len() > 0
                    &&& exists|inputs: Seq<RefreshInput<'_>>| #[trigger]
                        resolves(inputs, vtxos@, views, terms) && refreshes(
                            r,
                            settled_inputs(inputs, signer_set),
                            vtxo_sum(vtxos@),
                            contract.terms(),
                            refresh_cosigner_pk@,
                            *server_info,
                        )
                    &&& vtxos.len() <= 10_000 ==> all_read_back(r.intent.proof, r.forfeit_psbts@)
                },
                Err(ResolveError::Lookup(error)) => exists|n: int|
                    {
                        &&& 0 <= n < vtxos.len()
                        &&& resolved((#[trigger] vtxos@[n]).outpoint, views, terms) == Err::<
                            int,
                            LookupError,
                        >(error)
                        &&& forall|k: int|
                            0 <= k < n ==> resolved((#[trigger] vtxos@[k]).outpoint, views, terms)
                                is Ok
                    },
                Err(ResolveError::Refresh(error)) => {
                    &&& forall|n: int|
                        0 <= n < vtxos.len() ==> resolved(
                            (#[trigger] vtxos@[n]).outpoint,
                            views,
                            terms,
                        ) is Ok
                    &&& match error {
                        RefreshError::Contract(e) => e is DuplicateKeys && !active_options(
                            contract.terms(),
                            *server_info,
                        ).keys_are_distinct(),
                        RefreshError::Prepare(e) => {
                            &&& active_options(contract.terms(), *server_info).keys_are_distinct()
                            &&& exists|inputs: Seq<RefreshInput<'_>>| #[trigger]
                                resolves(inputs, vtxos@, views, terms) && refresh_is_refused(
                                    settled_inputs(inputs, signer_set),
                                    vtxo_sum(vtxos@),
                                    contract.terms(),
                                    refresh_cosigner_pk@,
                                    *server_info,
                                    e,
                                )
                        },
                        RefreshError::Sign(_) => false,
                    }
                },
            }
        }),
{
    let contracts = candidate_contracts(contract, server_info);
    let inputs = match resolve_inputs(vtxos, listed, &contracts) {
        Ok(inputs) => inputs,
        Err(error) => return Err(ResolveError::Lookup(error)),
    };
    proof {
        assert(input_vtxos(inputs@) =~= vtxos@);
        assert forall|n: int| 0 <= n < vtxos.len() implies resolved(
            (#[trigger] vtxos@[n]).outpoint,
            listed_views(listed@),
            contract_terms(contracts@),
        ) is Ok by {
            assert(*inputs@[n].vtxo == vtxos@[n]);
        }
    }
    match prepare_refresh_resolved(
        contract,
        &inputs,
        signer_set,
        refresh_cosigner_pk,
        server_info,
    ) {
        Ok(refresh) => Ok(refresh),
        Err(error) => Err(ResolveError::Refresh(error)),
    }
}

// -- Spending a VTXO by its outpoint --

/// The VTXO at an outpoint, with the amount that is listed for it.
pub open spec fn vtxo_at(outpoint: OutPoint, listed: Seq<ListedView>) -> EscrowVtxo {
    EscrowVtxo { outpoint, amount: listed[listed_at(listed, outpoint@)].amount }
}

/// The spendable VTXO at an outpoint, with the contract that holds it.
fn find_spendable<'a>(
    outpoint: &OutPoint,
    sorted: &SortedVtxos,
    contracts: &'a Vec<EscrowContract>,
) -> (found: Result<(EscrowVtxo, &'a EscrowContract), LookupError>)
    ensures
        ({
            let views = listed_views(sorted.spendable@);
            match resolved(*outpoint, views, contract_terms(contracts@)) {
                Ok(of) => {
                    &&& found matches Ok((vtxo, contract))
                    &&& vtxo == vtxo_at(*outpoint, views)
                    &&& 0 <= of < contracts.len()
                    &&& *contract == contracts@[of]
                },
                Err(error) => found == Err::<(EscrowVtxo, &EscrowContract), LookupError>(error),
            }
        }),
{
    let contract = match resolve(outpoint, &sorted.spendable, contracts) {
        Ok(contract) => contract,
        Err(error) => return Err(error),
    };
    let ghost views = listed_views(sorted.spendable@);
    proof {
        lemma_listed_at(views, outpoint@);
    }
    let ghost at = listed_at(views, outpoint@);
    assert(sorted.spendable@[at]@ == views[at]);
    match sorted.spendable_at(outpoint) {
        Some(vtxo) => {
            proof {
                let i = choose|i: int|
                    {
                        &&& 0 <= i < sorted.spendable@.len()
                        &&& *vtxo == #[trigger] sorted.spendable@[i]
                        &&& forall|k: int|
                            0 <= k < i ==> (#[trigger] sorted.spendable@[k]).outpoint@ != outpoint@
                    };
                assert(views[i].outpoint == outpoint@);
                assert(i == at);
            }
            Ok((EscrowVtxo { outpoint: *outpoint, amount: vtxo.amount }, contract))
        },
        None => Err(LookupError::UnknownVtxo(*outpoint)),
    }
}

/// Builds the offchain release of the spendable VTXO at an outpoint, whichever of the
/// candidate contracts holds it.
pub fn build_release_for_outpoint(
    contract: &EscrowContract,
    sorted: &SortedVtxos,
    outpoint: &OutPoint,
    buyer_dest: &ArkAddress,
    fee_outputs: &[FeeOutput],
    signer_set: SignerSet,
    server_info: &ServerInfo,
) -> (found: Result<Result<EscrowTransaction, SpendError>, LookupError>)
    requires
        fee_sum(fee_views(fee_outputs@)) <= u64::MAX,
    ensures
        ({
            let views = listed_views(sorted.spendable@);
            let terms = candidates(contract.terms(), *server_info);
            match resolved(*outpoint, views, terms) {
                Ok(of) => found matches Ok(release) && release_outcome(
                    release,
                    terms[of],
                    vtxo_at(*outpoint, views),
                    buyer_dest@,
                    fee_views(fee_outputs@),
                    signer_set,
                    *server_info,
                ),
                Err(error) => found matches Err(e) && e == error,
            }
        }),
{
    let contracts = candidate_contracts(contract, server_info);
    match find_spendable(outpoint, sorted, &contracts) {
        Ok((vtxo, holder)) => Ok(
            build_release_tx(holder, &vtxo, buyer_dest, fee_outputs, signer_set, server_info),
        ),
        Err(error) => Err(error),
    }
}

/// Builds the offchain refund of the spendable VTXO at an outpoint, whichever of the
/// candidate contracts holds it.
pub fn build_refund_for_outpoint(
    contract: &EscrowContract,
    sorted: &SortedVtxos,
    outpoint: &OutPoint,
    seller_dest: &ArkAddress,
    signer_set: SignerSet,
    server_info: &ServerInfo,
) -> (found: Result<Result<EscrowTransaction, SpendError>, LookupError>)
    ensures
        ({
            let views = listed_views(sorted.spendable@);
            let terms = candidates(contract.terms(), *server_info);
            match resolved(*outpoint, views, terms) {
                Ok(of) => found matches Ok(refund) && refund_outcome(
                    refund,
                    terms[of],
                    vtxo_at(*outpoint, views),
                    seller_dest@,
                    signer_set,
                    *server_info,
                ),
                Err(error) => found matches Err(e) && e == error,
            }
        }),
{
    let contracts = candidate_contracts(contract, server_info);
    match find_spendable(outpoint, sorted, &contracts) {
        Ok((vtxo, holder)) => Ok(
            build_refund_tx(holder, &vtxo, seller_dest, signer_set, server_info),
        ),
        Err(error) => Err(error),
    }
}

// -- What holds of every lookup --

/// The contracts that may hold the VTXOs of an escrow are the contract itself, and then the
/// same contract under the server's active key and under each key that the server signed
/// with before, in that order: once for each of these keys that is neither the contract's
/// own nor that of one of its parties. All live on the network of the contract.
pub proof fn lemma_candidates_are_all_contracts(
    contract: &EscrowContract,
    server_info: &ServerInfo,
    contracts: Vec<EscrowContract>,
)
    requires
        contract.terms().keys_are_distinct(),
        call_ensures(candidate_contracts, (contract, server_info), contracts),
    ensures
        ({
            let options = contract.terms();
            let keys = seq![server_info.signer_pk] + server_info.deprecated_signers@;
            let others = keys.map_values(|key: PublicKey| key.without_parity()).filter(
                |key: XOnlyPublicKey|
                    key@ != options.server@ && key@ != options.seller@ && key@ != options.buyer@
                        && key@ != options.arbiter@,
            );
            &&& contracts@.len() == others.len() + 1
            &&& contracts@[0].terms() == options
            &&& forall|i: int|
                0 <= i < others.len() ==> contracts@[i + 1].terms() == (EscrowOptions {
                    server: #[trigger] others[i],
                    ..options
                })
            &&& forall|i: int|
                0 <= i < contracts@.len() ==> (#[trigger] contracts@[i]).on_network()
                    == contract.on_network()
        }),
{
    let options = contract.terms();
    let keys = seq![server_info.signer_pk] + server_info.deprecated_signers@;
    lemma_under_keys(options, keys);
    let others = keys.map_values(|key: PublicKey| key.without_parity()).filter(
        |key: XOnlyPublicKey|
            key@ != options.server@ && key@ != options.seller@ && key@ != options.buyer@ && key@
                != options.arbiter@,
    );
    let terms = contract_terms(contracts@);
    assert(terms == seq![options] + under_keys(options, keys));
    assert(terms.len() == others.len() + 1);
    assert(contracts@[0].terms() == terms[0]);
    assert forall|i: int| 0 <= i < others.len() implies contracts@[i + 1].terms() == (EscrowOptions {
        server: #[trigger] others[i],
        ..options
    }) by {
        assert(terms[i + 1] == contracts@[i + 1].terms());
        assert(terms[i + 1] == under_keys(options, keys)[i]);
    }
}

proof fn lemma_under_keys(options: EscrowOptions, keys: Seq<PublicKey>)
    requires
        options.keys_are_distinct(),
    ensures
        under_keys(options, keys) == keys.map_values(
            |key: PublicKey| key.without_parity(),
        ).filter(
            |key: XOnlyPublicKey|
                key@ != options.server@ && key@ != options.seller@ && key@ != options.buyer@ && key@
                    != options.arbiter@,
        ).map_values(|key: XOnlyPublicKey| EscrowOptions { server: key, ..options }),
    decreases keys.len(),
{
    let x_only = |key: PublicKey| key.without_parity();
    let differs = |key: XOnlyPublicKey|
        key@ != options.server@ && key@ != options.seller@ && key@ != options.buyer@ && key@
            != options.arbiter@;
    let under = |key: XOnlyPublicKey| EscrowOptions { server: key, ..options };
    reveal(Seq::filter);
    if keys.len() > 0 {
        let rest = keys.drop_last();
        lemma_under_keys(options, rest);
        let all = keys.map_values(x_only);
        assert(all.drop_last() =~= rest.map_values(x_only));
        assert(all.last() == x_only(keys.last()));
        let some = rest.map_values(x_only).filter(differs);
        if differs(all.last()) {
            assert(some.push(all.last()).map_values(under) =~= some.map_values(under).push(
                under(all.last()),
            ));
        }
    } else {
        assert(keys.map_values(x_only) =~= Seq::empty());
        assert(keys.map_values(x_only).filter(differs).map_values(under) =~= Seq::empty());
    }
}

/// Whether `at` is where the first listed VTXO with an outpoint stands.
pub open spec fn is_first_listed(
    listed: Seq<ListedVtxo>,
    outpoint: (Seq<u8>, u32),
    at: int,
) -> bool {
    &&& 0 <= at < listed.len()
    &&& (listed[at].outpoint.txid@, listed[at].outpoint.vout) == outpoint
    &&& forall|k: int|
        0 <= k < at ==> ((#[trigger] listed[k]).outpoint.txid@, listed[k].outpoint.vout) != outpoint
}

/// Whether `of` is where the first of some contracts stands that pays to a script.
pub open spec fn is_first_holder(contracts: Seq<EscrowOptions>, script: Seq<u8>, of: int) -> bool {
    &&& 0 <= of < contracts.len()
    &&& contracts[of].output_script() == script
    &&& forall|k: int| 0 <= k < of ==> (#[trigger] contracts[k]).output_script() != script
}

/// Whether what came out of looking for the contract of a VTXO is right: the first contract
/// that pays to the script of the first VTXO that is listed at the outpoint. It fails only
/// if there is no such VTXO or no such contract, and names the outpoint.
pub open spec fn finds_contract(
    found: Result<int, LookupError>,
    outpoint: OutPoint,
    listed: Seq<ListedVtxo>,
    contracts: Seq<EscrowOptions>,
) -> bool {
    match found {
        Ok(of) => exists|at: int|
            {
                &&& #[trigger] is_first_listed(listed, (outpoint.txid@, outpoint.vout), at)
                &&& is_first_holder(contracts, listed[at].script@, of)
            },
        Err(LookupError::UnknownVtxo(unknown)) => {
            &&& unknown == outpoint
            &&& forall|i: int|
                0 <= i < listed.len() ==> (
                    (#[trigger] listed[i]).outpoint.txid@,
                    listed[i].outpoint.vout,
                ) != (outpoint.txid@, outpoint.vout)
        },
        Err(LookupError::NoContract(unheld)) => {
            &&& unheld == outpoint
            &&& exists|at: int|
                {
                    &&& #[trigger] is_first_listed(listed, (outpoint.txid@, outpoint.vout), at)
                    &&& forall|k: int|
                        0 <= k < contracts.len() ==> (#[trigger] contracts[k]).output_script()
                            != listed[at].script@
                }
        },
    }
}

proof fn lemma_resolved(
    outpoint: OutPoint,
    listed: Seq<ListedVtxo>,
    contracts: Seq<EscrowOptions>,
)
    ensures
        finds_contract(
            resolved(outpoint, listed_views(listed), contracts),
            outpoint,
            listed,
            contracts,
        ),
{
    let views = listed_views(listed);
    let at = listed_at(views, outpoint@);
    lemma_listed_at(views, outpoint@);
    assert forall|i: int| 0 <= i < listed.len() implies (#[trigger] views[i]).outpoint == (
        listed[i].outpoint.txid@,
        listed[i].outpoint.vout,
    ) by {}
    if at < views.len() {
        lemma_holder(contracts, views[at].script);
        assert(views[at].script == listed[at].script@);
        assert forall|k: int| 0 <= k < at implies (
            (#[trigger] listed[k]).outpoint.txid@,
            listed[k].outpoint.vout,
        ) != (outpoint.txid@, outpoint.vout) by {
            assert(views[k].outpoint != outpoint@);
        }
        assert(is_first_listed(listed, (outpoint.txid@, outpoint.vout), at));
    } else {
        assert forall|i: int| 0 <= i < listed.len() implies (
            (#[trigger] listed[i]).outpoint.txid@,
            listed[i].outpoint.vout,
        ) != (outpoint.txid@, outpoint.vout) by {
            assert(views[i].outpoint != outpoint@);
        }
    }
}

/// A VTXO is looked up by its outpoint, and its contract by the script that it pays to: the
/// contract that is found is the first that pays to the script of the first VTXO listed at
/// the outpoint.
pub proof fn lemma_contract_is_found_by_script(
    outpoint: &OutPoint,
    listed: &Vec<ListedVtxo>,
    contracts: &Vec<EscrowContract>,
    found: Result<&EscrowContract, LookupError>,
)
    requires
        call_ensures(resolve, (outpoint, listed, contracts), found),
    ensures
        ({
            let terms = contracts@.map_values(|contract: EscrowContract| contract.terms());
            match found {
                Ok(contract) => exists|of: int|
                    {
                        &&& 0 <= of < contracts@.len()
                        &&& *contract == #[trigger] contracts@[of]
                        &&& finds_contract(Ok(of), *outpoint, listed@, terms)
                    },
                Err(error) => finds_contract(Err(error), *outpoint, listed@, terms),
            }
        }),
{
    let terms = contract_terms(contracts@);
    assert(terms == contracts@.map_values(|contract: EscrowContract| contract.terms()));
    lemma_resolved(*outpoint, listed@, terms);
    if let Ok(contract) = found {
        let of = resolved(*outpoint, listed_views(listed@), terms)->Ok_0;
        assert(contracts@[of] == *contract);
    }
}

/// Whether a contract is the one that holds the VTXO at an outpoint.
pub open spec fn is_held_by(
    outpoint: OutPoint,
    listed: Seq<ListedVtxo>,
    contracts: Seq<EscrowOptions>,
    contract: EscrowOptions,
) -> bool {
    exists|of: int| #[trigger]
        finds_contract(Ok(of), outpoint, listed, contracts) && contracts[of] == contract
}

/// Whether a contract holds the VTXO at an outpoint.
pub open spec fn is_held(
    outpoint: OutPoint,
    listed: Seq<ListedVtxo>,
    contracts: Seq<EscrowOptions>,
) -> bool {
    exists|of: int| #[trigger] finds_contract(Ok(of), outpoint, listed, contracts)
}

/// Every VTXO that is refreshed keeps its place and gets its own contract. If one is not
/// found, the error is that of the first such VTXO.
pub proof fn lemma_every_vtxo_gets_its_contract<'a>(
    vtxos: &'a [RefreshVtxo],
    listed: &Vec<ListedVtxo>,
    contracts: &'a Vec<EscrowContract>,
    inputs: Result<Vec<RefreshInput<'a>>, LookupError>,
)
    requires
        call_ensures(resolve_inputs, (vtxos, listed, contracts), inputs),
    ensures
        ({
            let terms = contracts@.map_values(|contract: EscrowContract| contract.terms());
            &&& inputs matches Ok(found) ==> {
                &&& found@.len() == vtxos@.len()
                &&& forall|i: int|
                    0 <= i < vtxos@.len() ==> *(#[trigger] found@[i]).vtxo == vtxos@[i]
                        && is_held_by(
                        vtxos@[i].outpoint,
                        listed@,
                        terms,
                        found@[i].contract.terms(),
                    )
            }
            &&& inputs matches Err(error) ==> exists|n: int|
                {
                    &&& 0 <= n < vtxos@.len()
                    &&& finds_contract(
                        Err(error),
                        (#[trigger] vtxos@[n]).outpoint,
                        listed@,
                        terms,
                    )
                    &&& forall|k: int|
                        0 <= k < n ==> is_held((#[trigger] vtxos@[k]).outpoint, listed@, terms)
                }
        }),
{
    let terms = contract_terms(contracts@);
    let views = listed_views(listed@);
    assert(terms == contracts@.map_values(|contract: EscrowContract| contract.terms()));
    match inputs {
        Ok(found) => {
            assert forall|i: int| 0 <= i < vtxos@.len() implies *(#[trigger] found@[i]).vtxo
                == vtxos@[i] && is_held_by(
                vtxos@[i].outpoint,
                listed@,
                terms,
                found@[i].contract.terms(),
            ) by {
                assert(*found@[i].vtxo == vtxos@[i]);
                lemma_resolved(vtxos@[i].outpoint, listed@, terms);
                let of = resolved(vtxos@[i].outpoint, views, terms)->Ok_0;
                assert(finds_contract(Ok(of), vtxos@[i].outpoint, listed@, terms));
            }
        },
        Err(error) => {
            let n = choose|n: int|
                {
                    &&& 0 <= n < vtxos@.len()
                    &&& resolved((#[trigger] vtxos@[n]).outpoint, views, terms) == Err::<
                        int,
                        LookupError,
                    >(error)
                    &&& forall|k: int|
                        0 <= k < n ==> resolved((#[trigger] vtxos@[k]).outpoint, views, terms) is Ok
                };
            lemma_resolved(vtxos@[n].outpoint, listed@, terms);
            assert forall|k: int| 0 <= k < n implies is_held(
                (#[trigger] vtxos@[k]).outpoint,
                listed@,
                terms,
            ) by {
                lemma_resolved(vtxos@[k].outpoint, listed@, terms);
                let of = resolved(vtxos@[k].outpoint, views, terms)->Ok_0;
                assert(finds_contract(Ok(of), vtxos@[k].outpoint, listed@, terms));
            }
        },
    }
}

/// The release of a spendable VTXO by its outpoint is a release of that very VTXO, from the
/// candidate contract that holds it and for the amount that is listed.
pub proof fn lemma_release_by_outpoint(
    contract: &EscrowContract,
    sorted: &SortedVtxos,
    outpoint: &OutPoint,
    buyer_dest: &ArkAddress,
    fee_outputs: &[FeeOutput],
    signer_set: SignerSet,
    server_info: &ServerInfo,
    found: Result<Result<EscrowTransaction, SpendError>, LookupError>,
)
    requires
        call_ensures(
            build_release_for_outpoint,
            (contract, sorted, outpoint, buyer_dest, fee_outputs, signer_set, server_info),
            found,
        ),
    ensures
        ({
            let listed = sorted.spendable@;
            let terms = candidates(contract.terms(), *server_info);
            match found {
                Ok(release) => exists|at: int, of: int|
                    {
                        &&& #[trigger] is_first_listed(
                            listed,
                            (outpoint.txid@, outpoint.vout),
                            at,
                        )
                        &&& #[trigger] is_first_holder(terms, listed[at].script@, of)
                        &&& pays_buyer_and_every_fee(
                            release,
                            listed[at].amount,
                            buyer_dest@,
                            fee_outputs@.map_values(|fee: FeeOutput| (fee.address@, fee.amount)),
                            *server_info,
                        )
                        &&& release matches Ok(txs) ==> spends_through(
                            txs,
                            terms[of],
                            (outpoint.txid@, outpoint.vout),
                            listed[at].amount,
                            leaf_of_parties(signer_set, terms[of]),
                        )
                    },
                Err(error) => finds_contract(Err(error), *outpoint, listed, terms),
            }
        }),
{
    let listed = sorted.spendable@;
    let views = listed_views(listed);
    let terms = candidates(contract.terms(), *server_info);
    lemma_resolved(*outpoint, listed, terms);
    if let Ok(release) = found {
        let of = resolved(*outpoint, views, terms)->Ok_0;
        let at = choose|at: int|
            {
                &&& #[trigger] is_first_listed(listed, (outpoint.txid@, outpoint.vout), at)
                &&& is_first_holder(terms, listed[at].script@, of)
            };
        lemma_first_listed(listed, *outpoint, at);
        let vtxo = vtxo_at(*outpoint, views);
        assert(vtxo.amount == listed[at].amount);
        let fees = fee_views(fee_outputs@);
        assert(fees =~= fee_outputs@.map_values(|fee: FeeOutput| (fee.address@, fee.amount)));
        lemma_release_is_fair(
            release,
            terms[of],
            vtxo,
            buyer_dest@,
            fees,
            signer_set,
            *server_info,
        );
        if let Ok(txs) = release {
            lemma_payment_spends_the_escrow(
                txs,
                crate::spend::release_receivers(buyer_dest@, vtxo.amount, fees),
                buyer_dest@,
                terms[of],
                vtxo,
                signer_set,
                server_info.terms(),
            );
        }
        assert(is_first_holder(terms, listed[at].script@, of));
    }
}

proof fn lemma_first_listed(listed: Seq<ListedVtxo>, outpoint: OutPoint, at: int)
    requires
        is_first_listed(listed, (outpoint.txid@, outpoint.vout), at),
    ensures
        listed_at(listed_views(listed), outpoint@) == at,
{
    let views = listed_views(listed);
    lemma_listed_at(views, outpoint@);
    assert(views[at].outpoint == outpoint@);
    let found = listed_at(views, outpoint@);
    if found < at {
        assert(views[found].outpoint == (
            listed[found].outpoint.txid@,
            listed[found].outpoint.vout,
        ));
    }
}

/// The refund of a spendable VTXO by its outpoint is a refund of that very VTXO, from the
/// candidate contract that holds it and for the amount that is listed.
pub proof fn lemma_refund_by_outpoint(
    contract: &EscrowContract,
    sorted: &SortedVtxos,
    outpoint: &OutPoint,
    seller_dest: &ArkAddress,
    signer_set: SignerSet,
    server_info: &ServerInfo,
    found: Result<Result<EscrowTransaction, SpendError>, LookupError>,
)
    requires
        call_ensures(
            build_refund_for_outpoint,
            (contract, sorted, outpoint, seller_dest, signer_set, server_info),
            found,
        ),
    ensures
        ({
            let listed = sorted.spendable@;
            let terms = candidates(contract.terms(), *server_info);
            match found {
                Ok(refund) => exists|at: int, of: int|
                    {
                        &&& #[trigger] is_first_listed(
                            listed,
                            (outpoint.txid@, outpoint.vout),
                            at,
                        )
                        &&& #[trigger] is_first_holder(terms, listed[at].script@, of)
                        &&& pays_seller_all(
                            refund,
                            listed[at].amount,
                            seller_dest@,
                            *server_info,
                        )
                        &&& refund matches Ok(txs) ==> spends_through(
                            txs,
                            terms[of],
                            (outpoint.txid@, outpoint.vout),
                            listed[at].amount,
                            leaf_of_parties(signer_set, terms[of]),
                        )
                    },
                Err(error) => finds_contract(Err(error), *outpoint, listed, terms),
            }
        }),
{
    let listed = sorted.spendable@;
    let views = listed_views(listed);
    let terms = candidates(contract.terms(), *server_info);
    lemma_resolved(*outpoint, listed, terms);
    if let Ok(refund) = found {
        let of = resolved(*outpoint, views, terms)->Ok_0;
        let at = choose|at: int|
            {
                &&& #[trigger] is_first_listed(listed, (outpoint.txid@, outpoint.vout), at)
                &&& is_first_holder(terms, listed[at].script@, of)
            };
        lemma_first_listed(listed, *outpoint, at);
        let vtxo = vtxo_at(*outpoint, views);
        assert(vtxo.amount == listed[at].amount);
        lemma_refund_is_fair(refund, terms[of], vtxo, seller_dest@, signer_set, *server_info);
        if let Ok(txs) = refund {
            lemma_payment_spends_the_escrow(
                txs,
                seq![(seller_dest@, vtxo.amount)],
                seller_dest@,
                terms[of],
                vtxo,
                signer_set,
                server_info.terms(),
            );
        }
        assert(is_first_holder(terms, listed[at].script@, of));
    }
}

/// What a client makes of sorted VTXOs is what they hold: the first that is spendable, all that
/// are, and all that are unspent, the spendable ones first.
pub proof fn lemma_client_sees_what_was_sorted(
    sorted: &SortedVtxos,
    first: Option<EscrowVtxo>,
    all: Vec<EscrowVtxo>,
    unspent: (Vec<RefreshVtxo>, bool),
)
    requires
        call_ensures(SortedVtxos::first_spendable, (sorted,), first),
        call_ensures(SortedVtxos::all_spendable, (sorted,), all),
        call_ensures(SortedVtxos::refresh_vtxos, (sorted,), unspent),
    ensures
        ({
            let spendable = sorted.spendable@;
            let recoverable = sorted.recoverable@;
            &&& all@.len() == spendable.len()
            &&& forall|i: int|
                0 <= i < spendable.len() ==> (#[trigger] all@[i]).outpoint == spendable[i].outpoint
                    && all@[i].amount == spendable[i].amount
            &&& first == (if all@.len() > 0 {
                Some(all@[0])
            } else {
                None
            })
            &&& unspent.0@.len() == spendable.len() + recoverable.len()
            &&& forall|i: int|
                0 <= i < unspent.0@.len() ==> {
                    let vtxo = if i < spendable.len() {
                        spendable[i]
                    } else {
                        recoverable[i - spendable.len()]
                    };
                    &&& (#[trigger] unspent.0@[i]).outpoint == vtxo.outpoint
                    &&& unspent.0@[i].amount == vtxo.amount
                    &&& unspent.0@[i].is_swept == vtxo.is_swept
                }
            &&& unspent.1 == (recoverable.len() > 0)
        }),
{
}

/// A refresh of VTXOs under any key of the server spends each of them from the candidate
/// contract that holds it, and pays all that they hold to the contract under the active key.
/// With VTXOs that are found, and with keys that are distinct under the active key, it is
/// prepared unless the outside call refuses it.
pub proof fn lemma_resolved_refresh_pays_back_all(
    contract: &EscrowContract,
    vtxos: &[RefreshVtxo],
    listed: &Vec<ListedVtxo>,
    signer_set: SignerSet,
    cosigner_pk: &PublicKey,
    server_info: &ServerInfo,
    refresh: Result<RefreshIntent, ResolveError>,
)
    requires
        call_ensures(
            prepare_resolved_refresh,
            (contract, vtxos, listed, signer_set, cosigner_pk, server_info),
            refresh,
        ),
    ensures
        ({
            let options = contract.terms();
            let active = EscrowOptions {
                server: server_info.signer_pk.without_parity(),
                ..options
            };
            let terms = candidates(options, *server_info);
            let total = vtxos@.fold_left(0, |sum: int, vtxo: RefreshVtxo| sum + vtxo.amount);
            let outputs = seq![(total as u64, active.output_script())];
            match refresh {
                Ok(r) => exists|inputs: Seq<IntentInputView>|
                    {
                        &&& vtxos@.len() > 0
                        &&& active.keys_are_distinct()
                        &&& #[trigger] spends_vtxos(inputs, vtxos@, listed@, terms, signer_set)
                        &&& settles_vtxos(
                            Delegate {
                                intent: r.intent,
                                forfeit_psbts: r.forfeit_psbts,
                                delegate_cosigner_pk: r.refresh_cosigner_pk,
                            },
                            inputs,
                            outputs,
                            cosigner_pk@,
                            onchain_script(server_info.forfeit_address@)->0,
                            server_info.dust,
                        )
                    },
                Err(ResolveError::Refresh(RefreshError::Prepare(error))) => exists|
                    inputs: Seq<IntentInputView>,
                |
                    {
                        &&& active.keys_are_distinct()
                        &&& #[trigger] spends_vtxos(inputs, vtxos@, listed@, terms, signer_set)
                        &&& refuses(
                            inputs,
                            outputs,
                            cosigner_pk@,
                            server_info.forfeit_address@,
                            server_info.dust,
                            error,
                        )
                    },
                Err(ResolveError::Refresh(error)) => {
                    &&& !active.keys_are_distinct()
                    &&& error matches RefreshError::Contract(e)
                    &&& e is DuplicateKeys
                },
                Err(ResolveError::Lookup(error)) => exists|n: int|
                    0 <= n < vtxos@.len() && finds_contract(
                        Err(error),
                        (#[trigger] vtxos@[n]).outpoint,
                        listed@,
                        terms,
                    ),
            }
        }),
{
    let options = contract.terms();
    let views = listed_views(listed@);
    let terms = candidates(options, *server_info);
    lemma_vtxo_sum_is_a_sum(vtxos@);
    let outputs = seq![
        (vtxo_sum(vtxos@) as u64, active_options(options, *server_info).output_script()),
    ];
    match refresh {
        Ok(r) => {
            let inputs = choose|inputs: Seq<RefreshInput<'_>>| #[trigger]
                resolves(inputs, vtxos@, views, terms) && refreshes(
                    r,
                    settled_inputs(inputs, signer_set),
                    vtxo_sum(vtxos@),
                    options,
                    cosigner_pk@,
                    *server_info,
                );
            lemma_resolved_inputs(inputs, vtxos@, listed@, terms, signer_set);
            lemma_settling_is_settling_vtxos(
                r.as_delegate(),
                settled_inputs(inputs, signer_set),
                outputs,
                cosigner_pk@,
                onchain_script(server_info.forfeit_address@)->0,
                server_info.dust,
            );
        },
        Err(ResolveError::Refresh(RefreshError::Prepare(error))) => {
            let inputs = choose|inputs: Seq<RefreshInput<'_>>| #[trigger]
                resolves(inputs, vtxos@, views, terms) && refresh_is_refused(
                    settled_inputs(inputs, signer_set),
                    vtxo_sum(vtxos@),
                    options,
                    cosigner_pk@,
                    *server_info,
                    error,
                );
            lemma_resolved_inputs(inputs, vtxos@, listed@, terms, signer_set);
        },
        Err(ResolveError::Lookup(error)) => {
            let n = choose|n: int|
                {
                    &&& 0 <= n < vtxos@.len()
                    &&& resolved((#[trigger] vtxos@[n]).outpoint, views, terms) == Err::<
                        int,
                        LookupError,
                    >(error)
                };
            lemma_resolved(vtxos@[n].outpoint, listed@, terms);
        },
        _ => {},
    }
}

/// Whether `inputs` spend some VTXOs, each from the contract that holds it and through the
/// leaf of the two parties of the signer set and the server.
pub open spec fn spends_vtxos(
    inputs: Seq<IntentInputView>,
    vtxos: Seq<RefreshVtxo>,
    listed: Seq<ListedVtxo>,
    contracts: Seq<EscrowOptions>,
    signer_set: SignerSet,
) -> bool {
    &&& inputs.len() == vtxos.len()
    &&& forall|i: int|
        0 <= i < vtxos.len() ==> {
            let spend = (#[trigger] inputs[i]).spend;
            &&& spend.amount == vtxos[i].amount
            &&& spend.outpoint == (vtxos[i].outpoint.txid@, vtxos[i].outpoint.vout)
            &&& inputs[i].is_swept == vtxos[i].is_swept
            &&& exists|of: int|
                {
                    &&& #[trigger] finds_contract(Ok(of), vtxos[i].outpoint, listed, contracts)
                    &&& spend.spend_script == leaf_of_parties(signer_set, contracts[of])
                    &&& spend.control_block == contracts[of].control_blocks()[spend.spend_script]
                    &&& spend.tapscripts == contracts[of].leaves()
                    &&& spend.script_pubkey == contracts[of].output_script()
                }
        }
}

proof fn lemma_resolved_inputs<'a>(
    inputs: Seq<RefreshInput<'a>>,
    vtxos: Seq<RefreshVtxo>,
    listed: Seq<ListedVtxo>,
    contracts: Seq<EscrowOptions>,
    signer_set: SignerSet,
)
    requires
        resolves(inputs, vtxos, listed_views(listed), contracts),
    ensures
        spends_vtxos(settled_inputs(inputs, signer_set), vtxos, listed, contracts, signer_set),
{
    let settled = settled_inputs(inputs, signer_set);
    assert forall|i: int| 0 <= i < vtxos.len() implies {
        let spend = (#[trigger] settled[i]).spend;
        &&& spend.amount == vtxos[i].amount
        &&& spend.outpoint == (vtxos[i].outpoint.txid@, vtxos[i].outpoint.vout)
        &&& settled[i].is_swept == vtxos[i].is_swept
        &&& exists|of: int|
            {
                &&& #[trigger] finds_contract(Ok(of), vtxos[i].outpoint, listed, contracts)
                &&& spend.spend_script == leaf_of_parties(signer_set, contracts[of])
                &&& spend.control_block == contracts[of].control_blocks()[spend.spend_script]
                &&& spend.tapscripts == contracts[of].leaves()
                &&& spend.script_pubkey == contracts[of].output_script()
            }
    } by {
        assert(*inputs[i].vtxo == vtxos[i]);
        lemma_resolved(vtxos[i].outpoint, listed, contracts);
        let of = resolved(vtxos[i].outpoint, listed_views(listed), contracts)->Ok_0;
        lemma_leaf_of_parties(signer_set, contracts[of]);
        assert(finds_contract(Ok(of), vtxos[i].outpoint, listed, contracts));
    }
}

/// A script is held by the first contract that pays to it.
pub proof fn lemma_holder_is_first<'a>(
    contracts: &'a Vec<EscrowContract>,
    script: &[u8],
    found: Option<&'a EscrowContract>,
)
    requires
        call_ensures(find_holder, (contracts, script), found),
    ensures
        ({
            let terms = contracts@.map_values(|contract: EscrowContract| contract.terms());
            match found {
                Some(contract) => exists|of: int|
                    {
                        &&& #[trigger] is_first_holder(terms, script@, of)
                        &&& *contract == contracts@[of]
                    },
                None => forall|k: int|
                    0 <= k < contracts@.len() ==> (#[trigger] contracts@[k]).terms().output_script()
                        != script@,
            }
        }),
{
    let terms = contract_terms(contracts@);
    lemma_holder(terms, script@);
    let of = holder(terms, script@);
    assert(terms =~= contracts@.map_values(|contract: EscrowContract| contract.terms()));
    match found {
        Some(_) => {
            assert(is_first_holder(terms, script@, of));
        },
        None => {
            assert forall|k: int| 0 <= k < contracts@.len() implies (
            #[trigger] contracts@[k]).terms().output_script() != script@ by {
                assert(terms[k] == contracts@[k].terms());
            }
        },
    }
}

/// The message of a failed lookup tells which VTXO it was about.
pub proof fn lemma_lookup_error_tells_the_vtxo(error: &LookupError, message: String)
    requires
        call_ensures(LookupError::message, (error,), message),
    ensures
        match *error {
            LookupError::UnknownVtxo(outpoint) => message@ == "VTXO not found: "@ + outpoint_text(
                outpoint.txid@,
                outpoint.vout,
            ),
            LookupError::NoContract(outpoint) => message@
                == "VTXO is held by none of the contracts: "@ + outpoint_text(
                outpoint.txid@,
                outpoint.vout,
            ),
        },
{
}

} // verus!
