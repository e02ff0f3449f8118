//! 2-of-3 Bitcoin escrow contracts on Arkade.
//!
//! Any two of seller, buyer and arbiter can spend an escrow. Together with the
//! Arkade server they do so at once; without it they wait for a relative
//! lock-time.

use vstd::prelude::*;

use crate::address::ArkAddress;
use crate::text::{amount_display, amount_text};

pub mod address;
pub mod bytes;
pub mod checkpoint;
pub mod client;
pub mod contract;
pub mod delegate;
pub mod ffi;
pub mod intent;
pub mod keys;
pub mod lookup;
pub mod offchain;
pub mod psbt;
pub mod refresh;
pub mod script;
pub mod server;
pub mod settle;
pub mod spend;
pub mod spend_store;
pub mod taproot;
pub mod text;
pub mod tree;
pub mod tx;

verus! {

/// A fee that is paid out of a release.
#[derive(Debug, PartialEq, Eq)]
pub struct FeeOutput {
    pub address: ArkAddress,
    /// In satoshis.
    pub amount: u64,
}

impl View for FeeOutput {
    type V = (Seq<char>, u64);

    open spec fn view(&self) -> (Seq<char>, u64) {
        (self.address@, self.amount)
    }
}

impl Clone for FeeOutput {
    fn clone(&self) -> (copy: FeeOutput)
        ensures
            copy@ == self@,
    {
        FeeOutput { address: self.address.clone(), amount: self.amount }
    }
}

/// How an escrow is released: by an offchain spend, or in a batch through a
/// delegate.
#[derive(Clone, Copy, Debug, PartialEq, Eq, Structural)]
pub enum ReleaseMode {
    Offchain,
    Delegate,
}

/// Who is paid what when an escrow is released. Amounts are in satoshis.
#[derive(Clone, Debug, PartialEq, Eq)]
pub struct ReleasePlan {
    pub total_escrow_amount: u64,
    pub buyer_amount: u64,
    pub effective_fee_outputs: Vec<FeeOutput>,
    pub discarded_fee_outputs: Vec<FeeOutput>,
}

/// Why an escrow cannot be released as asked.
#[derive(Clone, Copy, Debug, PartialEq, Eq, Structural)]
pub enum PlanError {
    /// The fees come to more than the escrow holds.
    FeeExceedsEscrow { total_fee: u64, total_escrow_amount: u64 },
    /// The buyer would get less than the server's dust limit.
    DustExceedsPayout { dust: u64, buyer_amount: u64 },
}

impl PlanError {
    /// What the error says.
    pub open spec fn says(self) -> Seq<char> {
        match self {
            PlanError::FeeExceedsEscrow { total_fee, total_escrow_amount } => {
                "fee exceeds amount locked up in escrow contract: "@ + amount_display(total_fee)
                    + " > "@ + amount_display(total_escrow_amount)
            },
            PlanError::DustExceedsPayout { dust, buyer_amount } => {
                "server dust ("@ + amount_display(dust) + ") exceeds buyer payout ("@
                    + amount_display(buyer_amount) + ")"@
            },
        }
    }

    /// The error as a text.
    pub fn message(&self) -> (message: String)
        ensures
            message@ == self.says(),
    {
        match self {
            PlanError::FeeExceedsEscrow { total_fee, total_escrow_amount } => {
                "fee exceeds amount locked up in escrow contract: ".to_owned().concat(
                    amount_text(*total_fee).as_str(),
                ).concat(" > ").concat(amount_text(*total_escrow_amount).as_str())
            },
            PlanError::DustExceedsPayout { dust, buyer_amount } => {
                "server dust (".to_owned().concat(amount_text(*dust).as_str()).concat(
                    ") exceeds buyer payout (",
                ).concat(amount_text(*buyer_amount).as_str()).concat(")")
            },
        }
    }
}

/// What a list of fee outputs says: an address and an amount each.
pub open spec fn fee_views(outputs: Seq<FeeOutput>) -> Seq<(Seq<char>, u64)> {
    outputs.map_values(|output: FeeOutput| output@)
}

/// The sum of the amounts of some fee outputs.
pub open spec fn fee_sum(fees: Seq<(Seq<char>, u64)>) -> nat
    decreases fees.len(),
{
    if fees.len() == 0 {
        0
    } else {
        fee_sum(fees.drop_last()) + fees.last().1 as nat
    }
}

/// Whether a fee is paid: offchain every fee is, in a batch those that reach the
/// dust limit.
pub open spec fn fee_is_paid(amount: u64, mode: ReleaseMode, dust: u64) -> bool {
    mode is Offchain || amount >= dust
}

/// The fees that are paid, in their order.
pub open spec fn paid_fees(
    fees: Seq<(Seq<char>, u64)>,
    mode: ReleaseMode,
    dust: u64,
) -> Seq<(Seq<char>, u64)> {
    fees.filter(|fee: (Seq<char>, u64)| fee_is_paid(fee.1, mode, dust))
}

/// The fees that are not paid, in their order.
pub open spec fn unpaid_fees(
    fees: Seq<(Seq<char>, u64)>,
    mode: ReleaseMode,
    dust: u64,
) -> Seq<(Seq<char>, u64)> {
    fees.filter(|fee: (Seq<char>, u64)| !fee_is_paid(fee.1, mode, dust))
}

/// Works out who is paid what when `total_escrow_amount` is released: the fees
/// that can be paid, and the rest to the buyer.
pub fn plan_release(
    total_escrow_amount: u64,
    fee_outputs: &[FeeOutput],
    mode: ReleaseMode,
    dust: u64,
) -> (plan: Result<ReleasePlan, PlanError>)
    requires
        fee_sum(paid_fees(fee_views(fee_outputs@), mode, dust)) <= u64::MAX,
    ensures
        ({
            let paid = paid_fees(fee_views(fee_outputs@), mode, dust);
            let payout = total_escrow_amount - fee_sum(paid);
            match plan {
                Ok(plan) => {
                    &&& payout >= dust
                    &&& plan.total_escrow_amount == total_escrow_amount
                    &&& plan.buyer_amount == payout
                    &&& plan.buyer_amount + fee_sum(fee_views(plan.effective_fee_outputs@))
                        == total_escrow_amount
                    &&& fee_views(plan.effective_fee_outputs@) == paid
                    &&& fee_views(plan.discarded_fee_outputs@) == unpaid_fees(
                        fee_views(fee_outputs@),
                        mode,
                        dust,
                    )
                },
                Err(error) => if payout < 0 {
                    error == PlanError::FeeExceedsEscrow {
                        total_fee: fee_sum(paid) as u64,
                        total_escrow_amount,
                    }
                } else {
                    payout < dust && error == PlanError::DustExceedsPayout {
                        dust,
                        buyer_amount: payout as u64,
                    }
                },
            }
        }),
{
    let ghost fees = fee_views(fee_outputs@);
    let mut effective_fee_outputs: Vec<FeeOutput> = Vec::new();
    let mut discarded_fee_outputs: Vec<FeeOutput> = Vec::new();
    let mut total_fee: u64 = 0;
    let mut i: usize = 0;
    proof {
        assert(fee_views(effective_fee_outputs@) =~= paid_fees(fees.take(0), mode, dust)) by {
            reveal(Seq::filter);
        }
        assert(fee_views(discarded_fee_outputs@) =~= unpaid_fees(fees.take(0), mode, dust)) by {
            reveal(Seq::filter);
        }
    }
    while i < fee_outputs.len()
        invariant
            i <= fee_outputs.len(),
            fees == fee_views(fee_outputs@),
            fee_views(effective_fee_outputs@) == paid_fees(fees.take(i as int), mode, dust),
            fee_views(discarded_fee_outputs@) == unpaid_fees(fees.take(i as int), mode, dust),
            total_fee == fee_sum(paid_fees(fees.take(i as int), mode, dust)),
            fee_sum(paid_fees(fees, mode, dust)) <= u64::MAX,
        decreases fee_outputs.len() - i,
    {
        let output = fee_outputs[i].clone();
        let ghost paid_before = effective_fee_outputs@;
        let ghost unpaid_before = discarded_fee_outputs@;
        let pays = match mode {
            ReleaseMode::Offchain => true,
            ReleaseMode::Delegate => output.amount >= dust,
        };
        proof {
            let now = fees.take(i as int);
            let next = fees.take(i + 1);
            assert(next.drop_last() =~= now);
            assert(next.last() == output@);
            reveal(Seq::filter);
            if pays {
                assert(paid_fees(next, mode, dust) == paid_fees(now, mode, dust).push(output@));
                assert(paid_fees(now, mode, dust).push(output@).drop_last() =~= paid_fees(
                    now,
                    mode,
                    dust,
                ));
                assert(fee_views(paid_before.push(output)) =~= fee_views(paid_before).push(
                    output@,
                ));
            } else {
                assert(fee_views(unpaid_before.push(output)) =~= fee_views(unpaid_before).push(
                    output@,
                ));
            }
            lemma_paid_sum_grows(fees, i + 1, mode, dust);
        }
        if pays {
            total_fee = total_fee + output.amount;
            effective_fee_outputs.push(output);
        } else {
            discarded_fee_outputs.push(output);
        }
        i = i + 1;
    }
    assert(fees.take(i as int) =~= fees);
    if total_fee > total_escrow_amount {
        return Err(PlanError::FeeExceedsEscrow { total_fee, total_escrow_amount });
    }
    let buyer_amount: u64 = total_escrow_amount - total_fee;
    if buyer_amount < dust {
        return Err(PlanError::DustExceedsPayout { dust, buyer_amount });
    }
    Ok(
        ReleasePlan {
            total_escrow_amount,
            buyer_amount,
            effective_fee_outputs,
            discarded_fee_outputs,
        },
    )
}

/// Whether the fees that are paid come to an amount that can be written.
pub fn fees_fit(fee_outputs: &[FeeOutput], mode: ReleaseMode, dust: u64) -> (fit: bool)
    ensures
        fit <==> fee_sum(paid_fees(fee_views(fee_outputs@), mode, dust)) <= u64::MAX,
{
    let ghost fees = fee_views(fee_outputs@);
    let mut total: u64 = 0;
    let mut i: usize = 0;
    assert(fee_sum(paid_fees(fees.take(0), mode, dust)) == 0) by {
        reveal(Seq::filter);
    }
    while i < fee_outputs.len()
        invariant
            i <= fee_outputs.len(),
            fees == fee_views(fee_outputs@),
            total == fee_sum(paid_fees(fees.take(i as int), mode, dust)),
        decreases fee_outputs.len() - i,
    {
        let amount: u64 = fee_outputs[i].amount;
        let pays = match mode {
            ReleaseMode::Offchain => true,
            ReleaseMode::Delegate => amount >= dust,
        };
        proof {
            let now = fees.take(i as int);
            let next = fees.take(i + 1);
            assert(next.drop_last() =~= now);
            assert(next.last() == fee_outputs@[i as int]@);
            reveal(Seq::filter);
            if pays {
                assert(paid_fees(now, mode, dust).push(next.last()).drop_last() =~= paid_fees(
                    now,
                    mode,
                    dust,
                ));
            }
            lemma_paid_sum_grows(fees, i + 1, mode, dust);
        }
        if pays {
            match total.checked_add(amount) {
                Some(sum) => total = sum,
                None => return false,
            }
        }
        i = i + 1;
    }
    assert(fees.take(i as int) =~= fees);
    true
}

/// Some of the fees never come to more than all of them.
proof fn lemma_paid_sum_grows(
    fees: Seq<(Seq<char>, u64)>,
    upto: int,
    mode: ReleaseMode,
    dust: u64,
)
    requires
        0 <= upto <= fees.len(),
    ensures
        fee_sum(paid_fees(fees.take(upto), mode, dust)) <= fee_sum(paid_fees(fees, mode, dust)),
    decreases fees.len() - upto,
{
    if upto < fees.len() {
        lemma_paid_sum_grows(fees, upto + 1, mode, dust);
        let now = fees.take(upto);
        let next = fees.take(upto + 1);
        assert(next.drop_last() =~= now);
        reveal(Seq::filter);
        let paid = paid_fees(now, mode, dust);
        if fee_is_paid(next.last().1, mode, dust) {
            assert(paid_fees(next, mode, dust) == paid.push(next.last()));
            assert(paid.push(next.last()).drop_last() =~= paid);
        }
    } else {
        assert(fees.take(upto) =~= fees);
    }
}

/// Offchain, every fee is paid.
pub proof fn lemma_offchain_pays_every_fee(fees: Seq<(Seq<char>, u64)>, dust: u64)
    ensures
        paid_fees(fees, ReleaseMode::Offchain, dust) == fees,
        unpaid_fees(fees, ReleaseMode::Offchain, dust) == Seq::<(Seq<char>, u64)>::empty(),
    decreases fees.len(),
{
    reveal(Seq::filter);
    if fees.len() > 0 {
        lemma_offchain_pays_every_fee(fees.drop_last(), dust);
        assert(fees.drop_last().push(fees.last()) =~= fees);
    } else {
        assert(paid_fees(fees, ReleaseMode::Offchain, dust) =~= fees);
    }
}

/// Every fee is either paid or discarded, and none twice.
pub proof fn lemma_fees_are_split(fees: Seq<(Seq<char>, u64)>, mode: ReleaseMode, dust: u64)
    ensures
        paid_fees(fees, mode, dust).to_multiset().add(
            unpaid_fees(fees, mode, dust).to_multiset(),
        ) == fees.to_multiset(),
    decreases fees.len(),
{
    broadcast use vstd::seq_lib::group_to_multiset_ensures;

    reveal(Seq::filter);
    if fees.len() > 0 {
        let rest = fees.drop_last();
        lemma_fees_are_split(rest, mode, dust);
        assert(rest.push(fees.last()) =~= fees);
        assert(fees.to_multiset() == rest.to_multiset().insert(fees.last()));
    }
    assert(paid_fees(fees, mode, dust).to_multiset().add(unpaid_fees(fees, mode, dust).to_multiset())
        =~= fees.to_multiset());
}

/// What passes a test after it was mapped is what passed the test before, mapped.
pub(crate) proof fn lemma_filter_of_map<A, B>(
    items: Seq<A>,
    to: spec_fn(A) -> B,
    after: spec_fn(B) -> bool,
    before: spec_fn(A) -> bool,
)
    requires
        forall|item: A| after(#[trigger] to(item)) == before(item),
    ensures
        items.map_values(to).filter(after) == items.filter(before).map_values(to),
    decreases items.len(),
{
    reveal(Seq::filter);
    if items.len() > 0 {
        let rest = items.drop_last();
        lemma_filter_of_map(rest, to, after, before);
        assert(items.map_values(to).drop_last() =~= rest.map_values(to));
        assert(items.map_values(to).last() == to(items.last()));
        if before(items.last()) {
            assert(rest.filter(before).push(items.last()).map_values(to) =~= rest.filter(
                before,
            ).map_values(to).push(to(items.last())));
        }
    } else {
        assert(items.map_values(to).filter(after) =~= items.filter(before).map_values(to));
    }
}

/// What payments come to is the sum of their amounts.
pub proof fn lemma_fee_sum_folds(fees: Seq<(Seq<char>, u64)>)
    ensures
        fee_sum(fees) == fees.fold_left(0, |sum: int, fee: (Seq<char>, u64)| sum + fee.1),
    decreases fees.len(),
{
    if fees.len() > 0 {
        lemma_fee_sum_folds(fees.drop_last());
    }
}

/// What fees come to is the sum of their amounts.
pub proof fn lemma_fee_sum_is_a_sum(fees: Seq<FeeOutput>)
    ensures
        fee_sum(fee_views(fees)) == fees.fold_left(
            0,
            |sum: int, fee: FeeOutput| sum + fee.amount,
        ),
    decreases fees.len(),
{
    if fees.len() > 0 {
        lemma_fee_sum_is_a_sum(fees.drop_last());
        assert(fee_views(fees).drop_last() =~= fee_views(fees.drop_last()));
        assert(fee_views(fees).last() == fees.last()@);
    }
}

/// A plan pays fees in full or not at all: offchain all of them, in a batch those that
/// reach the dust limit, in their order. The buyer gets all that is left, which reaches the
/// dust limit; a plan is made whenever it does.
pub proof fn lemma_plan_is_fair(
    total_escrow_amount: u64,
    fee_outputs: &[FeeOutput],
    mode: ReleaseMode,
    dust: u64,
    plan: Result<ReleasePlan, PlanError>,
)
    requires
        call_ensures(plan_release, (total_escrow_amount, fee_outputs, mode, dust), plan),
    ensures
        ({
            let paid = fee_outputs@.filter(
                |fee: FeeOutput| mode == ReleaseMode::Offchain || fee.amount >= dust,
            );
            let unpaid = fee_outputs@.filter(
                |fee: FeeOutput| mode == ReleaseMode::Delegate && fee.amount < dust,
            );
            let total_fee = paid.fold_left(0, |sum: int, fee: FeeOutput| sum + fee.amount);
            let buyer_amount = total_escrow_amount - total_fee;
            match plan {
                Ok(plan) => {
                    &&& buyer_amount >= dust
                    &&& plan.total_escrow_amount == total_escrow_amount
                    &&& plan.buyer_amount == buyer_amount
                    &&& plan.effective_fee_outputs@.map_values(
                        |fee: FeeOutput| (fee.address@, fee.amount),
                    ) == paid.map_values(|fee: FeeOutput| (fee.address@, fee.amount))
                    &&& plan.discarded_fee_outputs@.map_values(
                        |fee: FeeOutput| (fee.address@, fee.amount),
                    ) == unpaid.map_values(|fee: FeeOutput| (fee.address@, fee.amount))
                },
                Err(PlanError::FeeExceedsEscrow { total_fee: fee, total_escrow_amount: amount }) =>
                {
                    &&& buyer_amount < 0
                    &&& fee == total_fee as u64
                    &&& amount == total_escrow_amount
                },
                Err(PlanError::DustExceedsPayout { dust: limit, buyer_amount: amount }) => {
                    &&& 0 <= buyer_amount < dust
                    &&& limit == dust
                    &&& amount == buyer_amount
                },
            }
        }),
{
    let view = |fee: FeeOutput| fee@;
    let paid = |fee: FeeOutput| mode == ReleaseMode::Offchain || fee.amount >= dust;
    let unpaid = |fee: FeeOutput| mode == ReleaseMode::Delegate && fee.amount < dust;
    let is_paid = |fee: (Seq<char>, u64)| fee_is_paid(fee.1, mode, dust);
    let is_unpaid = |fee: (Seq<char>, u64)| !fee_is_paid(fee.1, mode, dust);
    lemma_filter_of_map(fee_outputs@, view, is_paid, paid);
    lemma_filter_of_map(fee_outputs@, view, is_unpaid, unpaid);
    lemma_fee_sum_is_a_sum(fee_outputs@.filter(paid));
    let shown = |fee: FeeOutput| (fee.address@, fee.amount);
    assert(fee_outputs@.filter(paid).map_values(shown) =~= fee_outputs@.filter(paid).map_values(
        view,
    ));
    assert(fee_outputs@.filter(unpaid).map_values(shown) =~= fee_outputs@.filter(
        unpaid,
    ).map_values(view));
    assert(paid_fees(fee_views(fee_outputs@), mode, dust) == fee_views(fee_outputs@.filter(paid)));
    if let Ok(plan) = plan {
        assert(plan.effective_fee_outputs@.map_values(shown) =~= fee_views(
            plan.effective_fee_outputs@,
        ));
        assert(plan.discarded_fee_outputs@.map_values(shown) =~= fee_views(
            plan.discarded_fee_outputs@,
        ));
    }
}

/// Fees fit exactly if those that are paid do not come to more than can be written.
pub proof fn lemma_fees_fit_their_sum(
    fee_outputs: &[FeeOutput],
    mode: ReleaseMode,
    dust: u64,
    fit: bool,
)
    requires
        call_ensures(fees_fit, (fee_outputs, mode, dust), fit),
    ensures
        fit <==> fee_outputs@.filter(
            |fee: FeeOutput| mode == ReleaseMode::Offchain || fee.amount >= dust,
        ).fold_left(0, |sum: int, fee: FeeOutput| sum + fee.amount) <= u64::MAX,
{
    let view = |fee: FeeOutput| fee@;
    let paid = |fee: FeeOutput| mode == ReleaseMode::Offchain || fee.amount >= dust;
    let is_paid = |fee: (Seq<char>, u64)| fee_is_paid(fee.1, mode, dust);
    lemma_filter_of_map(fee_outputs@, view, is_paid, paid);
    lemma_fee_sum_is_a_sum(fee_outputs@.filter(paid));
    assert(paid_fees(fee_views(fee_outputs@), mode, dust) == fee_views(fee_outputs@.filter(paid)));
}

/// The message of a plan that fails tells the two amounts that do not fit.
pub proof fn lemma_plan_error_tells_amounts(error: &PlanError, message: String)
    requires
        call_ensures(PlanError::message, (error,), message),
    ensures
        match *error {
            PlanError::FeeExceedsEscrow { total_fee, total_escrow_amount } => message@
                == "fee exceeds amount locked up in escrow contract: "@ + amount_display(total_fee)
                + " > "@ + amount_display(total_escrow_amount),
            PlanError::DustExceedsPayout { dust, buyer_amount } => message@ == "server dust ("@
                + amount_display(dust) + ") exceeds buyer payout ("@ + amount_display(buyer_amount)
                + ")"@,
        },
{
}

} // verus!
