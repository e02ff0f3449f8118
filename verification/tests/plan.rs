use ark_escrow::address::{ArkAddress, Network};
use ark_escrow::keys::Keypair;
use ark_escrow::{fees_fit, plan_release, FeeOutput, PlanError, ReleaseMode};

const DUST: u64 = 330;

fn address(n: u8) -> ArkAddress {
    let server = Keypair::from_secret([99; 32]).unwrap().x_only_public_key();
    let key = Keypair::from_secret([n; 32]).unwrap().x_only_public_key();
    ArkAddress::new(Network::Regtest, &server, key.serialize())
}

fn fee(n: u8, amount: u64) -> FeeOutput {
    FeeOutput { address: address(n), amount }
}

#[test]
fn plan_release_rejects_sub_dust_buyer_payout() {
    let err = plan_release(300, &[], ReleaseMode::Offchain, DUST).unwrap_err().message();

    assert!(err.contains("exceeds buyer payout"), "{err}");
}

#[test]
fn plan_release_accepts_buyer_payout_at_dust() {
    let plan = plan_release(DUST, &[], ReleaseMode::Offchain, DUST).unwrap();

    assert_eq!(plan.buyer_amount, DUST);
}

#[test]
fn offchain_every_fee_is_paid() {
    let fees = [fee(1, 100), fee(2, 0), fee(3, 400)];
    let plan = plan_release(10_000, &fees, ReleaseMode::Offchain, DUST).unwrap();
    assert_eq!(plan.total_escrow_amount, 10_000);
    assert_eq!(plan.buyer_amount, 9_500);
    assert_eq!(plan.effective_fee_outputs, fees);
    assert!(plan.discarded_fee_outputs.is_empty());
}

#[test]
fn a_delegate_pays_fees_from_the_dust_limit_on() {
    let fees = [fee(1, 329), fee(2, 330), fee(3, 1), fee(4, 331)];
    let plan = plan_release(10_000, &fees, ReleaseMode::Delegate, DUST).unwrap();
    assert_eq!(plan.buyer_amount, 10_000 - 330 - 331);
    assert_eq!(plan.effective_fee_outputs, vec![fee(2, 330), fee(4, 331)]);
    assert_eq!(plan.discarded_fee_outputs, vec![fee(1, 329), fee(3, 1)]);
}

#[test]
fn fees_cannot_exceed_the_escrow() {
    let fees = [fee(1, 600), fee(2, 401)];
    let error = plan_release(1_000, &fees, ReleaseMode::Offchain, 0).unwrap_err();
    assert_eq!(
        error,
        PlanError::FeeExceedsEscrow { total_fee: 1_001, total_escrow_amount: 1_000 }
    );
    assert_eq!(
        error.message(),
        "fee exceeds amount locked up in escrow contract: 0.00001001 BTC > 0.00001000 BTC"
    );
    assert_eq!(
        plan_release(1_001, &fees, ReleaseMode::Offchain, 0).unwrap().buyer_amount,
        0
    );
}

#[test]
fn the_dust_error_names_both_amounts() {
    let error = plan_release(430, &[fee(1, 101)], ReleaseMode::Offchain, DUST).unwrap_err();
    assert_eq!(error, PlanError::DustExceedsPayout { dust: 330, buyer_amount: 329 });
    assert_eq!(
        error.message(),
        "server dust (0.00000330 BTC) exceeds buyer payout (0.00000329 BTC)"
    );
}

#[test]
fn discarded_fees_are_not_deducted() {
    let plan = plan_release(DUST, &[fee(1, 329)], ReleaseMode::Delegate, DUST).unwrap();
    assert_eq!(plan.buyer_amount, DUST);
    assert_eq!(plan.discarded_fee_outputs, vec![fee(1, 329)]);
}

#[test]
fn overflowing_fees_are_noticed() {
    let fees = [fee(1, u64::MAX), fee(2, 1)];
    assert!(!fees_fit(&fees, ReleaseMode::Offchain, DUST));
    assert!(fees_fit(&fees, ReleaseMode::Delegate, DUST));
    assert!(fees_fit(&fees[..1], ReleaseMode::Offchain, DUST));
    assert!(fees_fit(&[], ReleaseMode::Offchain, DUST));
}
