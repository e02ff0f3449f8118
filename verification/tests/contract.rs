use ark_escrow::address::{ArkAddress, Network};
use ark_escrow::contract::{ContractError, EscrowContract, EscrowOptions, SignerSet};
use ark_escrow::keys::{Keypair, PublicKey, XOnlyPublicKey};
use ark_escrow::taproot::TreeError;
use bitcoin::opcodes::all::{OP_CHECKSIG, OP_CHECKSIGVERIFY, OP_CSV, OP_DROP};
use bitcoin::secp256k1::{self, Secp256k1};
use bitcoin::taproot::{ControlBlock, LeafVersion};
use bitcoin::ScriptBuf;

fn random_key() -> XOnlyPublicKey {
    let secp = Secp256k1::new();
    let mut rng = secp256k1::rand::thread_rng();
    let key = secp256k1::Keypair::new(&secp, &mut rng).x_only_public_key().0;
    XOnlyPublicKey::from_slice(&key.serialize()).unwrap()
}

fn fixed_key(n: u8) -> XOnlyPublicKey {
    Keypair::from_secret([n; 32]).unwrap().x_only_public_key()
}

fn outside_key(key: &XOnlyPublicKey) -> bitcoin::XOnlyPublicKey {
    bitcoin::XOnlyPublicKey::from_slice(&key.serialize()).unwrap()
}

fn test_options() -> EscrowOptions {
    EscrowOptions {
        seller: random_key(),
        buyer: random_key(),
        arbiter: random_key(),
        server: random_key(),
        unilateral_exit_delay: 512,
    }
}

fn fixed_options() -> EscrowOptions {
    EscrowOptions {
        seller: fixed_key(1),
        buyer: fixed_key(2),
        arbiter: fixed_key(3),
        server: fixed_key(4),
        unilateral_exit_delay: 144,
    }
}

fn random_options_with_delay(delay: bitcoin::Sequence) -> EscrowOptions {
    EscrowOptions {
        unilateral_exit_delay: delay.to_consensus_u32(),
        ..test_options()
    }
}

fn address_of(options: EscrowOptions) -> String {
    EscrowContract::new(options, Network::Regtest).unwrap().address().to_string()
}

#[test]
fn contract_address_is_deterministic() {
    let opts = test_options();
    let c1 = EscrowContract::new(opts, Network::Regtest).unwrap();
    let c2 = EscrowContract::new(opts, Network::Regtest).unwrap();
    assert_eq!(c1.address().to_string(), c2.address().to_string());
}

#[test]
fn contract_has_six_tapscripts() {
    let contract = EscrowContract::new(test_options(), Network::Regtest).unwrap();
    assert_eq!(contract.tapscripts().len(), 6);
}

#[test]
fn control_blocks_exist_for_all_leaves() {
    let contract = EscrowContract::new(test_options(), Network::Regtest).unwrap();
    for script in &contract.tapscripts() {
        contract.control_block(script).unwrap();
    }
}

#[test]
fn validate_rejects_duplicate_keys() {
    let k = random_key();
    let opts = EscrowOptions {
        seller: k,
        buyer: k,
        arbiter: random_key(),
        server: random_key(),
        unilateral_exit_delay: 512,
    };
    assert!(opts.validate().is_err());
}

#[test]
fn validate_rejects_zero_delay() {
    let opts = EscrowOptions { unilateral_exit_delay: 0, ..test_options() };
    assert!(opts.validate().is_err());
}

#[test]
fn validate_rejects_disabled_relative_locktime() {
    // 0xFFFFFFFF has the BIP68 disable flag set, so it is not a relative
    // lock-time even though it is non-zero.
    let opts = EscrowOptions { unilateral_exit_delay: 0xFFFFFFFF, ..test_options() };
    assert!(opts.validate().is_err());
}

#[test]
fn consensus_sequence_roundtrips_for_seconds_delay() {
    // The server advertises a seconds-based delay encoded as a BIP68 consensus
    // u32. That raw u32 must produce the same escrow address as the sequence.
    let delay = bitcoin::Sequence::from_seconds_ceil(512).unwrap();
    let opts = random_options_with_delay(delay);
    let consensus = delay.to_consensus_u32();

    let expected = address_of(opts);
    let mut from_server = opts;
    from_server.unilateral_exit_delay = bitcoin::Sequence(consensus).to_consensus_u32();
    assert_eq!(address_of(from_server), expected);
}

#[test]
fn consensus_sequence_roundtrips_for_block_delay() {
    let delay = bitcoin::Sequence::from_height(1000);
    let opts = random_options_with_delay(delay);
    let consensus = delay.to_consensus_u32();

    let expected = address_of(opts);
    let mut from_server = opts;
    from_server.unilateral_exit_delay = bitcoin::Sequence(consensus).to_consensus_u32();
    assert_eq!(address_of(from_server), expected);
}

#[test]
fn reinterpreting_consensus_seconds_as_raw_seconds_changes_address() {
    // The consensus u32 of a 512-second delay is 0x00400001. Reading it as a
    // plain count of seconds must lead to another address.
    let delay = bitcoin::Sequence::from_seconds_ceil(512).unwrap();
    let correct_opts = random_options_with_delay(delay);
    let consensus = correct_opts.unilateral_exit_delay;

    let correct = address_of(correct_opts);
    let mut wrong_opts = correct_opts;
    wrong_opts.unilateral_exit_delay =
        bitcoin::Sequence::from_seconds_ceil(consensus).unwrap().to_consensus_u32();
    assert_ne!(correct, address_of(wrong_opts));
}

#[test]
fn every_pair_of_equal_keys_is_refused() {
    let base = fixed_options();
    let keys = [base.seller, base.buyer, base.arbiter, base.server];
    for i in 0..4 {
        for j in 0..4 {
            let mut keys = keys;
            keys[i] = keys[j];
            let options = EscrowOptions {
                seller: keys[0],
                buyer: keys[1],
                arbiter: keys[2],
                server: keys[3],
                unilateral_exit_delay: 1,
            };
            if i == j {
                options.validate().unwrap();
            } else {
                let error = options.validate().unwrap_err();
                assert!(matches!(error, ContractError::DuplicateKeys));
                assert_eq!(error.message(), "all public keys must be distinct");
            }
        }
    }
}

#[test]
fn the_first_fault_is_what_the_error_is_about() {
    let base = fixed_options();
    let both = EscrowOptions { buyer: base.seller, unilateral_exit_delay: 0, ..base };
    assert!(matches!(both.validate(), Err(ContractError::DuplicateKeys)));
}

#[test]
fn delays_up_to_the_disable_flag_are_accepted() {
    let with = |delay: u32| {
        let options = EscrowOptions { unilateral_exit_delay: delay, ..fixed_options() };
        options.validate()
    };
    with(1).unwrap();
    with(0x7fff_ffff).unwrap();
    let zero = with(0).unwrap_err();
    assert!(matches!(zero, ContractError::ZeroDelay));
    assert_eq!(zero.message(), "unilateral_exit_delay must be non-zero");
    let disabled = with(0x8000_0000).unwrap_err();
    assert!(matches!(disabled, ContractError::NotRelativeLockTime));
    assert_eq!(disabled.message(), "unilateral_exit_delay must be a BIP68 relative lock-time");
}

#[test]
fn a_contract_is_refused_with_its_options() {
    let options = EscrowOptions { unilateral_exit_delay: 0, ..fixed_options() };
    assert!(matches!(
        EscrowContract::new(options, Network::Bitcoin),
        Err(ContractError::ZeroDelay)
    ));
}

fn collaborative(a: &XOnlyPublicKey, b: &XOnlyPublicKey, server: &XOnlyPublicKey) -> Vec<u8> {
    ScriptBuf::builder()
        .push_x_only_key(&outside_key(a))
        .push_opcode(OP_CHECKSIGVERIFY)
        .push_x_only_key(&outside_key(b))
        .push_opcode(OP_CHECKSIGVERIFY)
        .push_x_only_key(&outside_key(server))
        .push_opcode(OP_CHECKSIG)
        .into_bytes()
}

fn unilateral(delay: u32, a: &XOnlyPublicKey, b: &XOnlyPublicKey) -> Vec<u8> {
    ScriptBuf::builder()
        .push_int(delay as i64)
        .push_opcode(OP_CSV)
        .push_opcode(OP_DROP)
        .push_x_only_key(&outside_key(a))
        .push_opcode(OP_CHECKSIGVERIFY)
        .push_x_only_key(&outside_key(b))
        .push_opcode(OP_CHECKSIG)
        .into_bytes()
}

#[test]
fn leaves_are_what_the_script_builder_writes() {
    for delay in [1u32, 16, 17, 127, 128, 144, 255, 256, 32767, 32768, 0x0040_0001, 0x7fff_ffff] {
        let o = EscrowOptions { unilateral_exit_delay: delay, ..fixed_options() };
        assert_eq!(o.seller_arbiter_script(), collaborative(&o.seller, &o.arbiter, &o.server));
        assert_eq!(o.buyer_arbiter_script(), collaborative(&o.buyer, &o.arbiter, &o.server));
        assert_eq!(o.seller_buyer_script(), collaborative(&o.seller, &o.buyer, &o.server));
        assert_eq!(o.unilateral_seller_arbiter_script(), unilateral(delay, &o.seller, &o.arbiter));
        assert_eq!(o.unilateral_buyer_arbiter_script(), unilateral(delay, &o.buyer, &o.arbiter));
        assert_eq!(o.unilateral_seller_buyer_script(), unilateral(delay, &o.seller, &o.buyer));
    }
}

#[test]
fn tapscripts_stand_in_tree_order() {
    let o = fixed_options();
    let contract = EscrowContract::new(o, Network::Regtest).unwrap();
    assert_eq!(
        contract.tapscripts(),
        vec![
            o.seller_arbiter_script(),
            o.buyer_arbiter_script(),
            o.seller_buyer_script(),
            o.unilateral_seller_arbiter_script(),
            o.unilateral_buyer_arbiter_script(),
            o.unilateral_seller_buyer_script(),
        ]
    );
}

#[test]
fn leaves_differ_from_each_other() {
    let contract = EscrowContract::new(fixed_options(), Network::Regtest).unwrap();
    let leaves = contract.tapscripts();
    for i in 0..leaves.len() {
        for j in 0..i {
            assert_ne!(leaves[i], leaves[j]);
        }
    }
}

#[test]
fn signer_sets_choose_their_leaf() {
    let o = fixed_options();
    assert_eq!(SignerSet::BuyerArbiter.script(&o), o.buyer_arbiter_script());
    assert_eq!(SignerSet::SellerArbiter.script(&o), o.seller_arbiter_script());
    assert_eq!(SignerSet::SellerBuyer.script(&o), o.seller_buyer_script());
}

#[test]
fn control_blocks_commit_to_their_leaf() {
    let contract = EscrowContract::new(fixed_options(), Network::Regtest).unwrap();
    let secp = Secp256k1::new();
    let output = contract.spend_info().output_key().to_x_only_public_key();
    for script in contract.tapscripts() {
        let block = contract.control_block(&script).unwrap();
        let block = ControlBlock::decode(&block).unwrap();
        assert!(block.verify_taproot_commitment(&secp, output, &ScriptBuf::from(script)));
    }
}

#[test]
fn the_tree_is_balanced_over_six_leaves() {
    let contract = EscrowContract::new(fixed_options(), Network::Regtest).unwrap();
    let depths: Vec<usize> = contract
        .tapscripts()
        .into_iter()
        .map(|script| {
            let leaf = (ScriptBuf::from(script), LeafVersion::TapScript);
            contract.spend_info().control_block(&leaf).unwrap().merkle_branch.len()
        })
        .collect();
    let mut sorted = depths.clone();
    sorted.sort();
    assert_eq!(sorted, vec![2, 2, 3, 3, 3, 3]);
}

#[test]
fn other_scripts_have_no_control_block() {
    let contract = EscrowContract::new(fixed_options(), Network::Regtest).unwrap();
    let error = contract.control_block(&[0x51]).unwrap_err();
    assert!(matches!(error, ContractError::ScriptNotInTree));
    assert_eq!(error.message(), "script not found in taproot tree");
}

#[test]
fn the_script_pays_to_the_output_key() {
    let contract = EscrowContract::new(fixed_options(), Network::Regtest).unwrap();
    let key = contract.spend_info().output_key().to_x_only_public_key();
    let mut expected = vec![0x51, 0x20];
    expected.extend_from_slice(&key.serialize());
    assert_eq!(contract.script_pubkey(), expected);
}

#[test]
fn nobody_can_spend_by_the_internal_key() {
    let contract = EscrowContract::new(fixed_options(), Network::Regtest).unwrap();
    let key: bitcoin::PublicKey = ark_core::UNSPENDABLE_KEY.parse().unwrap();
    assert_eq!(contract.spend_info().internal_key(), bitcoin::XOnlyPublicKey::from(key));
}

#[test]
fn the_address_is_the_one_of_its_keys_and_network() {
    let options = fixed_options();
    for (network, outside) in [
        (Network::Bitcoin, bitcoin::Network::Bitcoin),
        (Network::Testnet, bitcoin::Network::Testnet),
        (Network::Testnet4, bitcoin::Network::Testnet4),
        (Network::Signet, bitcoin::Network::Signet),
        (Network::Regtest, bitcoin::Network::Regtest),
    ] {
        let contract = EscrowContract::new(options, network).unwrap();
        let expected = ark_core::ArkAddress::new(
            outside,
            outside_key(&options.server),
            contract.spend_info().output_key(),
        );
        assert_eq!(contract.network(), network);
        assert_eq!(contract.address().to_string(), expected.encode());
        assert_eq!(contract.address().to_p2tr_script_pubkey(), contract.script_pubkey());
    }
}

#[test]
fn addresses_read_back() {
    let contract = EscrowContract::new(fixed_options(), Network::Bitcoin).unwrap();
    let address = contract.address();
    let read = ArkAddress::decode(&address.to_string()).unwrap();
    assert_eq!(read, address);
    assert!(address.to_string().starts_with("ark1"));
    let upper = ArkAddress::decode(&address.to_string().to_uppercase()).unwrap();
    assert_eq!(upper.to_string(), address.to_string());
    assert!(ArkAddress::decode("ark1nonsense").is_err());
}

#[test]
fn another_server_makes_another_contract() {
    let contract = EscrowContract::new(fixed_options(), Network::Regtest).unwrap();
    let moved = contract.with_server(fixed_key(5)).unwrap();
    assert_eq!(moved.options().server, fixed_key(5));
    assert_eq!(moved.options().seller, contract.options().seller);
    assert_eq!(moved.network(), Network::Regtest);
    assert_ne!(moved.address().to_string(), contract.address().to_string());
    let back = moved.with_server(fixed_key(4)).unwrap();
    assert_eq!(back.address().to_string(), contract.address().to_string());
}

#[test]
fn a_party_cannot_be_the_server() {
    let contract = EscrowContract::new(fixed_options(), Network::Regtest).unwrap();
    for n in 1..=3 {
        assert!(matches!(
            contract.with_server(fixed_key(n)),
            Err(ContractError::DuplicateKeys)
        ));
    }
}

#[test]
fn options_show_in_the_leaves() {
    let base = fixed_options();
    let leaves = |options: EscrowOptions| {
        EscrowContract::new(options, Network::Regtest).unwrap().tapscripts()
    };
    let others = [
        EscrowOptions { seller: fixed_key(9), ..base },
        EscrowOptions { buyer: fixed_key(9), ..base },
        EscrowOptions { arbiter: fixed_key(9), ..base },
        EscrowOptions { server: fixed_key(9), ..base },
        EscrowOptions { unilateral_exit_delay: 145, ..base },
    ];
    for other in others {
        assert_ne!(leaves(other), leaves(base));
    }
}

#[test]
fn a_clone_is_the_same_contract() {
    let contract = EscrowContract::new(fixed_options(), Network::Signet).unwrap();
    let copy = contract.clone();
    assert_eq!(copy.options(), contract.options());
    assert_eq!(copy.address().to_string(), contract.address().to_string());
    assert_eq!(copy.spend_info(), contract.spend_info());
}

#[test]
fn tree_errors_say_where_they_come_from() {
    assert_eq!(
        ContractError::Tree(TreeError::Leaf(3)).message(),
        "failed to add leaf at depth 3"
    );
    assert_eq!(
        ContractError::Tree(TreeError::Unfinished).message(),
        "failed to finalize taproot tree"
    );
}

#[test]
fn only_keys_are_keys() {
    assert!(XOnlyPublicKey::from_slice(&[0; 32]).is_none());
    assert!(XOnlyPublicKey::from_slice(&fixed_key(1).serialize()[..31]).is_none());
    assert!(PublicKey::from_bytes([2; 33]).is_some());
    assert!(PublicKey::from_bytes([9; 33]).is_none());
    assert!(Keypair::from_secret([0; 32]).is_none());
    assert!(Keypair::from_secret([0xff; 32]).is_none());
}

#[test]
fn key_pairs_give_their_public_keys() {
    let secp = Secp256k1::new();
    let outside = secp256k1::Keypair::from_seckey_slice(&secp, &[7; 32]).unwrap();
    let keypair = Keypair::from_secret([7; 32]).unwrap();
    assert_eq!(keypair.secret(), [7; 32]);
    assert_eq!(keypair.public_key().serialize(), outside.public_key().serialize());
    assert_eq!(
        keypair.x_only_public_key().serialize(),
        outside.x_only_public_key().0.serialize()
    );
    assert!(keypair.public_key().x_only().same(&keypair.x_only_public_key()));
    assert!(!keypair.public_key().same(&Keypair::from_secret([8; 32]).unwrap().public_key()));
    assert!(!fixed_key(1).same(&fixed_key(2)));
}

#[test]
fn signatures_verify_under_the_key() {
    let secp = Secp256k1::verification_only();
    let keypair = Keypair::from_secret([7; 32]).unwrap();
    let (signature, key) = keypair.sign_digest([0x42; 32]);
    let signature = secp256k1::schnorr::Signature::from_slice(&signature).unwrap();
    let key = bitcoin::XOnlyPublicKey::from_slice(&key).unwrap();
    let message = secp256k1::Message::from_digest([0x42; 32]);
    secp.verify_schnorr(&signature, &message, &key).unwrap();
    assert_eq!(keypair.sign_digest([0x42; 32]).0, keypair.sign_digest([0x42; 32]).0);
}
