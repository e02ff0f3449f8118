//! The escrow contract: four keys and a delay, and the taproot tree that they
//! make.

use bitcoin::taproot::TaprootSpendInfo;
use vstd::prelude::*;

use crate::address::{address_script, address_text, ArkAddress, Network};
use crate::keys::XOnlyPublicKey;
use crate::offchain::{flat_len, lemma_flat_len};
use crate::script::{
    collaborative_3of3, delayed_two_signatures, lemma_delay_shows_in_script,
    lemma_leaf_kinds_differ, lemma_leaf_lengths, lemma_signers_show_in_script, push_number,
    taproot_output_script, taproot_script_pubkey, three_signatures, unilateral_2of2,
};
use crate::taproot::{
    balanced_tree, build_tree, clone_spend_info, commits, finish_tree, is_control_block,
    leaf_scripts, leaves_at, lemma_balanced_six, spend_info_blocks, spend_info_key,
    taproot_control_blocks, taproot_output_key, unspendable_key_bytes, TreeError,
};
use crate::text::{decimal, decimal_text};

verus! {

/// Configuration of a 2-of-3 escrow contract on Arkade.
///
/// Any two of seller, buyer and arbiter can spend. Collaborative paths take the
/// Arkade server's signature as well, unilateral paths a delay.
#[derive(Clone, Copy, Debug, PartialEq, Eq)]
pub struct EscrowOptions {
    /// The seller's public key (the party that funds the escrow).
    pub seller: XOnlyPublicKey,
    /// The buyer's public key.
    pub buyer: XOnlyPublicKey,
    /// The arbiter's public key.
    pub arbiter: XOnlyPublicKey,
    /// The Arkade server's public key.
    pub server: XOnlyPublicKey,
    /// The delay of the unilateral paths, as a BIP68 sequence number.
    pub unilateral_exit_delay: u32,
}

/// The two parties that spend an escrow together with the Arkade server.
#[derive(Clone, Copy, Debug, PartialEq, Eq, Structural)]
pub enum SignerSet {
    BuyerArbiter,
    SellerArbiter,
    SellerBuyer,
}

/// What is wrong with a contract, or with a request to one.
#[derive(Clone, Copy, Debug, PartialEq, Eq, Structural)]
pub enum ContractError {
    /// Two of the four keys are the same.
    DuplicateKeys,
    /// There is no delay.
    ZeroDelay,
    /// The delay has the bit set that turns relative lock-times off.
    NotRelativeLockTime,
    /// The taproot tree could not be built.
    Tree(TreeError),
    /// The script is no leaf of the contract.
    ScriptNotInTree,
}

impl ContractError {
    /// What the error says.
    pub open spec fn says(self) -> Seq<char> {
        match self {
            ContractError::DuplicateKeys => "all public keys must be distinct"@,
            ContractError::ZeroDelay => "unilateral_exit_delay must be non-zero"@,
            ContractError::NotRelativeLockTime => {
                "unilateral_exit_delay must be a BIP68 relative lock-time"@
            },
            ContractError::Tree(TreeError::Leaf(depth)) => {
                "failed to add leaf at depth "@ + decimal(depth as nat)
            },
            ContractError::Tree(TreeError::Unfinished) => "failed to finalize taproot tree"@,
            ContractError::ScriptNotInTree => "script not found in taproot tree"@,
        }
    }

    /// The error as a text.
    pub fn message(&self) -> (message: String)
        ensures
            message@ == self.says(),
    {
        let text = match self {
            ContractError::Tree(TreeError::Leaf(depth)) => {
                return "failed to add leaf at depth ".to_owned().concat(
                    decimal_text(*depth as usize).as_str(),
                );
            },
            ContractError::DuplicateKeys => "all public keys must be distinct",
            ContractError::ZeroDelay => "unilateral_exit_delay must be non-zero",
            ContractError::NotRelativeLockTime => {
                "unilateral_exit_delay must be a BIP68 relative lock-time"
            },
            ContractError::Tree(TreeError::Unfinished) => "failed to finalize taproot tree",
            ContractError::ScriptNotInTree => "script not found in taproot tree",
        };
        text.to_owned()
    }
}

/// Calls `bitcoin::Sequence::is_relative_lock_time`.
///
/// Claimed of it: a sequence number is a relative lock-time unless its highest
/// bit is set.
#[verifier::external_body]
fn is_relative_lock_time(sequence: u32) -> (relative: bool)
    ensures
        relative == (sequence < 0x8000_0000),
{
    bitcoin::Sequence(sequence).is_relative_lock_time()
}

impl EscrowOptions {
    /// Whether no two of the four keys are the same.
    pub open spec fn keys_are_distinct(self) -> bool {
        &&& self.seller@ != self.buyer@
        &&& self.seller@ != self.arbiter@
        &&& self.seller@ != self.server@
        &&& self.buyer@ != self.arbiter@
        &&& self.buyer@ != self.server@
        &&& self.arbiter@ != self.server@
    }

    /// Whether a contract can be made of the options.
    pub open spec fn is_valid(self) -> bool {
        &&& self.keys_are_distinct()
        &&& 0 < self.unilateral_exit_delay < 0x8000_0000
    }

    /// The six leaf scripts: the collaborative ones, then the unilateral ones.
    pub open spec fn leaves(self) -> Seq<Seq<u8>> {
        let delay = self.unilateral_exit_delay;
        seq![
            three_signatures(self.seller@, self.arbiter@, self.server@),
            three_signatures(self.buyer@, self.arbiter@, self.server@),
            three_signatures(self.seller@, self.buyer@, self.server@),
            delayed_two_signatures(delay, self.seller@, self.arbiter@),
            delayed_two_signatures(delay, self.buyer@, self.arbiter@),
            delayed_two_signatures(delay, self.seller@, self.buyer@),
        ]
    }

    /// The leaves as the taproot tree holds them, each with its depth.
    pub open spec fn tree_leaves(self) -> Seq<(nat, Seq<u8>)> {
        leaves_at(balanced_tree(self.leaves()), 0)
    }

    /// The output key of the taproot tree.
    pub open spec fn output_key(self) -> Seq<u8> {
        taproot_output_key(self.tree_leaves(), unspendable_key_bytes())
    }

    /// The control block of each leaf.
    pub open spec fn control_blocks(self) -> Map<Seq<u8>, Seq<u8>> {
        taproot_control_blocks(self.tree_leaves(), unspendable_key_bytes())
    }

    /// The output script of the contract.
    pub open spec fn output_script(self) -> Seq<u8> {
        taproot_output_script(self.output_key())
    }

    /// Checks that all keys are distinct and that the delay is a relative
    /// lock-time other than zero.
    pub fn validate(&self) -> (valid: Result<(), ContractError>)
        ensures
            match valid {
                Ok(_) => self.is_valid(),
                Err(error) => if !self.keys_are_distinct() {
                    error is DuplicateKeys
                } else if self.unilateral_exit_delay == 0 {
                    error is ZeroDelay
                } else {
                    error is NotRelativeLockTime && self.unilateral_exit_delay >= 0x8000_0000
                },
            },
    {
        let seller = &self.seller;
        let buyer = &self.buyer;
        let arbiter = &self.arbiter;
        let server = &self.server;
        if seller.same(buyer) || seller.same(arbiter) || seller.same(server) || buyer.same(arbiter)
            || buyer.same(server) || arbiter.same(server) {
            return Err(ContractError::DuplicateKeys);
        }
        if self.unilateral_exit_delay == 0 {
            return Err(ContractError::ZeroDelay);
        }
        if !is_relative_lock_time(self.unilateral_exit_delay) {
            return Err(ContractError::NotRelativeLockTime);
        }
        Ok(())
    }

    // -- Collaborative leaves (with the server's key) --

    /// The leaf of seller, arbiter and server.
    pub fn seller_arbiter_script(&self) -> (script: Vec<u8>)
        ensures
            script@ == self.leaves()[0],
    {
        collaborative_3of3(&self.seller, &self.arbiter, &self.server)
    }

    /// The leaf of buyer, arbiter and server.
    pub fn buyer_arbiter_script(&self) -> (script: Vec<u8>)
        ensures
            script@ == self.leaves()[1],
    {
        collaborative_3of3(&self.buyer, &self.arbiter, &self.server)
    }

    /// The leaf of seller, buyer and server: they settle without the arbiter.
    pub fn seller_buyer_script(&self) -> (script: Vec<u8>)
        ensures
            script@ == self.leaves()[2],
    {
        collaborative_3of3(&self.seller, &self.buyer, &self.server)
    }

    // -- Unilateral leaves (with a delay, without the server) --

    /// The delayed leaf of seller and arbiter.
    pub fn unilateral_seller_arbiter_script(&self) -> (script: Vec<u8>)
        ensures
            script@ == self.leaves()[3],
    {
        unilateral_2of2(self.unilateral_exit_delay, &self.seller, &self.arbiter)
    }

    /// The delayed leaf of buyer and arbiter.
    pub fn unilateral_buyer_arbiter_script(&self) -> (script: Vec<u8>)
        ensures
            script@ == self.leaves()[4],
    {
        unilateral_2of2(self.unilateral_exit_delay, &self.buyer, &self.arbiter)
    }

    /// The delayed leaf of seller and buyer.
    pub fn unilateral_seller_buyer_script(&self) -> (script: Vec<u8>)
        ensures
            script@ == self.leaves()[5],
    {
        unilateral_2of2(self.unilateral_exit_delay, &self.seller, &self.buyer)
    }

    /// All six leaf scripts: the collaborative ones, then the unilateral ones.
    fn all_scripts(&self) -> (scripts: Vec<Vec<u8>>)
        ensures
            script_views(scripts@) == self.leaves(),
    {
        let mut scripts: Vec<Vec<u8>> = Vec::new();
        scripts.push(self.seller_arbiter_script());
        scripts.push(self.buyer_arbiter_script());
        scripts.push(self.seller_buyer_script());
        scripts.push(self.unilateral_seller_arbiter_script());
        scripts.push(self.unilateral_buyer_arbiter_script());
        scripts.push(self.unilateral_seller_buyer_script());
        assert(script_views(scripts@) =~= self.leaves());
        scripts
    }
}

/// A list of scripts, each as its bytes.
pub open spec fn script_views(scripts: Seq<Vec<u8>>) -> Seq<Seq<u8>> {
    scripts.map_values(|script: Vec<u8>| script@)
}

impl SignerSet {
    /// Where the leaf of the signer set stands among the six.
    pub open spec fn leaf_index(self) -> int {
        match self {
            SignerSet::BuyerArbiter => 1,
            SignerSet::SellerArbiter => 0,
            SignerSet::SellerBuyer => 2,
        }
    }

    /// The collaborative leaf of the signer set.
    pub open spec fn leaf(self, options: EscrowOptions) -> Seq<u8> {
        options.leaves()[self.leaf_index()]
    }

    /// The collaborative leaf script of the signer set.
    pub fn script(self, options: &EscrowOptions) -> (script: Vec<u8>)
        ensures
            script@ == self.leaf(*options),
    {
        match self {
            SignerSet::BuyerArbiter => options.buyer_arbiter_script(),
            SignerSet::SellerArbiter => options.seller_arbiter_script(),
            SignerSet::SellerBuyer => options.seller_buyer_script(),
        }
    }
}

/// Exactly the six leaves of a contract are in its taproot tree.
pub proof fn lemma_tree_holds_leaves(options: EscrowOptions)
    ensures
        leaf_scripts(options.tree_leaves()) == options.leaves().to_set(),
{
    let leaves = options.leaves();
    lemma_balanced_six(leaves);
    let listed = options.tree_leaves().map_values(|leaf: (nat, Seq<u8>)| leaf.1);
    assert(listed =~= seq![leaves[2], leaves[3], leaves[0], leaves[1], leaves[4], leaves[5]]);
    assert forall|script: Seq<u8>| listed.contains(script) <==> leaves.contains(script) by {
        if listed.contains(script) {
            let i = choose|i: int| 0 <= i < listed.len() && listed[i] == script;
            let j = if i < 2 { i + 2 } else if i < 4 { i - 2 } else { i };
            assert(leaves[j] == script);
        }
        if leaves.contains(script) {
            let i = choose|i: int| 0 <= i < leaves.len() && leaves[i] == script;
            let j = if i < 2 { i + 2 } else if i < 4 { i - 2 } else { i };
            assert(listed[j] == script);
        }
    }
    assert(leaf_scripts(options.tree_leaves()) =~= leaves.to_set());
}

/// The leaves of a contract of distinct keys are six different scripts.
pub proof fn lemma_leaves_are_distinct(options: EscrowOptions)
    requires
        options.keys_are_distinct(),
    ensures
        options.leaves().no_duplicates(),
{
    let EscrowOptions { seller, buyer, arbiter, server, unilateral_exit_delay: delay } = options;
    seller.lemma_bytes(seller);
    buyer.lemma_bytes(buyer);
    arbiter.lemma_bytes(arbiter);
    server.lemma_bytes(server);
    let pairs = seq![(seller@, arbiter@), (buyer@, arbiter@), (seller@, buyer@)];
    let leaves = options.leaves();
    assert forall|i: int, j: int| 0 <= i < j < 6 implies leaves[i] != leaves[j] by {
        let a = pairs[i % 3];
        let b = pairs[j % 3];
        if j < 3 {
            lemma_signers_show_in_script(a.0, a.1, server@, b.0, b.1, server@);
        } else if i >= 3 {
            lemma_delay_shows_in_script(delay, a.0, a.1, delay, b.0, b.1);
        } else {
            lemma_leaf_kinds_differ(delay, b.0, b.1, a.0, a.1, server@);
        }
    }
}

/// Contracts with different keys or another delay have different leaves.
pub proof fn lemma_leaves_tell_options(options: EscrowOptions, other: EscrowOptions)
    ensures
        options.leaves() == other.leaves() ==> options == other,
{
    if options.leaves() == other.leaves() {
        let a = options;
        let b = other;
        a.seller.lemma_bytes(b.seller);
        a.buyer.lemma_bytes(b.buyer);
        a.arbiter.lemma_bytes(b.arbiter);
        a.server.lemma_bytes(b.server);
        b.seller.lemma_bytes(a.seller);
        b.buyer.lemma_bytes(a.buyer);
        b.arbiter.lemma_bytes(a.arbiter);
        b.server.lemma_bytes(a.server);
        assert(a.leaves()[0] == b.leaves()[0]);
        assert(a.leaves()[2] == b.leaves()[2]);
        assert(a.leaves()[3] == b.leaves()[3]);
        lemma_signers_show_in_script(
            a.seller@,
            a.arbiter@,
            a.server@,
            b.seller@,
            b.arbiter@,
            b.server@,
        );
        lemma_signers_show_in_script(
            a.seller@,
            a.buyer@,
            a.server@,
            b.seller@,
            b.buyer@,
            b.server@,
        );
        lemma_delay_shows_in_script(
            a.unilateral_exit_delay,
            a.seller@,
            a.arbiter@,
            b.unilateral_exit_delay,
            b.seller@,
            b.arbiter@,
        );
    }
}

/// Builds the taproot tree of a contract.
fn build_taproot(options: &EscrowOptions) -> (info: Result<TaprootSpendInfo, ContractError>)
    ensures
        info matches Ok(i) && spend_info_key(i) == options.output_key() && spend_info_blocks(i)
            == options.control_blocks() && spend_info_blocks(i).dom() == options.leaves().to_set(),
{
    let scripts = options.all_scripts();
    let root = build_tree(scripts);
    proof {
        lemma_balanced_six(options.leaves());
        lemma_tree_holds_leaves(*options);
    }
    match finish_tree(&root) {
        Ok(info) => Ok(info),
        Err(error) => Err(ContractError::Tree(error)),
    }
}

/// The escrow contract: its options and the taproot tree that they make.
pub struct EscrowContract {
    options: EscrowOptions,
    spend_info: TaprootSpendInfo,
    network: Network,
}

impl Clone for EscrowContract {
    fn clone(&self) -> (copy: EscrowContract)
        ensures
            copy.terms() == self.terms(),
            copy.on_network() == self.on_network(),
    {
        proof {
            use_type_invariant(self);
        }
        EscrowContract {
            options: self.options,
            spend_info: clone_spend_info(&self.spend_info),
            network: self.network,
        }
    }
}

impl EscrowContract {
    #[verifier::type_invariant]
    spec fn well_formed(self) -> bool {
        &&& self.options.is_valid()
        &&& spend_info_key(self.spend_info) == self.options.output_key()
        &&& spend_info_blocks(self.spend_info) == self.options.control_blocks()
        &&& spend_info_blocks(self.spend_info).dom() == self.options.leaves().to_set()
    }

    /// The options that the contract was made of.
    pub closed spec fn terms(self) -> EscrowOptions {
        self.options
    }

    /// The network that the contract lives on.
    pub closed spec fn on_network(self) -> Network {
        self.network
    }

    /// The contract of some options.
    pub fn new(options: EscrowOptions, network: Network) -> (contract: Result<
        EscrowContract,
        ContractError,
    >)
        ensures
            match contract {
                Ok(c) => options.is_valid() && c.terms() == options && c.on_network() == network,
                Err(error) => if !options.keys_are_distinct() {
                    error is DuplicateKeys
                } else if options.unilateral_exit_delay == 0 {
                    error is ZeroDelay
                } else {
                    error is NotRelativeLockTime && options.unilateral_exit_delay >= 0x8000_0000
                },
            },
    {
        match options.validate() {
            Ok(_) => match build_taproot(&options) {
                Ok(spend_info) => Ok(EscrowContract { options, spend_info, network }),
                Err(error) => Err(error),
            },
            Err(error) => Err(error),
        }
    }

    /// The options that the contract was made of.
    pub fn options(&self) -> (options: &EscrowOptions)
        ensures
            *options == self.terms(),
            options.is_valid(),
    {
        proof {
            use_type_invariant(self);
        }
        &self.options
    }

    /// The network that the contract lives on.
    pub fn network(&self) -> (network: Network)
        ensures
            network == self.on_network(),
    {
        self.network
    }

    /// The taproot tree of the contract.
    pub fn spend_info(&self) -> (info: &TaprootSpendInfo)
        ensures
            spend_info_key(*info) == self.terms().output_key(),
            spend_info_blocks(*info) == self.terms().control_blocks(),
            spend_info_blocks(*info).dom() == self.terms().leaves().to_set(),
    {
        proof {
            use_type_invariant(self);
        }
        &self.spend_info
    }

    /// The same contract with another server.
    pub fn with_server(&self, server: XOnlyPublicKey) -> (contract: Result<
        EscrowContract,
        ContractError,
    >)
        ensures
            match contract {
                Ok(c) => {
                    &&& server@ != self.terms().seller@
                    &&& server@ != self.terms().buyer@
                    &&& server@ != self.terms().arbiter@
                    &&& c.terms() == (EscrowOptions { server, ..self.terms() })
                    &&& c.terms().is_valid()
                    &&& c.on_network() == self.on_network()
                },
                Err(error) => {
                    &&& error is DuplicateKeys
                    &&& !(EscrowOptions { server, ..self.terms() }).keys_are_distinct()
                    &&& server@ == self.terms().seller@ || server@ == self.terms().buyer@
                        || server@ == self.terms().arbiter@
                },
            },
    {
        proof {
            use_type_invariant(self);
        }
        let options = EscrowOptions {
            seller: self.options.seller,
            buyer: self.options.buyer,
            arbiter: self.options.arbiter,
            server,
            unilateral_exit_delay: self.options.unilateral_exit_delay,
        };
        EscrowContract::new(options, self.network)
    }

    /// The output script of the contract.
    pub fn script_pubkey(&self) -> (script: Vec<u8>)
        ensures
            script@ == self.terms().output_script(),
            script.len() == 34,
    {
        proof {
            use_type_invariant(self);
        }
        taproot_script_pubkey(crate::taproot::output_key(&self.spend_info))
    }

    /// The Arkade address of the contract. It pays to the contract's output
    /// script.
    pub fn address(&self) -> (address: ArkAddress)
        ensures
            address@ == address_text(
                self.on_network(),
                self.terms().server@,
                self.terms().output_key(),
            ),
            address_script(address@) == self.terms().output_script(),
            self.terms().output_script().len() == 34,
    {
        proof {
            use_type_invariant(self);
        }
        ArkAddress::new(
            self.network,
            &self.options.server,
            crate::taproot::output_key(&self.spend_info),
        )
    }

    /// All six leaf scripts: the collaborative ones, then the unilateral ones.
    pub fn tapscripts(&self) -> (scripts: Vec<Vec<u8>>)
        ensures
            script_views(scripts@) == self.terms().leaves(),
            scripts.len() == 6,
    {
        let scripts = self.options.all_scripts();
        assert(script_views(scripts@).len() == 6);
        scripts
    }

    /// The control block that spends through a leaf script. Every leaf of the
    /// contract has one, and no other script. It proves that the contract's output key
    /// commits to the leaf.
    pub fn control_block(&self, script: &[u8]) -> (block: Result<Vec<u8>, ContractError>)
        ensures
            block is Ok <==> self.terms().leaves().contains(script@),
            match block {
                Ok(b) => {
                    &&& b@ == self.terms().control_blocks()[script@]
                    &&& is_control_block(b@)
                    &&& commits(b@, self.terms().output_key(), script@)
                },
                Err(error) => error is ScriptNotInTree,
            },
    {
        proof {
            use_type_invariant(self);
        }
        match crate::taproot::control_block(&self.spend_info, script) {
            Some(block) => Ok(block),
            None => Err(ContractError::ScriptNotInTree),
        }
    }
}

/// Every signer set has a leaf in the contract.
pub proof fn lemma_signer_set_has_leaf(signer_set: SignerSet, options: EscrowOptions)
    ensures
        options.leaves().contains(signer_set.leaf(options)),
{
    assert(options.leaves()[signer_set.leaf_index()] == signer_set.leaf(options));
}

/// How long the leaves of a contract are, each and together.
pub proof fn lemma_leaves_are_short(options: EscrowOptions, signer_set: SignerSet)
    ensures
        signer_set.leaf(options).len() == 102,
        options.leaves().len() == 6,
        flat_len(options.leaves()) <= 6 * 102,
{
    options.seller.lemma_bytes(options.seller);
    options.buyer.lemma_bytes(options.buyer);
    options.arbiter.lemma_bytes(options.arbiter);
    options.server.lemma_bytes(options.server);
    let delay = options.unilateral_exit_delay;
    lemma_leaf_lengths(delay, options.seller@, options.arbiter@, options.server@);
    lemma_leaf_lengths(delay, options.buyer@, options.arbiter@, options.server@);
    lemma_leaf_lengths(delay, options.seller@, options.buyer@, options.server@);
    lemma_flat_len(options.leaves(), 102);
}

// -- Who can spend --

/// The script that two parties and the server must all sign, byte for byte: a push of each
/// key, and a check of its signature behind it.
pub open spec fn leaf_of(first: Seq<u8>, second: Seq<u8>, server: Seq<u8>) -> Seq<u8> {
    seq![0x20u8] + first + seq![0xadu8, 0x20] + second + seq![0xadu8, 0x20] + server + seq![0xacu8]
}

/// The script that the parties of a signer set and the server must all sign.
pub open spec fn leaf_of_parties(signer_set: SignerSet, options: EscrowOptions) -> Seq<u8> {
    match signer_set {
        SignerSet::BuyerArbiter => leaf_of(options.buyer@, options.arbiter@, options.server@),
        SignerSet::SellerArbiter => leaf_of(options.seller@, options.arbiter@, options.server@),
        SignerSet::SellerBuyer => leaf_of(options.seller@, options.buyer@, options.server@),
    }
}

/// The leaf of a signer set takes the signatures of its two parties and of the server.
pub proof fn lemma_leaf_of_parties(signer_set: SignerSet, options: EscrowOptions)
    ensures
        signer_set.leaf(options) == leaf_of_parties(signer_set, options),
{
    assert(signer_set.leaf(options) =~= leaf_of_parties(signer_set, options));
}

/// A signer set spends through the leaf of its two parties and the server.
pub proof fn lemma_signer_set_script(
    signer_set: SignerSet,
    options: &EscrowOptions,
    script: Vec<u8>,
)
    requires
        call_ensures(SignerSet::script, (signer_set, options), script),
    ensures
        script@ == leaf_of_parties(signer_set, *options),
{
    lemma_leaf_of_parties(signer_set, *options);
}

/// A contract has six ways to be spent, and no other: any two of seller, buyer and arbiter
/// at once with the server, or without it once exactly the delay of the options has
/// passed.
pub proof fn lemma_contract_is_two_of_three(contract: &EscrowContract, scripts: Vec<Vec<u8>>)
    requires
        call_ensures(EscrowContract::tapscripts, (contract,), scripts),
    ensures
        ({
            let options = contract.terms();
            let delay = options.unilateral_exit_delay;
            &&& scripts@.len() == 6
            &&& scripts@[0]@ == leaf_of(options.seller@, options.arbiter@, options.server@)
            &&& scripts@[1]@ == leaf_of(options.buyer@, options.arbiter@, options.server@)
            &&& scripts@[2]@ == leaf_of(options.seller@, options.buyer@, options.server@)
            &&& scripts@[3]@ == delayed_leaf_of(delay, options.seller@, options.arbiter@)
            &&& scripts@[4]@ == delayed_leaf_of(delay, options.buyer@, options.arbiter@)
            &&& scripts@[5]@ == delayed_leaf_of(delay, options.seller@, options.buyer@)
        }),
{
    let options = contract.terms();
    let delay = options.unilateral_exit_delay;
    let views = script_views(scripts@);
    assert forall|i: int| 0 <= i < 6 implies (#[trigger] scripts@[i])@ == options.leaves()[i] by {
        assert(views[i] == scripts@[i]@);
    }
    assert(options.leaves()[0] =~= leaf_of(options.seller@, options.arbiter@, options.server@));
    assert(options.leaves()[1] =~= leaf_of(options.buyer@, options.arbiter@, options.server@));
    assert(options.leaves()[2] =~= leaf_of(options.seller@, options.buyer@, options.server@));
    assert(options.leaves()[3] =~= delayed_leaf_of(delay, options.seller@, options.arbiter@));
    assert(options.leaves()[4] =~= delayed_leaf_of(delay, options.buyer@, options.arbiter@));
    assert(options.leaves()[5] =~= delayed_leaf_of(delay, options.seller@, options.buyer@));
}

/// Options make a contract exactly if the keys of seller, buyer, arbiter and server are four
/// different ones and the delay is a relative lock-time other than zero; the contract then
/// keeps them, and lives on the network that was asked for.
pub proof fn lemma_options_make_a_contract(
    options: EscrowOptions,
    network: Network,
    contract: Result<EscrowContract, ContractError>,
)
    requires
        call_ensures(EscrowContract::new, (options, network), contract),
    ensures
        ({
            let EscrowOptions { seller, buyer, arbiter, server, unilateral_exit_delay } = options;
            let are_distinct = seller@ != buyer@ && seller@ != arbiter@ && seller@ != server@
                && buyer@ != arbiter@ && buyer@ != server@ && arbiter@ != server@;
            match contract {
                Ok(contract) => {
                    &&& are_distinct
                    &&& 1 <= unilateral_exit_delay <= 0x7fff_ffff
                    &&& contract.terms() == options
                    &&& contract.on_network() == network
                },
                Err(error) => if !are_distinct {
                    error is DuplicateKeys
                } else if unilateral_exit_delay == 0 {
                    error is ZeroDelay
                } else {
                    error is NotRelativeLockTime && unilateral_exit_delay > 0x7fff_ffff
                },
            }
        }),
{
}

/// Under another server's key a contract keeps all that its parties agreed on: their keys, the
/// delay and the network. It fails exactly if the key is that of one of the parties.
pub proof fn lemma_server_can_change(
    contract: &EscrowContract,
    server: XOnlyPublicKey,
    changed: Result<EscrowContract, ContractError>,
)
    requires
        call_ensures(EscrowContract::with_server, (contract, server), changed),
    ensures
        ({
            let was = contract.terms();
            let is_party = server@ == was.seller@ || server@ == was.buyer@ || server@
                == was.arbiter@;
            match changed {
                Ok(other) => {
                    let now = other.terms();
                    &&& !is_party
                    &&& now.server@ == server@
                    &&& now.seller == was.seller
                    &&& now.buyer == was.buyer
                    &&& now.arbiter == was.arbiter
                    &&& now.unilateral_exit_delay == was.unilateral_exit_delay
                    &&& other.on_network() == contract.on_network()
                },
                Err(error) => error is DuplicateKeys && is_party,
            }
        }),
{
}

/// A contract pays to the output key of its taproot tree.
pub proof fn lemma_contract_pays_to_its_tree(contract: &EscrowContract, script: Vec<u8>)
    requires
        call_ensures(EscrowContract::script_pubkey, (contract,), script),
    ensures
        script@ == seq![0x51u8, 0x20] + taproot_output_key(
            tree_of(contract.terms()),
            unspendable_key_bytes(),
        ),
{
    lemma_tree_of(contract.terms());
    assert(script@ =~= seq![0x51u8, 0x20] + contract.terms().output_key());
}

/// The script that two parties must both sign once a delay has passed, byte for byte.
pub open spec fn delayed_leaf_of(delay: u32, first: Seq<u8>, second: Seq<u8>) -> Seq<u8> {
    push_number(delay as nat) + seq![0xb2u8, 0x75, 0x20] + first + seq![0xadu8, 0x20] + second
        + seq![0xacu8]
}

/// The taproot tree of a contract, from left to right: the depth of each leaf, and its script.
pub open spec fn tree_of(options: EscrowOptions) -> Seq<(nat, Seq<u8>)> {
    let EscrowOptions { seller, buyer, arbiter, server, unilateral_exit_delay: delay } = options;
    seq![
        (3nat, leaf_of(seller@, buyer@, server@)),
        (3nat, delayed_leaf_of(delay, seller@, arbiter@)),
        (3nat, leaf_of(seller@, arbiter@, server@)),
        (3nat, leaf_of(buyer@, arbiter@, server@)),
        (2nat, delayed_leaf_of(delay, buyer@, arbiter@)),
        (2nat, delayed_leaf_of(delay, seller@, buyer@)),
    ]
}

proof fn lemma_tree_of(options: EscrowOptions)
    ensures
        options.tree_leaves() == tree_of(options),
        forall|script: Seq<u8>| #[trigger]
            options.leaves().contains(script) <==> exists|i: int|
                0 <= i < 6 && (#[trigger] tree_of(options)[i]).1 == script,
{
    let leaves = options.leaves();
    let tree = tree_of(options);
    lemma_balanced_six(leaves);
    assert(leaves[0] =~= tree[2].1);
    assert(leaves[1] =~= tree[3].1);
    assert(leaves[2] =~= tree[0].1);
    assert(leaves[3] =~= tree[1].1);
    assert(leaves[4] =~= tree[4].1);
    assert(leaves[5] =~= tree[5].1);
    assert(options.tree_leaves() =~= tree);
    assert forall|script: Seq<u8>| #[trigger] leaves.contains(script) <==> exists|i: int|
        0 <= i < 6 && (#[trigger] tree[i]).1 == script by {
        if leaves.contains(script) {
            let i = choose|i: int| 0 <= i < leaves.len() && leaves[i] == script;
            let j = if i < 2 { i + 2 } else if i < 4 { i - 2 } else { i };
            assert(tree[j].1 == script);
        }
        if exists|i: int| 0 <= i < 6 && (#[trigger] tree[i]).1 == script {
            let i = choose|i: int| 0 <= i < 6 && (#[trigger] tree[i]).1 == script;
            let j = if i < 2 { i + 2 } else if i < 4 { i - 2 } else { i };
            assert(leaves[j] == script);
        }
    }
}

/// The address of a contract is that of its server and of its taproot tree, on its network, and
/// pays to that tree.
pub proof fn lemma_address_is_of_the_tree(contract: &EscrowContract, address: ArkAddress)
    requires
        call_ensures(EscrowContract::address, (contract,), address),
    ensures
        ({
            let key = taproot_output_key(tree_of(contract.terms()), unspendable_key_bytes());
            &&& address@ == address_text(contract.on_network(), contract.terms().server@, key)
            &&& address_script(address@) == seq![0x51u8, 0x20] + key
        }),
{
    lemma_tree_of(contract.terms());
    let key = contract.terms().output_key();
    assert(contract.terms().output_script() =~= seq![0x51u8, 0x20] + key);
}

/// Each leaf of a contract has the control block that the taproot tree gives it, and no other
/// script has one.
pub proof fn lemma_leaf_has_its_control_block(
    contract: &EscrowContract,
    script: &[u8],
    block: Result<Vec<u8>, ContractError>,
)
    requires
        call_ensures(EscrowContract::control_block, (contract, script), block),
    ensures
        ({
            let tree = tree_of(contract.terms());
            &&& block is Ok <==> exists|i: int| 0 <= i < 6 && (#[trigger] tree[i]).1 == script@
            &&& block matches Ok(b) ==> b@ == taproot_control_blocks(
                tree,
                unspendable_key_bytes(),
            )[script@]
        }),
{
    lemma_tree_of(contract.terms());
    assert(contract.terms().leaves().contains(script@) <==> exists|i: int|
        0 <= i < 6 && (#[trigger] tree_of(contract.terms())[i]).1 == script@);
}

/// Options name each leaf by its parties.
pub proof fn lemma_scripts_of_options(
    options: &EscrowOptions,
    collaborative: (Vec<u8>, Vec<u8>, Vec<u8>),
    unilateral: (Vec<u8>, Vec<u8>, Vec<u8>),
)
    requires
        call_ensures(EscrowOptions::seller_arbiter_script, (options,), collaborative.0),
        call_ensures(EscrowOptions::buyer_arbiter_script, (options,), collaborative.1),
        call_ensures(EscrowOptions::seller_buyer_script, (options,), collaborative.2),
        call_ensures(EscrowOptions::unilateral_seller_arbiter_script, (options,), unilateral.0),
        call_ensures(EscrowOptions::unilateral_buyer_arbiter_script, (options,), unilateral.1),
        call_ensures(EscrowOptions::unilateral_seller_buyer_script, (options,), unilateral.2),
    ensures
        ({
            let EscrowOptions { seller, buyer, arbiter, server, unilateral_exit_delay: delay } =
                *options;
            &&& collaborative.0@ == leaf_of(seller@, arbiter@, server@)
            &&& collaborative.1@ == leaf_of(buyer@, arbiter@, server@)
            &&& collaborative.2@ == leaf_of(seller@, buyer@, server@)
            &&& unilateral.0@ == delayed_leaf_of(delay, seller@, arbiter@)
            &&& unilateral.1@ == delayed_leaf_of(delay, buyer@, arbiter@)
            &&& unilateral.2@ == delayed_leaf_of(delay, seller@, buyer@)
        }),
{
    lemma_leaves_of(*options);
}

proof fn lemma_leaves_of(options: EscrowOptions)
    ensures
        ({
            let EscrowOptions { seller, buyer, arbiter, server, unilateral_exit_delay: delay } =
                options;
            options.leaves() == seq![
                leaf_of(seller@, arbiter@, server@),
                leaf_of(buyer@, arbiter@, server@),
                leaf_of(seller@, buyer@, server@),
                delayed_leaf_of(delay, seller@, arbiter@),
                delayed_leaf_of(delay, buyer@, arbiter@),
                delayed_leaf_of(delay, seller@, buyer@),
            ]
        }),
{
    let EscrowOptions { seller, buyer, arbiter, server, unilateral_exit_delay: delay } = options;
    let leaves = options.leaves();
    assert(leaves[0] =~= leaf_of(seller@, arbiter@, server@));
    assert(leaves[1] =~= leaf_of(buyer@, arbiter@, server@));
    assert(leaves[2] =~= leaf_of(seller@, buyer@, server@));
    assert(leaves[3] =~= delayed_leaf_of(delay, seller@, arbiter@));
    assert(leaves[4] =~= delayed_leaf_of(delay, buyer@, arbiter@));
    assert(leaves[5] =~= delayed_leaf_of(delay, seller@, buyer@));
}

/// Options are valid exactly if a contract can be made of them.
pub proof fn lemma_validation_is_exact(options: &EscrowOptions, valid: Result<(), ContractError>)
    requires
        call_ensures(EscrowOptions::validate, (options,), valid),
    ensures
        ({
            let EscrowOptions { seller, buyer, arbiter, server, unilateral_exit_delay } = *options;
            let keys = seq![seller@, buyer@, arbiter@, server@];
            &&& valid is Ok <==> keys.no_duplicates() && 1 <= unilateral_exit_delay <= 0x7fff_ffff
            &&& valid is Err ==> {
                &&& valid->Err_0 is DuplicateKeys <==> !keys.no_duplicates()
                &&& valid->Err_0 is ZeroDelay <==> keys.no_duplicates() && unilateral_exit_delay == 0
                &&& valid->Err_0 is NotRelativeLockTime <==> keys.no_duplicates()
                    && unilateral_exit_delay > 0x7fff_ffff
            }
        }),
{
    let keys = seq![options.seller@, options.buyer@, options.arbiter@, options.server@];
    if options.keys_are_distinct() {
        assert(keys.no_duplicates());
    } else if keys.no_duplicates() {
        assert(keys[0] != keys[1] && keys[0] != keys[2] && keys[0] != keys[3]);
        assert(keys[1] != keys[2] && keys[1] != keys[3] && keys[2] != keys[3]);
    }
}

} // verus!
