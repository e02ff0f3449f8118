//! Leaf scripts, byte for byte.

use vstd::prelude::*;

use crate::keys::XOnlyPublicKey;

verus! {

/// Pushes the number 1.
pub const OP_PUSHNUM_1: u8 = 0x51;

/// Drops the top stack item.
pub const OP_DROP: u8 = 0x75;

/// Checks a signature and leaves the answer on the stack.
pub const OP_CHECKSIG: u8 = 0xac;

/// Checks a signature and fails the script if it is wrong.
pub const OP_CHECKSIGVERIFY: u8 = 0xad;

/// Fails the script unless the input's relative lock-time has passed.
pub const OP_CSV: u8 = 0xb2;

// -- What the pushes write --

/// The bytes that push 32 bytes of data.
pub open spec fn push_32(data: Seq<u8>) -> Seq<u8> {
    seq![32u8] + data
}

/// `n` in little-endian bytes, with no more bytes than it takes.
pub open spec fn le_bytes(n: nat) -> Seq<u8>
    decreases n,
{
    if n <= 0xff {
        seq![n as u8]
    } else {
        seq![(n % 256) as u8] + le_bytes(n / 256)
    }
}

/// `n` as a script number: little-endian, with room for the sign bit.
pub open spec fn script_number(n: nat) -> Seq<u8> {
    if le_bytes(n).last() >= 0x80 {
        le_bytes(n).push(0u8)
    } else {
        le_bytes(n)
    }
}

/// The bytes that push `n`: one opcode for the numbers up to 16, and the script
/// number behind its length for the others.
pub open spec fn push_number(n: nat) -> Seq<u8> {
    if n == 0 {
        seq![0u8]
    } else if n <= 16 {
        seq![(0x50 + n) as u8]
    } else {
        seq![script_number(n).len() as u8] + script_number(n)
    }
}

/// A script that `first`, `second` and `third` must all sign.
pub open spec fn three_signatures(first: Seq<u8>, second: Seq<u8>, third: Seq<u8>) -> Seq<u8> {
    push_32(first) + seq![OP_CHECKSIGVERIFY] + push_32(second) + seq![OP_CHECKSIGVERIFY] + push_32(
        third,
    ) + seq![OP_CHECKSIG]
}

/// A script that `first` and `second` must both sign, once the relative lock-time
/// `delay` has passed.
pub open spec fn delayed_two_signatures(delay: u32, first: Seq<u8>, second: Seq<u8>) -> Seq<u8> {
    push_number(delay as nat) + seq![OP_CSV, OP_DROP] + push_32(first) + seq![OP_CHECKSIGVERIFY]
        + push_32(second) + seq![OP_CHECKSIG]
}

/// The output script of the taproot output key `key`.
pub open spec fn taproot_output_script(key: Seq<u8>) -> Seq<u8> {
    seq![OP_PUSHNUM_1] + push_32(key)
}

// -- The script builder --

/// Calls `bitcoin::script::Builder::push_opcode`.
///
/// Claimed of it: it appends the opcode's byte to the script.
#[verifier::external_body]
fn push_opcode(script: Vec<u8>, opcode: u8) -> (longer: Vec<u8>)
    ensures
        longer@ == script@.push(opcode),
{
    bitcoin::script::Builder::from(script).push_opcode(bitcoin::Opcode::from(opcode)).into_bytes()
}

/// Calls `bitcoin::script::Builder::push_slice` on 32 bytes.
///
/// Claimed of it: it appends the length of the data in one byte, then the data.
#[verifier::external_body]
fn push_slice(script: Vec<u8>, data: [u8; 32]) -> (longer: Vec<u8>)
    ensures
        longer@ == script@ + push_32(data@),
{
    bitcoin::script::Builder::from(script).push_slice(data).into_bytes()
}

/// Calls `bitcoin::script::Builder::push_int` on a number that is not negative.
///
/// Claimed of it: it appends the shortest push of the number.
#[verifier::external_body]
fn push_int(script: Vec<u8>, number: i64) -> (longer: Vec<u8>)
    requires
        0 <= number,
    ensures
        longer@ == script@ + push_number(number as nat),
{
    bitcoin::script::Builder::from(script).push_int(number).into_bytes()
}

/// Pushes a key.
fn push_x_only_key(script: Vec<u8>, key: &XOnlyPublicKey) -> (longer: Vec<u8>)
    ensures
        longer@ == script@ + push_32(key@),
{
    push_slice(script, key.serialize())
}

// -- Leaf scripts --

/// The collaborative leaf of two parties and the server.
pub fn collaborative_3of3(
    pk_a: &XOnlyPublicKey,
    pk_b: &XOnlyPublicKey,
    server: &XOnlyPublicKey,
) -> (script: Vec<u8>)
    ensures
        script@ == three_signatures(pk_a@, pk_b@, server@),
{
    let script: Vec<u8> = Vec::new();
    let script = push_x_only_key(script, pk_a);
    let script = push_opcode(script, OP_CHECKSIGVERIFY);
    let script = push_x_only_key(script, pk_b);
    let script = push_opcode(script, OP_CHECKSIGVERIFY);
    let script = push_x_only_key(script, server);
    let script = push_opcode(script, OP_CHECKSIG);
    assert(script@ =~= three_signatures(pk_a@, pk_b@, server@));
    script
}

/// The unilateral leaf of two parties, open once `delay` has passed.
pub fn unilateral_2of2(delay: u32, pk_a: &XOnlyPublicKey, pk_b: &XOnlyPublicKey) -> (script: Vec<
    u8,
>)
    ensures
        script@ == delayed_two_signatures(delay, pk_a@, pk_b@),
{
    let script: Vec<u8> = Vec::new();
    let script = push_int(script, delay as i64);
    let script = push_opcode(script, OP_CSV);
    let script = push_opcode(script, OP_DROP);
    let script = push_x_only_key(script, pk_a);
    let script = push_opcode(script, OP_CHECKSIGVERIFY);
    let script = push_x_only_key(script, pk_b);
    let script = push_opcode(script, OP_CHECKSIG);
    assert(script@ =~= delayed_two_signatures(delay, pk_a@, pk_b@));
    script
}

/// The output script that pays to a taproot output key.
pub fn taproot_script_pubkey(output_key: [u8; 32]) -> (script: Vec<u8>)
    ensures
        script@ == taproot_output_script(output_key@),
{
    let script: Vec<u8> = Vec::new();
    let script = push_opcode(script, OP_PUSHNUM_1);
    let script = push_slice(script, output_key);
    assert(script@ =~= taproot_output_script(output_key@));
    script
}

// -- What tells scripts apart --

/// Different numbers have different little-endian bytes.
proof fn lemma_le_bytes_injective(n: nat, m: nat)
    requires
        le_bytes(n) == le_bytes(m),
    ensures
        n == m,
    decreases n,
{
    let a = le_bytes(n);
    let b = le_bytes(m);
    if n <= 0xff {
        if m > 0xff {
            lemma_le_bytes_ends(m / 256);
            assert(b.len() > 1);
            assert(a.len() == 1);
        } else {
            assert(a[0] == n as u8);
            assert(b[0] == m as u8);
        }
    } else {
        lemma_le_bytes_ends(n / 256);
        assert(a.len() > 1);
        assert(m > 0xff) by {
            if m <= 0xff {
                assert(b.len() == 1);
            }
        }
        assert(a[0] == (n % 256) as u8);
        assert(b[0] == (m % 256) as u8);
        assert(n % 256 == m % 256);
        assert(le_bytes(n / 256) =~= a.skip(1));
        assert(le_bytes(m / 256) =~= b.skip(1));
        lemma_le_bytes_injective(n / 256, m / 256);
        assert(n == 256 * (n / 256) + n % 256);
        assert(m == 256 * (m / 256) + m % 256);
    }
}

/// The last of the little-endian bytes is zero only for zero itself.
proof fn lemma_le_bytes_ends(n: nat)
    ensures
        le_bytes(n).len() >= 1,
        n > 0 ==> le_bytes(n).last() > 0,
    decreases n,
{
    if n > 0xff {
        lemma_le_bytes_ends(n / 256);
        assert(le_bytes(n).last() == le_bytes(n / 256).last());
    }
}

/// Little-endian bytes are short: one byte for each factor of 256.
proof fn lemma_le_bytes_len(n: nat)
    requires
        n <= u32::MAX,
    ensures
        le_bytes(n).len() <= 4,
{
    reveal_with_fuel(le_bytes, 5);
}

/// Different numbers are pushed by different bytes.
pub proof fn lemma_push_number_injective(n: u32, m: u32)
    ensures
        push_number(n as nat) == push_number(m as nat) ==> n == m,
{
    if push_number(n as nat) == push_number(m as nat) {
        let a = push_number(n as nat);
        let b = push_number(m as nat);
        lemma_le_bytes_ends(n as nat);
        lemma_le_bytes_ends(m as nat);
        assert(a[0] == b[0]);
        if n > 16 && m > 16 {
            assert(script_number(n as nat) =~= a.skip(1));
            assert(script_number(m as nat) =~= b.skip(1));
            let s = script_number(n as nat);
            // A script number ends in a zero byte exactly when one was added.
            if s.last() == 0 {
                assert(le_bytes(n as nat) =~= s.drop_last());
                assert(le_bytes(m as nat) =~= s.drop_last());
            }
            lemma_le_bytes_injective(n as nat, m as nat);
        }
    }
}

/// Unilateral leaves with different delays are different scripts.
pub proof fn lemma_delay_shows_in_script(
    delay: u32,
    first: Seq<u8>,
    second: Seq<u8>,
    other_delay: u32,
    other_first: Seq<u8>,
    other_second: Seq<u8>,
)
    requires
        first.len() == 32,
        second.len() == 32,
        other_first.len() == 32,
        other_second.len() == 32,
    ensures
        delayed_two_signatures(delay, first, second) == delayed_two_signatures(
            other_delay,
            other_first,
            other_second,
        ) ==> delay == other_delay && first == other_first && second == other_second,
{
    let a = delayed_two_signatures(delay, first, second);
    let b = delayed_two_signatures(other_delay, other_first, other_second);
    if a == b {
        let n = push_number(delay as nat);
        let at = n.len() as int;
        let m = push_number(other_delay as nat);
        assert(a.len() == n.len() + 70);
        assert(b.len() == m.len() + 70);
        assert(n =~= a.take(at));
        assert(m =~= a.take(at));
        lemma_push_number_injective(delay, other_delay);
        assert(first =~= a.subrange(at + 3, at + 35));
        assert(other_first =~= b.subrange(at + 3, at + 35));
        assert(second =~= a.subrange(at + 37, at + 69));
        assert(other_second =~= b.subrange(at + 37, at + 69));
    }
}

/// Collaborative leaves of different keys are different scripts.
pub proof fn lemma_signers_show_in_script(
    first: Seq<u8>,
    second: Seq<u8>,
    third: Seq<u8>,
    other_first: Seq<u8>,
    other_second: Seq<u8>,
    other_third: Seq<u8>,
)
    requires
        first.len() == 32,
        second.len() == 32,
        third.len() == 32,
        other_first.len() == 32,
        other_second.len() == 32,
        other_third.len() == 32,
    ensures
        three_signatures(first, second, third) == three_signatures(
            other_first,
            other_second,
            other_third,
        ) ==> first == other_first && second == other_second && third == other_third,
{
    let a = three_signatures(first, second, third);
    let b = three_signatures(other_first, other_second, other_third);
    if a == b {
        assert(first =~= a.subrange(1, 33));
        assert(other_first =~= b.subrange(1, 33));
        assert(second =~= a.subrange(35, 67));
        assert(other_second =~= b.subrange(35, 67));
        assert(third =~= a.subrange(69, 101));
        assert(other_third =~= b.subrange(69, 101));
    }
}

/// A collaborative leaf is never a unilateral one.
pub proof fn lemma_leaf_kinds_differ(
    delay: u32,
    first: Seq<u8>,
    second: Seq<u8>,
    other_first: Seq<u8>,
    other_second: Seq<u8>,
    other_third: Seq<u8>,
)
    requires
        first.len() == 32,
        second.len() == 32,
        other_first.len() == 32,
        other_second.len() == 32,
        other_third.len() == 32,
    ensures
        delayed_two_signatures(delay, first, second) != three_signatures(
            other_first,
            other_second,
            other_third,
        ),
{
    lemma_le_bytes_len(delay as nat);
    let a = delayed_two_signatures(delay, first, second);
    let b = three_signatures(other_first, other_second, other_third);
    assert(a.len() <= 70 + 6);
    assert(b.len() == 102);
}

/// How long leaf scripts are.
pub proof fn lemma_leaf_lengths(delay: u32, first: Seq<u8>, second: Seq<u8>, third: Seq<u8>)
    requires
        first.len() == 32,
        second.len() == 32,
        third.len() == 32,
    ensures
        three_signatures(first, second, third).len() == 102,
        delayed_two_signatures(delay, first, second).len() <= 76,
{
    assert(le_bytes(delay as nat).len() <= 4) by {
        reveal_with_fuel(le_bytes, 4);
    }
}

/// The number that script bytes stand for: least significant byte first.
pub open spec fn number_of(bytes: Seq<u8>) -> nat
    decreases bytes.len(),
{
    if bytes.len() == 0 {
        0
    } else {
        bytes[0] as nat + 256 * number_of(bytes.skip(1))
    }
}

/// A delay is pushed as itself: small numbers as an opcode, others as bytes that stand for the
/// number, are not negative, and are as many as the first byte says.
pub proof fn lemma_pushed_number_is_the_number(n: u32)
    ensures
        ({
            let pushed = push_number(n as nat);
            &&& n == 0 ==> pushed == seq![0u8]
            &&& 1 <= n <= 16 ==> pushed == seq![(0x50 + n) as u8]
            &&& n > 16 ==> {
                &&& pushed.len() == pushed[0] + 1 && pushed[0] <= 5
                &&& pushed.last() < 0x80
                &&& number_of(pushed.skip(1)) == n
            }
        }),
{
    if n > 16 {
        let bytes = script_number(n as nat);
        lemma_le_bytes_len(n as nat);
        lemma_le_bytes_ends(n as nat);
        lemma_number_of(n as nat);
        assert(push_number(n as nat).skip(1) =~= bytes);
        if le_bytes(n as nat).last() >= 0x80 {
            lemma_number_with_zero(le_bytes(n as nat));
        }
    }
}

proof fn lemma_number_of(n: nat)
    ensures
        number_of(le_bytes(n)) == n,
    decreases n,
{
    reveal_with_fuel(number_of, 2);
    if n > 0xff {
        lemma_number_of(n / 256);
        assert(le_bytes(n).skip(1) =~= le_bytes(n / 256));
        assert(n == 256 * (n / 256) + n % 256);
    }
}

proof fn lemma_number_with_zero(bytes: Seq<u8>)
    ensures
        number_of(bytes.push(0u8)) == number_of(bytes),
    decreases bytes.len(),
{
    reveal_with_fuel(number_of, 2);
    if bytes.len() > 0 {
        lemma_number_with_zero(bytes.skip(1));
        assert(bytes.push(0u8).skip(1) =~= bytes.skip(1).push(0u8));
    }
}

/// Collaborative leaves take three signatures, byte for byte.
pub proof fn lemma_collaborative_leaf(
    pk_a: &XOnlyPublicKey,
    pk_b: &XOnlyPublicKey,
    server: &XOnlyPublicKey,
    script: Vec<u8>,
)
    requires
        call_ensures(collaborative_3of3, (pk_a, pk_b, server), script),
    ensures
        script@ == seq![0x20u8] + pk_a@ + seq![0xadu8, 0x20] + pk_b@ + seq![0xadu8, 0x20] + server@
            + seq![0xacu8],
{
    assert(script@ =~= seq![0x20u8] + pk_a@ + seq![0xadu8, 0x20] + pk_b@ + seq![0xadu8, 0x20]
        + server@ + seq![0xacu8]);
}

/// Unilateral leaves take the delay and two signatures, byte for byte.
pub proof fn lemma_unilateral_leaf(
    delay: u32,
    pk_a: &XOnlyPublicKey,
    pk_b: &XOnlyPublicKey,
    script: Vec<u8>,
)
    requires
        call_ensures(unilateral_2of2, (delay, pk_a, pk_b), script),
    ensures
        script@ == push_number(delay as nat) + seq![0xb2u8, 0x75, 0x20] + pk_a@ + seq![
            0xadu8,
            0x20,
        ] + pk_b@ + seq![0xacu8],
{
    assert(script@ =~= push_number(delay as nat) + seq![0xb2u8, 0x75, 0x20] + pk_a@ + seq![
        0xadu8,
        0x20,
    ] + pk_b@ + seq![0xacu8]);
}

} // verus!
