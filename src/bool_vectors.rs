//! Boolean vectors read as binary numbers, least significant bit first, used to enumerate
//! the valuations of a network's inputs.

use vstd::prelude::*;
use crate::text::push_char;

verus! {

/// `bits` with the first `k` positions cleared and position `k` set: the successor of a
/// number whose lowest zero bit is `k`.
pub open spec fn increment_at(bits: Seq<bool>, k: int) -> Seq<bool> {
    Seq::new(bits.len(), |j: int| if j < k { false } else if j == k { true } else { bits[j] })
}

/// The binary successor of a vector: the lowest zero bit is set and the ones below it are
/// cleared. A vector of ones has no successor of the same length and gives `finished`.
pub fn next_bool_val(bool_vec: Vec<bool>) -> (r: Result<Vec<bool>, String>)
    ensures
        (forall|j: int| 0 <= j < bool_vec@.len() ==> bool_vec@[j]) ==> (r matches Err(e) && e@
            == "finished"@),
        forall|k: int|
            0 <= k < bool_vec@.len() && !bool_vec@[k] && (forall|j: int|
                0 <= j < k ==> bool_vec@[j]) ==> (r matches Ok(v) && v@ == increment_at(
                bool_vec@,
                k,
            )),
{
    let ghost orig = bool_vec@;
    let mut bits = bool_vec;
    let mut i: usize = 0;
    while i < bits.len() && bits[i]
        invariant
            orig.len() == bits@.len(),
            i <= orig.len(),
            forall|j: int| 0 <= j < i ==> orig[j],
            forall|j: int| 0 <= j < i ==> !bits@[j],
            forall|j: int| i <= j < orig.len() ==> bits@[j] == orig[j],
        decreases orig.len() - i,
    {
        bits.set(i, false);
        i = i + 1;
    }
    if i == bits.len() {
        return Err(String::from_str("finished"));
    }
    assert(!orig[i as int]);
    bits.set(i, true);
    assert(bits@ =~= increment_at(orig, i as int));
    assert forall|k: int|
        0 <= k < orig.len() && !orig[k] && (forall|j: int| 0 <= j < k ==> orig[j]) implies k
        == i by {
        if k < i {
            assert(orig[k]);
        }
        if k > i {
            assert(orig[i as int]);
        }
    }
    Ok(bits)
}

/// The text of a vector: `1` for each true value and `0` for each false one.
pub open spec fn bits_text(bits: Seq<bool>) -> Seq<char> {
    bits.map_values(|b: bool| if b { '1' } else { '0' })
}

/// Writes a Boolean vector as a string of `1` and `0`.
pub fn bool_vec_to_string(bool_vec: Vec<bool>) -> (r: String)
    ensures
        r@ == bits_text(bool_vec@),
{
    let mut s = String::new();
    let mut i: usize = 0;
    while i < bool_vec.len()
        invariant
            i <= bool_vec@.len(),
            s@ == bits_text(bool_vec@.take(i as int)),
        decreases bool_vec@.len() - i,
    {
        push_char(&mut s, if bool_vec[i] { '1' } else { '0' });
        assert(s@ =~= bits_text(bool_vec@.take(i + 1)));
        i = i + 1;
    }
    assert(bool_vec@.take(bool_vec@.len() as int) =~= bool_vec@);
    s
}

/// The binary digits of a positive number, least significant first; none for `d <= 0`.
pub open spec fn bits_of(d: int) -> Seq<bool>
    decreases d,
{
    if d <= 0 {
        Seq::empty()
    } else {
        seq![d % 2 == 1] + bits_of(d / 2)
    }
}

/// `2^k`.
pub open spec fn pow2(k: nat) -> int
    decreases k,
{
    if k == 0 {
        1
    } else {
        2 * pow2((k - 1) as nat)
    }
}

/// A number below `2^k` has at most `k` binary digits.
pub proof fn lemma_bits_of_len(d: int, k: nat)
    requires
        d < pow2(k),
    ensures
        bits_of(d).len() <= k,
    decreases k,
{
    if d > 0 && k > 0 {
        lemma_bits_of_len(d / 2, (k - 1) as nat);
    } else if d > 0 {
        assert(pow2(0) == 1);
    }
}

/// The binary digits of `decimal` (least significant first), padded with false values to
/// `inputs_num` positions.
pub open spec fn padded_bits(decimal: int, inputs_num: int) -> Seq<bool> {
    let b = bits_of(decimal);
    b + Seq::new(if inputs_num > b.len() { (inputs_num - b.len()) as nat } else { 0 }, |j: int| false)
}

/// The binary digits of a number, least significant first, padded with false values to
/// `inputs_num` positions; a number that is not positive has no digits.
pub fn int_to_bool_vec(decimal: i32, inputs_num: i32) -> (r: Vec<bool>)
    requires
        inputs_num >= i32::MIN + 31,
    ensures
        r@ == padded_bits(decimal as int, inputs_num as int),
{
    let ghost orig = decimal as int;
    let mut decimal = decimal;
    let mut bits: Vec<bool> = Vec::new();
    proof {
        reveal_with_fuel(pow2, 32);
        lemma_bits_of_len(orig, 31);
    }
    while decimal > 0
        invariant
            bits@ + bits_of(decimal as int) == bits_of(orig),
            bits_of(orig).len() <= 31,
        decreases decimal,
    {
        let ghost rest = bits_of(decimal as int);
        assert(rest == seq![decimal % 2 == 1] + bits_of((decimal / 2) as int));
        bits.push(decimal % 2 == 1);
        decimal = decimal / 2;
        assert(bits@ + bits_of(decimal as int) =~= bits_of(orig));
    }
    assert(bits@ =~= bits_of(orig));
    let mut missing_bits: i32 = inputs_num - bits.len() as i32;
    let ghost b = bits_of(orig);
    while missing_bits > 0
        invariant
            bits@.len() >= b.len(),
            bits@.subrange(0, b.len() as int) == b,
            forall|j: int| b.len() <= j < bits@.len() ==> !bits@[j],
            missing_bits == inputs_num - bits@.len(),
            b.len() <= 31,
            bits@.len() == b.len() || bits@.len() <= inputs_num,
        decreases missing_bits,
    {
        bits.push(false);
        missing_bits = missing_bits - 1;
        assert(bits@.subrange(0, b.len() as int) =~= b);
    }
    assert(bits@ =~= padded_bits(orig, inputs_num as int));
    bits
}

} // verus!
