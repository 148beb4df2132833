use vstd::prelude::*;

verus! {

/// Eight bits could not be packed into a byte.
#[derive(Debug, PartialEq, Eq)]
pub enum BitsError {
    /// The input does not hold exactly eight values.
    WrongLength,
    /// A value of the input is neither 0 nor 1.
    InvalidBit,
}

/// Every value of the sequence is 0 or 1.
pub open spec fn all_bits(bits: Seq<u8>) -> bool {
    forall|i: int| 0 <= i < bits.len() ==> #[trigger] bits[i] <= 1
}

/// The number that the bits spell, the first bit being the highest.
pub open spec fn bits_value(bits: Seq<u8>) -> nat
    decreases bits.len(),
{
    if bits.len() == 0 {
        0
    } else {
        2 * bits_value(bits.drop_last()) + bits.last() as nat
    }
}

/// The largest number that `count` bits can spell, plus one.
pub open spec fn bits_limit(count: nat) -> nat
    decreases count,
{
    if count == 0 {
        1
    } else {
        2 * bits_limit((count - 1) as nat)
    }
}

/// Bits spell a number below the limit of their count.
pub proof fn lemma_bits_value_bound(bits: Seq<u8>)
    requires
        all_bits(bits),
    ensures
        bits_value(bits) < bits_limit(bits.len()),
    decreases bits.len(),
{
    if bits.len() > 0 {
        lemma_bits_value_bound(bits.drop_last());
    }
}

/// Packs eight bits into a byte, the first bit being the highest. The input
/// must hold exactly eight values, each 0 or 1.
pub fn bits_to_u8(bits: &[u8]) -> (result: Result<u8, BitsError>)
    ensures
        match result {
            Ok(byte) => bits@.len() == 8 && all_bits(bits@) && byte == bits_value(bits@),
            Err(BitsError::WrongLength) => bits@.len() != 8,
            Err(BitsError::InvalidBit) => bits@.len() == 8 && !all_bits(bits@),
        },
{
    if bits.len() != 8 {
        return Err(BitsError::WrongLength);
    }
    let mut value: u8 = 0;
    let mut i: usize = 0;
    while i < 8
        invariant
            bits@.len() == 8,
            i <= 8,
            all_bits(bits@.take(i as int)),
            value == bits_value(bits@.take(i as int)),
        decreases 8 - i,
    {
        let bit = bits[i];
        if bit != 0 && bit != 1 {
            return Err(BitsError::InvalidBit);
        }
        proof {
            let next = bits@.take(i + 1);
            assert(next.drop_last() =~= bits@.take(i as int));
            lemma_bits_value_bound(next);
            reveal_with_fuel(bits_limit, 9);
        }
        value = value * 2 + bit;
        i += 1;
    }
    assert(bits@.take(8) =~= bits@);
    Ok(value)
}

} // verus!
