//! Parsing the decimal output of a terminal-size probe.
//!
//! The surrounding program asks the terminal for its column and row counts
//! and receives each answer as a line of ASCII digits; this module turns
//! such a digit string into the number it denotes. Probing the terminal
//! itself is the surrounding program's concern.

use vstd::prelude::*;

verus! {

/// Every byte is an ASCII decimal digit.
pub open spec fn is_digits(s: Seq<u8>) -> bool {
    forall|i: int| 0 <= i < s.len() ==> 48 <= #[trigger] s[i] <= 57
}

/// The number a digit string denotes, most significant digit first.
pub open spec fn digits_val(s: Seq<u8>) -> int
    decreases s.len(),
{
    if s.len() == 0 {
        0
    } else {
        digits_val(s.drop_last()) * 10 + (s.last() - 48)
    }
}

proof fn lemma_digits_val_nonneg(s: Seq<u8>)
    requires
        is_digits(s),
    ensures
        digits_val(s) >= 0,
    decreases s.len(),
{
    if s.len() > 0 {
        assert(forall|i: int| 0 <= i < s.drop_last().len() ==> s.drop_last()[i] == s[i]);
        lemma_digits_val_nonneg(s.drop_last());
    }
}

/// A prefix of a digit string denotes no more than the whole string.
proof fn lemma_digits_val_prefix(s: Seq<u8>, i: int)
    requires
        is_digits(s),
        0 <= i <= s.len(),
    ensures
        digits_val(s.take(i)) <= digits_val(s),
    decreases s.len() - i,
{
    if i == s.len() {
        assert(s.take(i) =~= s);
    } else {
        assert(s.take(i + 1).drop_last() =~= s.take(i));
        assert(forall|k: int| 0 <= k < s.take(i).len() ==> s.take(i)[k] == s[k]);
        lemma_digits_val_nonneg(s.take(i));
        assert(digits_val(s.take(i + 1)) == digits_val(s.take(i)) * 10 + (s[i] - 48));
        lemma_digits_val_prefix(s, i + 1);
    }
}

/// Parse a line of ASCII digits, as a terminal-size probe prints it, into
/// the number it denotes.
pub fn parse_tput_output(output: &Vec<u8>) -> (n: usize)
    requires
        is_digits(output@),
        digits_val(output@) <= usize::MAX,
    ensures
        n == digits_val(output@),
{
    let mut parsed: usize = 0;
    let mut i: usize = 0;
    while i < output.len()
        invariant
            is_digits(output@),
            digits_val(output@) <= usize::MAX,
            i <= output@.len(),
            parsed == digits_val(output@.take(i as int)),
        decreases output@.len() - i,
    {
        proof {
            lemma_digits_val_prefix(output@, i + 1);
            assert(output@.take(i + 1).drop_last() =~= output@.take(i as int));
            lemma_digits_val_nonneg(output@.take(i as int));
            assert(digits_val(output@.take(i + 1))
                == digits_val(output@.take(i as int)) * 10 + (output@[i as int] - 48));
        }
        let d: u8 = output[i] - 48;
        parsed = parsed * 10 + d as usize;
        i = i + 1;
    }
    proof {
        assert(output@.take(output@.len() as int) =~= output@);
    }
    parsed
}

} // verus!
