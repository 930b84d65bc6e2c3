//! A digest is written so that it can be told from any other.
use super::{hex, hex_digit};
use vstd::prelude::*;

verus! {

proof fn digits_differ(a: u8, b: u8)
    requires
        a < 16,
        b < 16,
        hex_digit(a) == hex_digit(b),
    ensures
        a == b,
{
}

/// Bytes are written two characters each, in digits and small letters, and different
/// bytes are written differently.
pub proof fn different_bytes_are_written_differently(a: Seq<u8>, b: Seq<u8>, i: int)
    ensures
        hex(a).len() == 2 * a.len(),
        0 <= i < hex(a).len() ==> ('0' <= hex(a)[i] <= '9' || 'a' <= hex(a)[i] <= 'f'),
        hex(a) == hex(b) ==> a == b,
{
    if hex(a) == hex(b) {
        assert(hex(a).len() == 2 * a.len());
        assert(hex(b).len() == 2 * b.len());
        assert(a.len() == b.len());
        assert forall|k: int| 0 <= k < a.len() implies #[trigger] a[k] == b[k] by {
            assert(hex(a)[2 * k] == hex(b)[2 * k]);
            assert(hex(a)[2 * k + 1] == hex(b)[2 * k + 1]);
            assert((2 * k) / 2 == k && (2 * k + 1) / 2 == k);
            assert((2 * k) % 2 == 0 && (2 * k + 1) % 2 == 1);
            digits_differ((a[k] / 16) as u8, (b[k] / 16) as u8);
            digits_differ((a[k] % 16) as u8, (b[k] % 16) as u8);
        }
        assert(a =~= b);
    }
}

/// What a digit is worth.
pub open spec fn worth(c: char) -> int {
    if c <= '9' {
        c as int - '0' as int
    } else {
        c as int - 'a' as int + 10
    }
}

/// A byte is written as a number of base sixteen, the greater digit first.
pub proof fn a_byte_is_written_as_a_number(a: Seq<u8>, k: int)
    requires
        0 <= k < a.len(),
    ensures
        16 * worth(hex(a)[2 * k]) + worth(hex(a)[2 * k + 1]) == a[k],
        0 <= worth(hex(a)[2 * k]) < 16,
        0 <= worth(hex(a)[2 * k + 1]) < 16,
{
    assert((2 * k) / 2 == k && (2 * k + 1) / 2 == k);
    assert((2 * k) % 2 == 0 && (2 * k + 1) % 2 == 1);
}

} // verus!
