//! Numbers written out as text.
use vstd::prelude::*;

verus! {

/// The decimal digits of `n`, most significant first.
pub open spec fn digits(n: nat) -> Seq<char>
    decreases n,
{
    if n < 10 {
        seq![(48 + n) as char]
    } else {
        digits(n / 10).push((48 + n % 10) as char)
    }
}

/// Calls `ToString::to_string` on a `usize`, which writes its decimal digits.
#[verifier::external_body]
pub(crate) fn usize_text(n: usize) -> (r: String)
    ensures
        r@ == digits(n as nat),
{
    n.to_string()
}

} // verus!
