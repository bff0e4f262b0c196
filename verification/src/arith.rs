//! Arithmetic facts the codecs share.
use vstd::prelude::*;

verus! {

/// Whole multiples of `unit` that are counted from `len` by division never
/// go beyond `len`.
pub proof fn lemma_multiples_fit(n: nat, len: nat, unit: nat)
    requires
        unit > 0,
        n <= len / unit,
    ensures
        n * unit <= len,
{
    vstd::arithmetic::div_mod::lemma_fundamental_div_mod(len as int, unit as int);
    assert(n * unit <= (len / unit) * unit) by (nonlinear_arith)
        requires
            n <= len / unit,
            unit > 0,
    ;
    assert(unit * (len / unit) == (len / unit) * unit) by (nonlinear_arith);
}

} // verus!
