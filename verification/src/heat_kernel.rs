//! Heat-kernel bookkeeping: which coefficients carry the local index density.

use vstd::prelude::*;

verus! {

/// The pair `(a_k⁺, a_k⁻)` of even and odd heat coefficients at `k = n/2`,
/// whose difference is the local index density in dimension `n`; `None`
/// (a vanishing density) when either list stops before `k`.
pub fn index_density_from_heat_kernel<'a, T>(
    dimension: usize,
    a_coefficients_even: &'a [T],
    a_coefficients_odd: &'a [T],
) -> (terms: Option<(&'a T, &'a T)>)
    ensures
        ({
            let k = dimension as int / 2;
            if k < a_coefficients_even@.len() && k < a_coefficients_odd@.len() {
                terms == Some((&a_coefficients_even@[k], &a_coefficients_odd@[k]))
            } else {
                terms == None::<(&T, &T)>
            }
        }),
{
    let k = dimension / 2;
    if k < a_coefficients_even.len() && k < a_coefficients_odd.len() {
        Some((&a_coefficients_even[k], &a_coefficients_odd[k]))
    } else {
        None
    }
}

} // verus!
