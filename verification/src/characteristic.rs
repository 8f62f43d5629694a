//! Characteristic numbers: which class is integrated, and the integer
//! invariants of curves and surfaces.

use vstd::prelude::*;

use crate::topological_index::alternating_sum;

verus! {

/// Division by two rounding toward zero, as Rust's `/` on signed integers does.
pub open spec fn half_toward_zero(x: int) -> int {
    if x >= 0 {
        x / 2
    } else {
        -((-x) / 2)
    }
}

/// Riemann–Roch for a divisor of degree `d` on a curve of genus `g`:
/// `dim H⁰(D) - dim H¹(D) = d + 1 - g`.
pub open spec fn riemann_roch_spec(degree: int, genus: int) -> int {
    degree + 1 - genus
}

/// Genus of a closed orientable surface with Euler characteristic `χ`:
/// `g = (2 - χ) / 2`, rounding toward zero.
pub open spec fn genus_spec(euler_char: int) -> int {
    half_toward_zero(2 - euler_char)
}

/// The top Stiefel–Whitney number mod 2: `1` in dimension 0, the parity of
/// `w_n` when the class is given, `0` when it is not.
pub open spec fn stiefel_whitney_spec(w: Seq<u8>, manifold_dim: int) -> u8 {
    if manifold_dim == 0 {
        1
    } else if manifold_dim > w.len() {
        0
    } else {
        (w[manifold_dim - 1] % 2) as u8
    }
}

/// Mod-2 Stiefel–Whitney number of a manifold of dimension `manifold_dim`
/// from its Stiefel–Whitney classes `w_1, w_2, ...`.
pub fn stiefel_whitney_number(w_classes: &[u8], manifold_dim: usize) -> (n: u8)
    ensures
        n == stiefel_whitney_spec(w_classes@, manifold_dim as int),
        n <= 1,
        manifold_dim == 0 ==> n == 1,
        manifold_dim > w_classes@.len() ==> n == 0,
        0 < manifold_dim <= w_classes@.len() ==> n == w_classes@[manifold_dim - 1] % 2,
{
    if manifold_dim == 0 {
        return 1;
    }
    let top_k = manifold_dim;
    if top_k > w_classes.len() {
        return 0;
    }
    w_classes[top_k - 1] % 2
}

/// Riemann–Roch for curves: `dim H⁰(D) - dim H¹(D) = deg(D) + 1 - g`.
pub fn riemann_roch_curve(degree: i64, genus: usize) -> (chi: i64)
    requires
        degree < i64::MAX,
        genus <= i64::MAX,
        i64::MIN <= degree + 1 - genus,
    ensures
        chi == riemann_roch_spec(degree as int, genus as int),
        chi == degree + 1 - genus,
{
    degree + 1 - genus as i64
}

/// Genus of a closed orientable surface from its Euler characteristic,
/// `g = (2 - χ) / 2`.
pub fn genus_from_euler(euler_char: i64) -> (g: i64)
    requires
        2 - euler_char <= i64::MAX,
    ensures
        g == genus_spec(euler_char as int),
        2 - euler_char >= 0 ==> 0 <= (2 - euler_char) - 2 * g <= 1,
        2 - euler_char < 0 ==> -1 <= (2 - euler_char) - 2 * g <= 0,
{
    (2 - euler_char) / 2
}


/// Index of the top Pontryagin class `p_{n/4}` integrated over a manifold of
/// dimension `n`, when `n` is a positive multiple of 4 and the class is given.
pub open spec fn pontryagin_top_index(num_classes: int, manifold_dim: int) -> Option<int> {
    if manifold_dim % 4 != 0 || manifold_dim / 4 == 0 || manifold_dim / 4 > num_classes {
        None
    } else {
        Some(manifold_dim / 4 - 1)
    }
}

/// The Pontryagin class whose integral is the Pontryagin number of a manifold
/// of dimension `manifold_dim`: `p_{n/4}` from `classes = [p_1, p_2, ...]`.
/// `None` stands for a vanishing number (dimension not a positive multiple of
/// 4, or the class not given).
pub fn pontryagin_number<T>(pontryagin_classes: &[T], manifold_dim: usize) -> (p: Option<&T>)
    ensures
        p == (match pontryagin_top_index(pontryagin_classes@.len() as int, manifold_dim as int) {
            Some(i) => Some(&pontryagin_classes@[i]),
            None => None,
        }),
        manifold_dim % 4 == 0 && 0 < manifold_dim / 4 <= pontryagin_classes@.len() ==> p == Some(
            &pontryagin_classes@[manifold_dim / 4 - 1],
        ),
        !(manifold_dim % 4 == 0 && 0 < manifold_dim / 4 <= pontryagin_classes@.len()) ==> p
            == None::<&T>,
{
    if manifold_dim % 4 != 0 {
        return None;
    }
    let top_k = manifold_dim / 4;
    if top_k == 0 || top_k > pontryagin_classes.len() {
        return None;
    }
    Some(&pontryagin_classes[top_k - 1])
}

/// The `n`-th term of a multiplicative sequence read from its classes.
#[derive(Debug, PartialEq)]
pub enum SequenceTerm<'a, T> {
    /// The degree-0 term, the unit 1.
    Unit,
    /// A term beyond the given classes, which vanishes.
    Vanishing,
    /// The given class of that degree.
    Class(&'a T),
}

/// The `n`-th term of the multiplicative sequence with classes
/// `[K_1, K_2, ...]`: 1 for `n = 0`, `K_n` when given, 0 beyond.
pub fn multiplicative_sequence<T>(classes: &[T], n: usize) -> (term: SequenceTerm<'_, T>)
    ensures
        n == 0 ==> term == SequenceTerm::<T>::Unit,
        n > classes@.len() ==> term == SequenceTerm::<T>::Vanishing,
        0 < n <= classes@.len() ==> term == SequenceTerm::Class(&classes@[n - 1]),
{
    if n == 0 {
        return SequenceTerm::Unit;
    }
    if n > classes.len() {
        return SequenceTerm::Vanishing;
    }
    SequenceTerm::Class(&classes[n - 1])
}

/// The top Chern class `c_r` of a bundle with Chern classes `[c_1, ..., c_r]`,
/// whose integral is the Euler number; `None` when no class is given (the
/// number then vanishes).
pub fn euler_number<T>(chern_classes: &[T]) -> (e: Option<&T>)
    ensures
        chern_classes@.len() == 0 ==> e == None::<&T>,
        chern_classes@.len() > 0 ==> e == Some(&chern_classes@.last()),
{
    if chern_classes.len() == 0 {
        None
    } else {
        Some(&chern_classes[chern_classes.len() - 1])
    }
}


/// The Stiefel–Whitney number of a manifold of positive dimension `n` with
/// `w_n` given is the parity of `w_n`: the classes below the top one do not
/// matter, and adding 2 to `w_n` leaves the number unchanged.
pub proof fn lemma_stiefel_whitney_top_parity(w: Seq<u8>, v: Seq<u8>, manifold_dim: int)
    requires
        0 < manifold_dim <= w.len(),
        0 < manifold_dim <= v.len(),
    ensures
        stiefel_whitney_spec(w, manifold_dim) as int == w[manifold_dim - 1] as int % 2,
        (w[manifold_dim - 1] as int % 2 == v[manifold_dim - 1] as int % 2) ==> stiefel_whitney_spec(
            w,
            manifold_dim,
        ) == stiefel_whitney_spec(v, manifold_dim),
{
}

/// The Pontryagin number of a manifold of dimension `4k` (`k ≥ 1`) is read
/// from `p_k`, the `k`-th given class; given classes beyond `p_k` do not
/// change which class it is.
pub proof fn lemma_pontryagin_reads_p_k(num_classes: int, more_classes: int, k: int)
    requires
        1 <= k <= num_classes <= more_classes,
    ensures
        pontryagin_top_index(num_classes, 4 * k) == Some(k - 1),
        pontryagin_top_index(more_classes, 4 * k) == pontryagin_top_index(num_classes, 4 * k),
        pontryagin_top_index(num_classes, 4 * k + 1) == None::<int>,
        pontryagin_top_index(num_classes, 4 * k + 2) == None::<int>,
        pontryagin_top_index(num_classes, 4 * k + 3) == None::<int>,
{
}

/// Riemann–Roch is `deg D + 1 - g`: raising the degree by one raises the
/// number by one, and Serre duality pairs `D` with `K - D` (degree
/// `2g - 2 - deg D`) so that the two numbers are opposite.
pub proof fn lemma_riemann_roch_laws(degree: int, genus: int)
    ensures
        riemann_roch_spec(degree, genus) == degree + 1 - genus,
        riemann_roch_spec(degree + 1, genus) == riemann_roch_spec(degree, genus) + 1,
        riemann_roch_spec(degree, genus) + riemann_roch_spec(2 * genus - 2 - degree, genus) == 0,
        riemann_roch_spec(0, genus) == 1 - genus,
{
}

/// The genus is half of `2 - χ`, rounded toward zero: twice the genus differs
/// from `2 - χ` by at most one, on the side of zero.
pub proof fn lemma_genus_halves(euler_char: int)
    ensures
        2 - euler_char >= 0 ==> 0 <= (2 - euler_char) - 2 * genus_spec(euler_char) <= 1,
        2 - euler_char < 0 ==> -1 <= (2 - euler_char) - 2 * genus_spec(euler_char) <= 0,
        euler_char % 2 == 0 ==> 2 * genus_spec(euler_char) == 2 - euler_char,
{
}

/// Betti numbers `[1, 2g, 1]` of the closed orientable surface of genus `g`.
pub open spec fn surface_betti(g: nat) -> Seq<usize> {
    seq![1usize, (2 * g) as usize, 1usize]
}

/// For the closed orientable surface of genus `g`: `χ = 2 - 2g`, the genus
/// is recovered from `χ` by `g = (2 - χ)/2`, and the degree-0 Riemann–Roch
/// number `1 - g` is half the Euler characteristic.
pub proof fn lemma_surface_genus(g: nat)
    requires
        2 * g <= usize::MAX,
    ensures
        alternating_sum(surface_betti(g)) == 2 - 2 * g,
        genus_spec(alternating_sum(surface_betti(g))) == g,
        2 * riemann_roch_spec(0, g as int) == alternating_sum(surface_betti(g)),
{
    let b = surface_betti(g);
    let b2 = seq![1usize, (2 * g) as usize];
    let b1 = seq![1usize];
    assert(b1.drop_last() =~= Seq::<usize>::empty());
    assert(b2.drop_last() =~= b1);
    assert(b.drop_last() =~= b2);
    assert(alternating_sum(Seq::<usize>::empty()) == 0);
    assert(b1.len() == 1 && b1.last() == 1);
    assert(alternating_sum(b1) == 1);
    assert(alternating_sum(b2) == 1 - 2 * g);
    assert(alternating_sum(b) == 2 - 2 * g);
    assert(genus_spec(2 - 2 * g) == g);
}

} // verus!
