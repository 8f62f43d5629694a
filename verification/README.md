# lau_index_theorem

Index-theorem toolkit (Euler characteristics, Betti numbers, analytic indices
of matrix operators, characteristic numbers, heat kernels).

- `src/` — the verified library (Verus). It holds the integer and
  index-selection logic: Euler characteristics from Betti numbers, Betti
  numbers from the ranks of boundary maps (with the Euler–Poincaré formula),
  kernel/cokernel dimensions and the rank–nullity index of a matrix operator
  given its shape and rank, Stiefel–Whitney and Riemann–Roch numbers, genus
  from Euler characteristic, and which characteristic class or heat
  coefficient a number is read from.
- `app/` — the floating-point layer over `nalgebra`: SVD ranks, kernels,
  heat kernels, genera and Chern classes over `f64`, and the serde types. It
  hands shapes, ranks and slices to the verified library.
- `tests/` — tests of the verified library.
