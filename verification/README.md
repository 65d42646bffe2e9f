# image_undistorter

A distorted frame is described by points along its four edges. Each edge is
interpolated by a Lagrange polynomial (through the `polynomial` crate), and the
four interpolations give an environment that maps points out of the distortion
(`from_distorted`) and, by a fixed-point iteration with 2x2 matrices, back into
it (`to_distorted`).

The library is written in Verus and verified:

- `src/point.rs`, `src/matrix.rs`, `src/util.rs`: points, 2x2 matrices and
  linear interpolation. The generic operations are specified for any scalar
  whose arithmetic follows vstd's operator specifications; inversion and the
  identity and zero matrices are for `i64`.
- `src/poly.rs`: the calls into the `polynomial` crate, with the contracts the
  library relies on.
- `src/values.rs`: the value of a polynomial given by its coefficients, and
  how it follows the operations on coefficients.
- `src/environment.rs`: the environment over `i64` coordinates, with exact
  contracts over a model of its polynomials; `assemble_environment` builds it
  from given interpolations.
- `src/checks.rs`: runtime tests of the conditions under which the operations
  stay within `i64`, for callers that cannot establish them otherwise.

`app/main.rs` is a small program that builds an environment and prints the
iteration.
