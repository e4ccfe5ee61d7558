# vortx

Tensor layouts for GPU compute: the sizes, strides, rank and offset that
describe a view over a flat buffer, and the operations that derive one view
from another (reshape, view, narrow, index, transpose, permute, squeeze,
unsqueeze, broadcast, ...).

- `src/` is the library, verified with Verus.
  - `shapes.rs`: `TensorLayout` and its operations, `GpuTensorLayout`.
  - `model.rs`: the mathematical model of a layout (`LayoutView`) and what
    each operation does to it; the contracts of `shapes.rs` are stated over it.
  - `products.rs`: products of sizes and the lemmas about them.
  - `laws.rs`: properties that hold across operations (contiguity of packed
    layouts, element counts kept by transposition, permutation, squeezing,
    symmetry of broadcasting, ...).
- `app/` holds what works with the GPU itself: tensor views over GPU
  buffers, the cache of uniform buffers holding layouts, and the `f32`
  matrix helpers of the shaders.
- `tests/` runs the library on concrete layouts.
