//! Planning core of a blocked, multi-threaded matrix multiply
//! `D <- alpha * D + beta * L * R` on strided matrices.
//!
//! The library decides everything about a multiply that does not depend on the values of
//! the elements: the canonical form of the strides, the way a degenerate shape is handled,
//! the cache blocks and depth slices, the tiles and their kernels, the places in the packed
//! buffers, the share of every thread and the size of the scratch memory. A caller carries
//! the plan out on its memory with its floating-point kernels.
//!
//! Every function is verified against its contract. The laws that hold between the parts
//! are stated as proof functions: every output cell is written by one call of one thread in
//! every slice, every product term is computed once, no thread reads a packed panel before
//! it is packed or touches the buffer of another thread, the scratch region holds all
//! buffers, also those of every smaller multiply, and what is computed does not depend on
//! the number of threads. In exact arithmetic, and with kernels that keep their contract,
//! every plan leaves `alpha * D + beta * L * R` in the output.
//!
//! Elements for which there are no kernels are multiplied cell by cell, without a walk and
//! without scratch memory; the library says so in the plan and in the size of the region.

pub mod arith;
pub mod cache;
pub mod calls;
pub mod driver;
pub mod layout;
pub mod model;
pub mod pack;
pub mod params;
pub mod partition;
pub mod plan;
pub mod problem;
pub mod tiles;
pub mod workspace;
