//! Bounds-checked, zero-copy decoding of Rockchip firmware images.
//!
//! An image nests three layers. The outer `RKFW` container carries a boot
//! blob and an embedded `RKAF` archive; the archive carries a table of named
//! partitions; the partition called `parameter` carries a `PARM` table.
//! Every decoder takes an immutable byte buffer, validates each offset and
//! length against the buffer's real size, and returns views that borrow from
//! that buffer.
//!
//! Each decoder is specified by a pure function on `Seq<u8>`; the executable
//! code is proved to compute exactly that function.

pub mod error;
pub mod wire;
pub mod field;
pub mod rkfw;
pub mod rkaf;
pub mod parameter_table;

pub use error::DecodeError;
