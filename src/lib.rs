//! Early bring-up layer of a bare-metal RISC-V kernel: firmware call
//! marshalling, the console request, the region sweep of runtime init, and a
//! small printf-style formatter that streams its output one byte at a time.

pub mod sbi;
pub mod memory;
pub mod kernel;
pub mod digits;
pub mod printf;
