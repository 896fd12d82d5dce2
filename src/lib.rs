//! Memory Manager emulation for classic Macintosh programs: a heap of fixed
//! and movable blocks inside the guest's address space, an overlap-safe copy,
//! the handlers behind the emulated API calls, and the AppleDouble format
//! that such programs are stored in.

pub mod apple_double;
pub mod heap;
pub mod memory;
pub mod shims;
