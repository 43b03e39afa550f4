//! The codes of [`ErrorMessage`](super::ErrorMessage).

use vstd::prelude::*;

verus! {

pub const VERSION_MISMATCH: u32 = 1001;

pub const AUTH_FAILED: u32 = 1002;

pub const FILE_NOT_FOUND: u32 = 2001;

pub const PERMISSION_DENIED: u32 = 2002;

pub const TRANSFER_FAILED: u32 = 3001;

pub const CHECKSUM_MISMATCH: u32 = 3002;

pub const NODE_UNREACHABLE: u32 = 4001;

pub const TIMEOUT: u32 = 4002;

} // verus!
