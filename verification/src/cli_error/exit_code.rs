//! Deterministic process exit codes; scripts can branch on them without parsing stderr.
use vstd::prelude::*;

verus! {

pub const SUCCESS: i32 = 0;
pub const GENERAL_ERROR: i32 = 1;
pub const AUTH_ERROR: i32 = 2;
pub const API_ERROR: i32 = 3;
pub const CONFIG_ERROR: i32 = 4;
pub const IO_ERROR: i32 = 5;
pub const TIMEOUT_ERROR: i32 = 6;
pub const RATE_LIMIT_ERROR: i32 = 7;
pub const NOT_FOUND_ERROR: i32 = 8;
pub const INVALID_INPUT_ERROR: i32 = 9;

} // verus!
