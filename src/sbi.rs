//! The firmware call convention (SBI): a request maps one-to-one onto the
//! argument registers `a0..a7`, and a call returns an `(error, value)` pair.

use vstd::prelude::*;

verus! {

/// Extension identifier of the legacy "console putchar" extension.
pub const CONSOLE_PUTCHAR_EID: isize = 1;

/// Function identifier used with the legacy console putchar extension.
pub const CONSOLE_PUTCHAR_FID: isize = 0;

/// The result of a firmware call: `a0` holds the error code (zero is
/// success) and `a1` the returned value. No interpretation is applied.
pub struct SBIRet {
    pub error: isize,
    pub value: isize,
}

/// A firmware call request. Each field is the value for one register:
/// `arg0..arg5` go to `a0..a5`, `fid` to `a6` and `eid` to `a7`.
#[derive(Clone, Copy, PartialEq, Eq, Structural)]
pub struct SbiCall {
    pub arg0: isize,
    pub arg1: isize,
    pub arg2: isize,
    pub arg3: isize,
    pub arg4: isize,
    pub arg5: isize,
    pub fid: isize,
    pub eid: isize,
}

impl SbiCall {
    /// The request that emits one byte on the console: the byte in the first
    /// argument, every other argument zero, and the legacy console putchar
    /// extension and function identifiers.
    pub open spec fn is_console_putchar(self, ch: u8) -> bool {
        &&& self.arg0 == ch as isize
        &&& self.arg1 == 0
        &&& self.arg2 == 0
        &&& self.arg3 == 0
        &&& self.arg4 == 0
        &&& self.arg5 == 0
        &&& self.fid == CONSOLE_PUTCHAR_FID
        &&& self.eid == CONSOLE_PUTCHAR_EID
    }
}

/// Builds the single firmware call that emits `ch` on the console. The
/// call's result is meant to be discarded: the legacy extension defines no
/// actionable error.
pub fn putchar(ch: u8) -> (r: SbiCall)
    ensures
        r.is_console_putchar(ch),
{
    SbiCall {
        arg0: ch as isize,
        arg1: 0,
        arg2: 0,
        arg3: 0,
        arg4: 0,
        arg5: 0,
        fid: CONSOLE_PUTCHAR_FID,
        eid: CONSOLE_PUTCHAR_EID,
    }
}

} // verus!
