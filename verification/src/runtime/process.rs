//! The end of a program.

use crate::runtime::{self, SysExit};
use vstd::prelude::*;

verus! {

/// Asks to end the program.
pub fn exit(code: i32) -> (end: SysExit)
    ensures
        end.code == code,
{
    runtime::exit(code)
}

} // verus!
