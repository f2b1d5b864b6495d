//! Output.

use crate::runtime::{self, SysWrite};
use vstd::prelude::*;

verus! {

/// Asks to write `bytes` to the output stream.
pub fn write_stdout(bytes: &[u8]) -> (write: SysWrite)
    ensures
        write@ == runtime::to_stdout(bytes@),
{
    runtime::write_stdout(bytes)
}

/// Asks to write `bytes` to the error stream.
pub fn write_stderr(bytes: &[u8]) -> (write: SysWrite)
    ensures
        write@ == runtime::to_stderr(bytes@),
{
    runtime::write_stderr(bytes)
}

/// Asks to write a text and a line break.
pub fn puts(s: &str) -> (writes: Vec<SysWrite>)
    ensures
        runtime::views(writes@) == seq![
            runtime::to_stdout(runtime::utf8(s@)),
            runtime::to_stdout(runtime::newline()),
        ],
{
    runtime::puts(s)
}

} // verus!
