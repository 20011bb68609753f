//! Checking Lua snippets as the campaign engine will run them: the chunks
//! run in order in one state, and the first that fails stops the run. The
//! running itself is done by the caller, since a Lua chunk need not return;
//! what to do after each chunk is decided here.
use vstd::prelude::*;

verus! {

/// What to do after running chunk `i` of `n`.
#[derive(Debug, PartialEq)]
pub enum LuaStep {
    /// The chunk failed with this error: stop and report it.
    Stop(String),
    /// The chunk ran: go on with the chunk of this number.
    Next(usize),
    /// The chunk ran and was the last one: no error.
    Done,
}

/// After chunk `i` of `n` gave `outcome`: stop with the error where it
/// failed, else go on with the next chunk, or finish when it was the last.
pub fn lua_step(n: usize, i: usize, outcome: Option<String>) -> (s: LuaStep)
    requires
        i < n,
    ensures
        match outcome {
            Some(e) => s matches LuaStep::Stop(e2) && e2@ == e@,
            None => if i + 1 < n {
                s == LuaStep::Next((i + 1) as usize)
            } else {
                s == LuaStep::Done
            },
        },
{
    match outcome {
        Some(e) => LuaStep::Stop(e),
        None => {
            if i + 1 < n {
                LuaStep::Next(i + 1)
            } else {
                LuaStep::Done
            }
        },
    }
}

} // verus!
