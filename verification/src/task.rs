//! The air tasks that the Dynamic Campaign Engine knows, and how a task written
//! in any letter case is matched to the spelling the engine requires.
use vstd::prelude::*;
use crate::text::{all_ascii, ascii_lower, ascii_lowered, ascii_upper, ascii_uppered, lowercase_of, str_eq, to_lowercase};

verus! {

/// An air task of the campaign engine.
#[derive(Debug, Clone, Copy, PartialEq, Eq, Hash, Structural)]
pub enum Task {
    Strike,
    AntiShipStrike,
    Cap,
    Awacs,
    Refueling,
    Sead,
    Escort,
    Intercept,
    FighterSweep,
    Transport,
}

/// The task whose lower-case name is `s`, if any.
pub open spec fn task_of_lower(s: Seq<char>) -> Option<Task> {
    if s == "strike"@ {
        Some(Task::Strike)
    } else if s == "anti-ship strike"@ {
        Some(Task::AntiShipStrike)
    } else if s == "cap"@ {
        Some(Task::Cap)
    } else if s == "awacs"@ {
        Some(Task::Awacs)
    } else if s == "refueling"@ {
        Some(Task::Refueling)
    } else if s == "sead"@ {
        Some(Task::Sead)
    } else if s == "escort"@ {
        Some(Task::Escort)
    } else if s == "intercept"@ {
        Some(Task::Intercept)
    } else if s == "fighter sweep"@ {
        Some(Task::FighterSweep)
    } else if s == "transport"@ {
        Some(Task::Transport)
    } else {
        None
    }
}

/// The spelling of a task that the campaign engine files use.
pub open spec fn task_dce_name(t: Task) -> Seq<char> {
    match t {
        Task::Strike => "Strike"@,
        Task::AntiShipStrike => "Anti-ship Strike"@,
        Task::Cap => "CAP"@,
        Task::Awacs => "AWACS"@,
        Task::Refueling => "Refueling"@,
        Task::Sead => "SEAD"@,
        Task::Escort => "Escort"@,
        Task::Intercept => "Intercept"@,
        Task::FighterSweep => "Fighter Sweep"@,
        Task::Transport => "Transport"@,
    }
}

/// The task whose lower-case name is `lower`, if any.
pub fn task_from_lowercase(lower: &str) -> (res: Option<Task>)
    ensures
        res == task_of_lower(lower@),
{
    if str_eq(lower, "strike") {
        Some(Task::Strike)
    } else if str_eq(lower, "anti-ship strike") {
        Some(Task::AntiShipStrike)
    } else if str_eq(lower, "cap") {
        Some(Task::Cap)
    } else if str_eq(lower, "awacs") {
        Some(Task::Awacs)
    } else if str_eq(lower, "refueling") {
        Some(Task::Refueling)
    } else if str_eq(lower, "sead") {
        Some(Task::Sead)
    } else if str_eq(lower, "escort") {
        Some(Task::Escort)
    } else if str_eq(lower, "intercept") {
        Some(Task::Intercept)
    } else if str_eq(lower, "fighter sweep") {
        Some(Task::FighterSweep)
    } else if str_eq(lower, "transport") {
        Some(Task::Transport)
    } else {
        None
    }
}

impl Task {
    /// The task as the campaign files name it.
    pub fn dce_name(&self) -> (res: String)
        ensures
            res@ == task_dce_name(*self),
    {
        match self {
            Task::Strike => "Strike".to_owned(),
            Task::AntiShipStrike => "Anti-ship Strike".to_owned(),
            Task::Cap => "CAP".to_owned(),
            Task::Awacs => "AWACS".to_owned(),
            Task::Refueling => "Refueling".to_owned(),
            Task::Sead => "SEAD".to_owned(),
            Task::Escort => "Escort".to_owned(),
            Task::Intercept => "Intercept".to_owned(),
            Task::FighterSweep => "Fighter Sweep".to_owned(),
            Task::Transport => "Transport".to_owned(),
        }
    }
}

/// A task name that matches none of the engine's tasks.
#[derive(Debug, Clone, PartialEq)]
pub struct UnsupportedTask {
    /// The name as it was given.
    pub task: String,
}

/// Matches the lower-cased form of a task name to the engine's spelling of the
/// task, or reports the name as unsupported.
pub fn task_name_from_lowercase(original: &str, lower: &str) -> (res: Result<
    String,
    UnsupportedTask,
>)
    ensures
        match task_of_lower(lower@) {
            Some(t) => res matches Ok(name) && name@ == task_dce_name(t),
            None => res matches Err(e) && e.task@ == original@,
        },
{
    match task_from_lowercase(lower) {
        Some(t) => Ok(t.dce_name()),
        None => Err(UnsupportedTask { task: original.to_owned() }),
    }
}

/// Matches a task written in any letter case to the spelling the campaign
/// engine requires, or reports it as unsupported.
pub fn str_to_task(original: &str) -> (res: Result<String, UnsupportedTask>)
    ensures
        match task_of_lower(lowercase_of(original@)) {
            Some(t) => res matches Ok(name) && name@ == task_dce_name(t),
            None => res matches Err(e) && e.task@ == original@,
        },
        all_ascii(original@) ==> lowercase_of(original@) == ascii_lowered(original@),
{
    let lower = to_lowercase(original);
    task_name_from_lowercase(original, lower.as_str())
}

/// Changing the letter case of ASCII text keeps it ASCII and does not
/// change its lower-cased form.
proof fn lemma_case_free(s: Seq<char>)
    requires
        all_ascii(s),
    ensures
        all_ascii(ascii_uppered(s)),
        all_ascii(ascii_lowered(s)),
        ascii_lowered(ascii_uppered(s)) == ascii_lowered(s),
        ascii_lowered(ascii_lowered(s)) == ascii_lowered(s),
{
    assert forall|i: int| 0 <= i < s.len() implies ascii_lower(ascii_upper(s[i])) == ascii_lower(s[i])
        && ascii_lower(ascii_lower(s[i])) == ascii_lower(s[i]) && (ascii_upper(s[i]) as u32) < 128
        && (ascii_lower(s[i]) as u32) < 128 by {
        assert((s[i] as u32) < 128);
    }
    assert(ascii_lowered(ascii_uppered(s)) =~= ascii_lowered(s));
    assert(ascii_lowered(ascii_lowered(s)) =~= ascii_lowered(s));
}

/// Task names on ASCII text ignore letter case: the text, written all in
/// capitals or all in small letters, names the same task as before (or
/// none, as before).
pub proof fn law_task_ignores_case(s: Seq<char>)
    requires
        all_ascii(s),
    ensures
        all_ascii(ascii_uppered(s)),
        all_ascii(ascii_lowered(s)),
        task_of_lower(ascii_lowered(ascii_uppered(s))) == task_of_lower(ascii_lowered(s)),
        task_of_lower(ascii_lowered(ascii_lowered(s))) == task_of_lower(ascii_lowered(s)),
{
    lemma_case_free(s);
}

/// The engine's spelling of a task is ASCII text, and reads back as that
/// task.
pub proof fn law_engine_names_read_back(t: Task)
    ensures
        all_ascii(task_dce_name(t)),
        task_of_lower(ascii_lowered(task_dce_name(t))) == Some(t),
{
    reveal_strlit("Strike");
    reveal_strlit("strike");
    reveal_strlit("Anti-ship Strike");
    reveal_strlit("anti-ship strike");
    reveal_strlit("CAP");
    reveal_strlit("cap");
    reveal_strlit("AWACS");
    reveal_strlit("awacs");
    reveal_strlit("Refueling");
    reveal_strlit("refueling");
    reveal_strlit("SEAD");
    reveal_strlit("sead");
    reveal_strlit("Escort");
    reveal_strlit("escort");
    reveal_strlit("Intercept");
    reveal_strlit("intercept");
    reveal_strlit("Fighter Sweep");
    reveal_strlit("fighter sweep");
    reveal_strlit("Transport");
    reveal_strlit("transport");
    let n = task_dce_name(t);
    assert(all_ascii(n));
    match t {
        Task::Strike => {
            assert(ascii_lowered(n) =~= "strike"@);
            assert(task_of_lower(ascii_lowered(n)) == Some(t));
        },
        Task::AntiShipStrike => {
            assert(ascii_lowered(n) =~= "anti-ship strike"@);
            assert(task_of_lower(ascii_lowered(n)) == Some(t));
        },
        Task::Cap => {
            assert(ascii_lowered(n) =~= "cap"@);
            assert(task_of_lower(ascii_lowered(n)) == Some(t));
        },
        Task::Awacs => {
            assert(ascii_lowered(n) =~= "awacs"@);
            assert(task_of_lower(ascii_lowered(n)) == Some(t));
        },
        Task::Refueling => {
            assert(ascii_lowered(n) =~= "refueling"@);
            assert(task_of_lower(ascii_lowered(n)) == Some(t));
        },
        Task::Sead => {
            assert(ascii_lowered(n) =~= "sead"@);
            assert(task_of_lower(ascii_lowered(n)) == Some(t));
        },
        Task::Escort => {
            assert(ascii_lowered(n) =~= "escort"@);
            assert("escort"@[0] != "strike"@[0]);
            assert(task_of_lower(ascii_lowered(n)) == Some(t));
        },
        Task::Intercept => {
            assert(ascii_lowered(n) =~= "intercept"@);
            assert("intercept"@[0] != "refueling"@[0]);
            assert(task_of_lower(ascii_lowered(n)) == Some(t));
        },
        Task::FighterSweep => {
            assert(ascii_lowered(n) =~= "fighter sweep"@);
            assert("fighter sweep"@.len() != "anti-ship strike"@.len());
            assert(task_of_lower(ascii_lowered(n)) == Some(t));
        },
        Task::Transport => {
            assert(ascii_lowered(n) =~= "transport"@);
            assert("transport"@[0] != "refueling"@[0]);
            assert("transport"@[0] != "intercept"@[0]);
            assert(task_of_lower(ascii_lowered(n)) == Some(t));
        },
    }
}

} // verus!
