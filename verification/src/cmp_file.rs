//! The campaign file (`.cmp`) that the campaign engine lists campaigns by:
//! a picture, a start stage, and two stages, the first mission and the
//! ongoing one.
use vstd::prelude::*;
use vstd::string::*;

verus! {

/// A mission of a stage: its interval, mission file and description.
#[derive(Debug)]
pub struct Mission {
    pub interval: Vec<u32>,
    pub file: String,
    pub description: String,
}

/// A stage of the campaign and its missions.
#[derive(Debug)]
pub struct Stage {
    pub name: String,
    pub missions: Vec<Mission>,
}

/// The campaign file.
#[derive(Debug)]
pub struct CMPFile {
    pub picture: String,
    pub start_stage: u32,
    pub name: String,
    pub description: String,
    pub necessary_units: Vec<String>,
    pub stages: Vec<Stage>,
}

/// Stage `s` is called `name` and runs the one mission file `file` over the
/// interval 0 to 100, with no description.
pub open spec fn stage_is(s: Stage, name: Seq<char>, file: Seq<char>) -> bool {
    &&& s.name@ == name
    &&& s.missions@.len() == 1
    &&& s.missions@[0].interval@ == seq![0u32, 100u32]
    &&& s.missions@[0].file@ == file
    &&& s.missions@[0].description@ == Seq::<char>::empty()
}

/// A stage with one mission.
fn one_mission_stage(name: &str, file: String) -> (s: Stage)
    ensures
        stage_is(s, name@, file@),
{
    let mut interval: Vec<u32> = Vec::new();
    interval.push(0);
    interval.push(100);
    let mut missions: Vec<Mission> = Vec::new();
    missions.push(Mission { interval, file, description: String::new() });
    assert(missions@[0].interval@ =~= seq![0u32, 100u32]);
    Stage { name: name.to_owned(), missions }
}

impl CMPFile {
    /// The campaign file of campaign `name`: picture "dummy.png", start stage
    /// 1, no description or necessary units, stage "Stage 1" running
    /// "<name>_first.miz" and stage "Stage 2" running "<name>_ongoing.miz".
    pub fn new(name: String) -> (c: CMPFile)
        ensures
            c.picture@ == "dummy.png"@,
            c.start_stage == 1,
            c.name@ == name@,
            c.description@ == Seq::<char>::empty(),
            c.necessary_units@.len() == 0,
            c.stages@.len() == 2,
            stage_is(c.stages@[0], "Stage 1"@, name@ + "_first.miz"@),
            stage_is(c.stages@[1], "Stage 2"@, name@ + "_ongoing.miz"@),
    {
        let first = name.clone().concat("_first.miz");
        let ongoing = name.clone().concat("_ongoing.miz");
        let mut stages: Vec<Stage> = Vec::new();
        stages.push(one_mission_stage("Stage 1", first));
        stages.push(one_mission_stage("Stage 2", ongoing));
        CMPFile {
            picture: "dummy.png".to_owned(),
            start_stage: 1,
            name,
            description: String::new(),
            necessary_units: Vec::new(),
            stages,
        }
    }
}

} // verus!
