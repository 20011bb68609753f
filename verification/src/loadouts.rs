//! Loadouts: which task each aircraft of the mission is set up for, and the
//! naming rules that tune a strike loadout (day only, laser-guided bombs,
//! cluster bombs, JDAMs, rockets, saturation attacks).
use vstd::prelude::*;
use vstd::string::*;
use crate::strmap::StrMap;
use crate::task::{Task, task_of_lower, task_from_lowercase};
use crate::text::{
    contains_spec, contains_str, ends_with_spec, ends_with_str, lowercase_of, split_on, split_spec,
    to_lowercase, views, lemma_split_nonempty,
};

verus! {

/// The escorts a strike package asks for.
#[derive(Debug, Clone, Copy, PartialEq, Eq, Structural)]
pub struct Support {
    pub escort: bool,
    pub sead: bool,
    pub escort_jammer: bool,
}

/// The part of a strike loadout that the naming rules set: day and night
/// capability, weapon, how many weapons to expend, capability, firepower,
/// sortie rate, ranges in metres, attack offset in degrees, SEAD escort and
/// tags.
#[derive(Debug)]
pub struct StrikeRules {
    pub night: bool,
    pub adverse_weather: bool,
    pub weapon_type: String,
    pub expend: String,
    pub capability: u32,
    pub firepower: u32,
    pub sortie_rate: u32,
    pub range: u64,
    pub standoff: Option<u64>,
    pub ingress: Option<u64>,
    pub egress: Option<u64>,
    pub max_attack_offset: Option<u64>,
    pub support: Support,
    pub attributes: Vec<String>,
}

/// Strike rules with strings as character sequences.
pub struct StrikeRulesModel {
    pub night: bool,
    pub adverse_weather: bool,
    pub weapon_type: Seq<char>,
    pub expend: Seq<char>,
    pub capability: u32,
    pub firepower: u32,
    pub sortie_rate: u32,
    pub range: u64,
    pub standoff: Option<u64>,
    pub ingress: Option<u64>,
    pub egress: Option<u64>,
    pub max_attack_offset: Option<u64>,
    pub support: Support,
    pub attributes: Seq<Seq<char>>,
}

impl View for StrikeRules {
    type V = StrikeRulesModel;

    open spec fn view(&self) -> StrikeRulesModel {
        StrikeRulesModel {
            night: self.night,
            adverse_weather: self.adverse_weather,
            weapon_type: self.weapon_type@,
            expend: self.expend@,
            capability: self.capability,
            firepower: self.firepower,
            sortie_rate: self.sortie_rate,
            range: self.range,
            standoff: self.standoff,
            ingress: self.ingress,
            egress: self.egress,
            max_attack_offset: self.max_attack_offset,
            support: self.support,
            attributes: views(self.attributes@),
        }
    }
}

/// A loadout name carries `tag` when it holds the tag between spaces or ends
/// with a space and the tag.
pub open spec fn has_tag(name: Seq<char>, tag: Seq<char>) -> bool {
    contains_spec(name, " "@ + tag + " "@) || ends_with_spec(name, " "@ + tag)
}

/// A strike loadout before any naming rule.
pub open spec fn base_strike_rules() -> StrikeRulesModel {
    StrikeRulesModel {
        night: true,
        adverse_weather: true,
        weapon_type: "Bombs"@,
        expend: "All"@,
        capability: 1,
        firepower: 1,
        sortie_rate: 6,
        range: 500000,
        standoff: None,
        ingress: None,
        egress: None,
        max_attack_offset: None,
        support: Support { escort: true, sead: true, escort_jammer: false },
        attributes: Seq::empty(),
    }
}

/// " day ": daylight only, clear weather.
pub open spec fn day_rule(r: StrikeRulesModel) -> StrikeRulesModel {
    StrikeRulesModel { night: false, adverse_weather: false, ..r }
}

/// " lgb ": laser-guided bombs need clear weather; precise.
pub open spec fn lgb_rule(r: StrikeRulesModel) -> StrikeRulesModel {
    StrikeRulesModel {
        adverse_weather: false,
        weapon_type: "Guided Bombs"@,
        capability: 2,
        expend: "Auto"@,
        standoff: Some(9000),
        egress: Some(10000),
        attributes: r.attributes.push("precise"@),
        ..r
    }
}

/// " cbu ": cluster bombs, for soft targets and parked aircraft.
pub open spec fn cbu_rule(r: StrikeRulesModel) -> StrikeRulesModel {
    StrikeRulesModel { attributes: r.attributes.push("soft"@).push("parked_aircraft"@), ..r }
}

/// " jdam ": GPS-guided bombs, any weather; precise.
pub open spec fn jdam_rule(r: StrikeRulesModel) -> StrikeRulesModel {
    StrikeRulesModel {
        adverse_weather: true,
        weapon_type: "Guided Bombs"@,
        capability: 2,
        standoff: Some(9000),
        expend: "Auto"@,
        sortie_rate: 3,
        attributes: r.attributes.push("precise"@),
        ..r
    }
}

/// " rockets ": clear weather; soft targets and parked aircraft.
pub open spec fn rockets_rule(r: StrikeRulesModel) -> StrikeRulesModel {
    StrikeRulesModel {
        adverse_weather: false,
        weapon_type: "Rockets"@,
        attributes: r.attributes.push("soft"@).push("parked_aircraft"@),
        ..r
    }
}

/// " saturation ": a stand-off missile attack in mass.
pub open spec fn saturation_rule(r: StrikeRulesModel) -> StrikeRulesModel {
    StrikeRulesModel {
        capability: 10,
        firepower: 4,
        sortie_rate: 1,
        range: 1000000,
        weapon_type: "ASM"@,
        standoff: Some(150000),
        ingress: Some(50000),
        egress: Some(50000),
        max_attack_offset: Some(60),
        support: Support { sead: false, ..r.support },
        attributes: r.attributes.push("saturation"@),
        ..r
    }
}

/// Applies `rule` when the name carries `tag`.
pub open spec fn when_tagged(
    name: Seq<char>,
    tag: Seq<char>,
    rule: spec_fn(StrikeRulesModel) -> StrikeRulesModel,
    r: StrikeRulesModel,
) -> StrikeRulesModel {
    if has_tag(name, tag) {
        rule(r)
    } else {
        r
    }
}

/// The strike loadout that a unit name gives: the base loadout with every
/// rule whose tag the name carries applied, in the order day, lgb, cbu,
/// jdam, rockets, saturation.
pub open spec fn strike_rules_spec(name: Seq<char>) -> StrikeRulesModel {
    let r0 = base_strike_rules();
    let r1 = when_tagged(name, "day"@, |r| day_rule(r), r0);
    let r2 = when_tagged(name, "lgb"@, |r| lgb_rule(r), r1);
    let r3 = when_tagged(name, "cbu"@, |r| cbu_rule(r), r2);
    let r4 = when_tagged(name, "jdam"@, |r| jdam_rule(r), r3);
    let r5 = when_tagged(name, "rockets"@, |r| rockets_rule(r), r4);
    when_tagged(name, "saturation"@, |r| saturation_rule(r), r5)
}

/// What the naming rules make of a strike loadout: the weapon is stand-off
/// missiles for " saturation ", else rockets for " rockets ", else guided
/// bombs for " jdam " or " lgb ", else bombs; a " jdam " loadout without
/// " saturation " has capability 2, stand-off 9000 m and 3 sorties; " lgb "
/// or " jdam " marks it precise; " day " keeps it from flying at night.
pub proof fn law_strike_weapon_follows_tags(name: Seq<char>)
    ensures
        ({
            let r = strike_rules_spec(name);
            let sat = has_tag(name, "saturation"@);
            let rockets = has_tag(name, "rockets"@);
            let jdam = has_tag(name, "jdam"@);
            let lgb = has_tag(name, "lgb"@);
            &&& sat ==> r.weapon_type == "ASM"@
            &&& !sat && rockets ==> r.weapon_type == "Rockets"@
            &&& !sat && !rockets && (jdam || lgb) ==> r.weapon_type == "Guided Bombs"@
            &&& !sat && !rockets && !jdam && !lgb ==> r.weapon_type == "Bombs"@
            &&& jdam && !sat ==> r.capability == 2 && r.standoff == Some(9000u64) && r.sortie_rate == 3
            &&& jdam && !rockets ==> r.adverse_weather
            &&& (jdam || lgb) ==> r.attributes.contains("precise"@)
            &&& has_tag(name, "day"@) ==> !r.night
        }),
{
    let r0 = base_strike_rules();
    let r1 = when_tagged(name, "day"@, |r| day_rule(r), r0);
    let r2 = when_tagged(name, "lgb"@, |r| lgb_rule(r), r1);
    let r3 = when_tagged(name, "cbu"@, |r| cbu_rule(r), r2);
    let r4 = when_tagged(name, "jdam"@, |r| jdam_rule(r), r3);
    let r5 = when_tagged(name, "rockets"@, |r| rockets_rule(r), r4);
    let r6 = when_tagged(name, "saturation"@, |r| saturation_rule(r), r5);
    assert(r6 == strike_rules_spec(name));
    if has_tag(name, "lgb"@) {
        assert(r2.attributes.last() == "precise"@);
        assert(r2.attributes.contains("precise"@));
    }
    if has_tag(name, "jdam"@) {
        assert(r4.attributes.last() == "precise"@);
        assert(r4.attributes.contains("precise"@));
    }
    assert(r2.attributes.contains("precise"@) ==> r3.attributes.contains("precise"@)) by {
        if r2.attributes.contains("precise"@) {
            let k = choose|k: int| 0 <= k < r2.attributes.len() && r2.attributes[k] == "precise"@;
            assert(r3.attributes[k] == "precise"@);
        }
    }
    assert(r4.attributes.contains("precise"@) ==> r5.attributes.contains("precise"@)) by {
        if r4.attributes.contains("precise"@) {
            let k = choose|k: int| 0 <= k < r4.attributes.len() && r4.attributes[k] == "precise"@;
            assert(r5.attributes[k] == "precise"@);
        }
    }
    assert(r3.attributes.contains("precise"@) ==> r4.attributes.contains("precise"@)) by {
        if r3.attributes.contains("precise"@) && !has_tag(name, "jdam"@) {
            assert(r4 == r3);
        } else if r3.attributes.contains("precise"@) {
            let k = choose|k: int| 0 <= k < r3.attributes.len() && r3.attributes[k] == "precise"@;
            assert(r4.attributes[k] == "precise"@);
        }
    }
    assert(r5.attributes.contains("precise"@) ==> r6.attributes.contains("precise"@)) by {
        if r5.attributes.contains("precise"@) && has_tag(name, "saturation"@) {
            let k = choose|k: int| 0 <= k < r5.attributes.len() && r5.attributes[k] == "precise"@;
            assert(r6.attributes[k] == "precise"@);
        }
    }
}

/// Whether the name carries the tag " <tag> " or ends with " <tag>".
fn tagged(name: &str, spaced: &str, trailing: &str) -> (res: bool)
    ensures
        res == (contains_spec(name@, spaced@) || ends_with_spec(name@, trailing@)),
{
    contains_str(name, spaced) || ends_with_str(name, trailing)
}

/// Adds a tag to the rules.
fn add_attribute(r: &mut StrikeRules, tag: &str)
    ensures
        final(r)@ == (StrikeRulesModel { attributes: old(r)@.attributes.push(tag@), ..old(r)@ }),
{
    let ghost before = r.attributes@;
    r.attributes.push(tag.to_owned());
    assert(views(r.attributes@) =~= views(before).push(tag@));
}

/// The strike loadout settings for a unit called `name`, following the
/// loadout naming rules.
pub fn strike_rules_for(name: &str) -> (r: StrikeRules)
    ensures
        r@ == strike_rules_spec(name@),
{
    let mut r = StrikeRules {
        night: true,
        adverse_weather: true,
        weapon_type: "Bombs".to_owned(),
        expend: "All".to_owned(),
        capability: 1,
        firepower: 1,
        sortie_rate: 6,
        range: 500000,
        standoff: None,
        ingress: None,
        egress: None,
        max_attack_offset: None,
        support: Support { escort: true, sead: true, escort_jammer: false },
        attributes: Vec::new(),
    };
    assert(views(r.attributes@) =~= Seq::<Seq<char>>::empty());
    assert(r@ == base_strike_rules());
    let ghost r0 = r@;
    proof {
        assert(" "@ + "day"@ + " "@ =~= " day "@) by {
            reveal_strlit(" ");
            reveal_strlit("day");
            reveal_strlit(" day ");
        }
        assert(" "@ + "day"@ =~= " day"@) by {
            reveal_strlit(" ");
            reveal_strlit("day");
            reveal_strlit(" day");
        }
    }
    if tagged(name, " day ", " day") {
        r.night = false;
        r.adverse_weather = false;
    }
    let ghost r1 = r@;
    assert(r1 == when_tagged(name@, "day"@, |r| day_rule(r), r0));
    proof {
        assert(" "@ + "lgb"@ + " "@ =~= " lgb "@) by {
            reveal_strlit(" ");
            reveal_strlit("lgb");
            reveal_strlit(" lgb ");
        }
        assert(" "@ + "lgb"@ =~= " lgb"@) by {
            reveal_strlit(" ");
            reveal_strlit("lgb");
            reveal_strlit(" lgb");
        }
    }
    if tagged(name, " lgb ", " lgb") {
        r.adverse_weather = false;
        r.weapon_type = "Guided Bombs".to_owned();
        r.capability = 2;
        r.expend = "Auto".to_owned();
        r.standoff = Some(9000);
        r.egress = Some(10000);
        add_attribute(&mut r, "precise");
    }
    let ghost r2 = r@;
    assert(r2 == when_tagged(name@, "lgb"@, |r| lgb_rule(r), r1));
    proof {
        assert(" "@ + "cbu"@ + " "@ =~= " cbu "@) by {
            reveal_strlit(" ");
            reveal_strlit("cbu");
            reveal_strlit(" cbu ");
        }
        assert(" "@ + "cbu"@ =~= " cbu"@) by {
            reveal_strlit(" ");
            reveal_strlit("cbu");
            reveal_strlit(" cbu");
        }
    }
    if tagged(name, " cbu ", " cbu") {
        add_attribute(&mut r, "soft");
        add_attribute(&mut r, "parked_aircraft");
    }
    let ghost r3 = r@;
    assert(r3 == when_tagged(name@, "cbu"@, |r| cbu_rule(r), r2));
    proof {
        assert(" "@ + "jdam"@ + " "@ =~= " jdam "@) by {
            reveal_strlit(" ");
            reveal_strlit("jdam");
            reveal_strlit(" jdam ");
        }
        assert(" "@ + "jdam"@ =~= " jdam"@) by {
            reveal_strlit(" ");
            reveal_strlit("jdam");
            reveal_strlit(" jdam");
        }
    }
    if tagged(name, " jdam ", " jdam") {
        r.adverse_weather = true;
        r.weapon_type = "Guided Bombs".to_owned();
        r.capability = 2;
        r.standoff = Some(9000);
        r.expend = "Auto".to_owned();
        r.sortie_rate = 3;
        add_attribute(&mut r, "precise");
    }
    let ghost r4 = r@;
    assert(r4 == when_tagged(name@, "jdam"@, |r| jdam_rule(r), r3));
    proof {
        assert(" "@ + "rockets"@ + " "@ =~= " rockets "@) by {
            reveal_strlit(" ");
            reveal_strlit("rockets");
            reveal_strlit(" rockets ");
        }
        assert(" "@ + "rockets"@ =~= " rockets"@) by {
            reveal_strlit(" ");
            reveal_strlit("rockets");
            reveal_strlit(" rockets");
        }
    }
    if tagged(name, " rockets ", " rockets") {
        r.adverse_weather = false;
        r.weapon_type = "Rockets".to_owned();
        add_attribute(&mut r, "soft");
        add_attribute(&mut r, "parked_aircraft");
    }
    let ghost r5 = r@;
    assert(r5 == when_tagged(name@, "rockets"@, |r| rockets_rule(r), r4));
    proof {
        assert(" "@ + "saturation"@ + " "@ =~= " saturation "@) by {
            reveal_strlit(" ");
            reveal_strlit("saturation");
            reveal_strlit(" saturation ");
        }
        assert(" "@ + "saturation"@ =~= " saturation"@) by {
            reveal_strlit(" ");
            reveal_strlit("saturation");
            reveal_strlit(" saturation");
        }
    }
    if tagged(name, " saturation ", " saturation") {
        r.capability = 10;
        r.firepower = 4;
        r.sortie_rate = 1;
        r.range = 1000000;
        r.weapon_type = "ASM".to_owned();
        r.standoff = Some(150000);
        r.ingress = Some(50000);
        r.egress = Some(50000);
        r.max_attack_offset = Some(60);
        r.support.sead = false;
        add_attribute(&mut r, "saturation");
    }
    assert(r@ == when_tagged(name@, "saturation"@, |r| saturation_rule(r), r5));
    r
}

/// An aircraft of the mission as the loadout plan sees it: its unit name,
/// written "<squadron>_<task>_<loadout>", and its airframe type.
#[derive(Debug, Clone, PartialEq)]
pub struct LoadoutUnit {
    pub name: String,
    pub airframe: String,
}

/// One loadout to create: the airframe, the task and the loadout's name.
#[derive(Debug)]
pub struct PlannedLoadout {
    pub airframe: String,
    pub task: Task,
    pub name: String,
}

/// A unit whose name names no known task.
#[derive(Debug, Clone, PartialEq)]
pub struct UnknownLoadout {
    pub name: String,
}

/// The task part of a unit name: the second piece between underscores.
pub open spec fn task_piece(name: Seq<char>) -> Seq<char> {
    split_spec(name, '_')[1]
}

/// The loadout for one unit, given the lower-cased task piece of its name.
pub fn plan_loadout(unit: &LoadoutUnit, lower_task: &str) -> (res: Result<
    PlannedLoadout,
    UnknownLoadout,
>)
    ensures
        match task_of_lower(lower_task@) {
            Some(t) => res matches Ok(p) && p.task == t && p.airframe@ == unit.airframe@
                && p.name@ == unit.name@,
            None => res matches Err(e) && e.name@ == unit.name@,
        },
{
    match task_from_lowercase(lower_task) {
        Some(t) => Ok(PlannedLoadout { airframe: unit.airframe.clone(), task: t, name: unit.name.clone() }),
        None => Err(UnknownLoadout { name: unit.name.clone() }),
    }
}

/// Every unit name has a task piece.
pub open spec fn all_named_with_task(units: Seq<LoadoutUnit>) -> bool {
    forall|i: int| 0 <= i < units.len() ==> split_spec(#[trigger] units[i].name@, '_').len() >= 2
}

/// The task of a unit, from its name.
pub open spec fn unit_task(u: LoadoutUnit) -> Option<Task> {
    task_of_lower(lowercase_of(task_piece(u.name@)))
}

/// The loadouts to create for the aircraft of a mission, one per unit in
/// order, or the first unit whose name names no known task.
pub fn plan_loadouts(units: &Vec<LoadoutUnit>) -> (res: Result<Vec<PlannedLoadout>, UnknownLoadout>)
    requires
        all_named_with_task(units@),
    ensures
        match res {
            Ok(plan) => plan@.len() == units@.len() && forall|i: int|
                0 <= i < units@.len() ==> unit_task(#[trigger] units@[i]) == Some(plan@[i].task)
                    && plan@[i].airframe@ == units@[i].airframe@ && plan@[i].name@
                    == units@[i].name@,
            Err(e) => exists|i: int|
                0 <= i < units@.len() && unit_task(#[trigger] units@[i]) is None && e.name@
                    == units@[i].name@ && forall|j: int|
                    0 <= j < i ==> unit_task(#[trigger] units@[j]) is Some,
        },
{
    let mut plan: Vec<PlannedLoadout> = Vec::new();
    let mut i: usize = 0;
    while i < units.len()
        invariant
            i <= units@.len(),
            all_named_with_task(units@),
            plan@.len() == i,
            forall|j: int|
                0 <= j < i ==> unit_task(#[trigger] units@[j]) == Some(plan@[j].task)
                    && plan@[j].airframe@ == units@[j].airframe@ && plan@[j].name@
                    == units@[j].name@,
        decreases units@.len() - i,
    {
        let unit = &units[i];
        let parts = split_on(unit.name.as_str(), '_');
        assert(split_spec(units@[i as int].name@, '_').len() >= 2);
        assert(views(parts@)[1] == parts@[1]@);
        let lower = to_lowercase(parts[1].as_str());
        match plan_loadout(unit, lower.as_str()) {
            Ok(p) => {
                plan.push(p);
            },
            Err(e) => {
                return Err(e);
            },
        }
        i = i + 1;
    }
    Ok(plan)
}

/// The settings, other than speeds, heights and ranges, that a loadout of
/// a task starts with. `None` for a strike where the naming rules
/// (`strike_rules_for`) set the value, and where the task has no such
/// setting.
#[derive(Debug, Clone, PartialEq)]
pub struct TaskDefaults {
    pub capability: Option<u32>,
    pub sortie_rate: Option<u32>,
    pub station_time: Option<u32>,
    pub ldsd: Option<bool>,
    pub self_escort: Option<bool>,
    pub support: Option<Support>,
    pub weapon_type: Option<String>,
    pub expend: Option<String>,
}

/// Task defaults with strings as character sequences.
pub struct TaskDefaultsModel {
    pub capability: Option<u32>,
    pub sortie_rate: Option<u32>,
    pub station_time: Option<u32>,
    pub ldsd: Option<bool>,
    pub self_escort: Option<bool>,
    pub support: Option<Support>,
    pub weapon_type: Option<Seq<char>>,
    pub expend: Option<Seq<char>>,
}

impl View for TaskDefaults {
    type V = TaskDefaultsModel;

    open spec fn view(&self) -> TaskDefaultsModel {
        TaskDefaultsModel {
            capability: self.capability,
            sortie_rate: self.sortie_rate,
            station_time: self.station_time,
            ldsd: self.ldsd,
            self_escort: self.self_escort,
            support: self.support,
            weapon_type: match self.weapon_type {
                Some(w) => Some(w@),
                None => None,
            },
            expend: match self.expend {
                Some(e) => Some(e@),
                None => None,
            },
        }
    }
}

/// Defaults of a task with no support, weapon or expend setting.
pub open spec fn plain_defaults(
    capability: u32,
    sortie_rate: u32,
    station_time: Option<u32>,
    ldsd: Option<bool>,
) -> TaskDefaultsModel {
    TaskDefaultsModel {
        capability: Some(capability),
        sortie_rate: Some(sortie_rate),
        station_time,
        ldsd,
        self_escort: None,
        support: None,
        weapon_type: None,
        expend: None,
    }
}

/// The defaults of each task: a strike stays 0 s on station, without LDSD
/// or self escort, the rest set by its naming rules; an anti-ship strike
/// has capability 1, 6 sorties, escort and SEAD support, bombs, all
/// expended; CAP 1 and 6, 2400 s on station, LDSD; AWACS 10 and 12, 14400
/// s; refueling 10 and 12, 10800 s; escort 1 and 12, LDSD; intercept 1 and
/// 12, LDSD; fighter sweep 1 and 6, 2400 s, no LDSD; SEAD and transport 1
/// and 12.
pub open spec fn task_defaults_spec(task: Task) -> TaskDefaultsModel {
    match task {
        Task::Strike => TaskDefaultsModel {
            capability: None,
            sortie_rate: None,
            station_time: Some(0),
            ldsd: Some(false),
            self_escort: Some(false),
            support: None,
            weapon_type: None,
            expend: None,
        },
        Task::AntiShipStrike => TaskDefaultsModel {
            capability: Some(1),
            sortie_rate: Some(6),
            station_time: Some(0),
            ldsd: Some(false),
            self_escort: Some(false),
            support: Some(Support { escort: true, sead: true, escort_jammer: false }),
            weapon_type: Some("Bombs"@),
            expend: Some("All"@),
        },
        Task::Cap => plain_defaults(1, 6, Some(2400), Some(true)),
        Task::Awacs => plain_defaults(10, 12, Some(14400), None),
        Task::Refueling => plain_defaults(10, 12, Some(10800), None),
        Task::Escort => plain_defaults(1, 12, None, Some(true)),
        Task::Intercept => plain_defaults(1, 12, None, Some(true)),
        Task::FighterSweep => plain_defaults(1, 6, Some(2400), Some(false)),
        Task::Sead => plain_defaults(1, 12, None, None),
        Task::Transport => plain_defaults(1, 12, None, None),
    }
}

/// Defaults of a task with no support, weapon or expend setting.
fn plain(capability: u32, sortie_rate: u32, station_time: Option<u32>, ldsd: Option<bool>) -> (d: TaskDefaults)
    ensures
        d@ == plain_defaults(capability, sortie_rate, station_time, ldsd),
{
    TaskDefaults {
        capability: Some(capability),
        sortie_rate: Some(sortie_rate),
        station_time,
        ldsd,
        self_escort: None,
        support: None,
        weapon_type: None,
        expend: None,
    }
}

/// The settings a loadout of `task` starts with (see `task_defaults_spec`).
pub fn task_defaults(task: Task) -> (d: TaskDefaults)
    ensures
        d@ == task_defaults_spec(task),
{
    match task {
        Task::Strike => TaskDefaults {
            capability: None,
            sortie_rate: None,
            station_time: Some(0),
            ldsd: Some(false),
            self_escort: Some(false),
            support: None,
            weapon_type: None,
            expend: None,
        },
        Task::AntiShipStrike => TaskDefaults {
            capability: Some(1),
            sortie_rate: Some(6),
            station_time: Some(0),
            ldsd: Some(false),
            self_escort: Some(false),
            support: Some(Support { escort: true, sead: true, escort_jammer: false }),
            weapon_type: Some("Bombs".to_owned()),
            expend: Some("All".to_owned()),
        },
        Task::Cap => plain(1, 6, Some(2400), Some(true)),
        Task::Awacs => plain(10, 12, Some(14400), None),
        Task::Refueling => plain(10, 12, Some(10800), None),
        Task::Escort => plain(1, 12, None, Some(true)),
        Task::Intercept => plain(1, 12, None, Some(true)),
        Task::FighterSweep => plain(1, 6, Some(2400), Some(false)),
        Task::Sead => plain(1, 12, None, None),
        Task::Transport => plain(1, 12, None, None),
    }
}

} // verus!

verus! {

/// A loadout with the airframe and the name it is kept under.
#[derive(Debug)]
pub struct KeyedLoadout<L> {
    pub airframe: String,
    pub name: String,
    pub loadout: L,
}

/// The loadouts of one task: by airframe, then by loadout name.
#[derive(Debug)]
pub struct LoadoutTable<L> {
    pub airframes: StrMap<StrMap<L>>,
}

/// A loadout table as nested maps.
pub open spec fn table_model<L>(t: LoadoutTable<L>) -> Map<Seq<char>, Map<Seq<char>, L>> {
    t.airframes.view().map_values(|m: StrMap<L>| m.view())
}

/// The (airframe, name, loadout) triples of a list of keyed loadouts.
pub open spec fn keyed_model<L>(v: Seq<KeyedLoadout<L>>) -> Seq<(Seq<char>, Seq<char>, L)> {
    v.map_values(|k: KeyedLoadout<L>| (k.airframe@, k.name@, k.loadout))
}

/// The triples of one airframe's loadouts, in order.
pub open spec fn airframe_triples<L>(af: Seq<char>, inner: Seq<(Seq<char>, L)>) -> Seq<
    (Seq<char>, Seq<char>, L),
> {
    inner.map_values(|e: (Seq<char>, L)| (af, e.0, e.1))
}

/// The triples of a table, airframe by airframe in order.
pub open spec fn table_triples<L>(outer: Seq<(Seq<char>, StrMap<L>)>) -> Seq<(Seq<char>, Seq<char>, L)>
    decreases outer.len(),
{
    if outer.len() == 0 {
        Seq::empty()
    } else {
        table_triples(outer.drop_last()) + airframe_triples(outer.last().0, outer.last().1.pairs())
    }
}

/// Files each triple under its airframe and name in `m`, in order, a later
/// loadout replacing an earlier one of the same airframe and name.
pub open spec fn nest_from<L>(
    m: Map<Seq<char>, Map<Seq<char>, L>>,
    s: Seq<(Seq<char>, Seq<char>, L)>,
) -> Map<Seq<char>, Map<Seq<char>, L>>
    decreases s.len(),
{
    if s.len() == 0 {
        m
    } else {
        let prev = nest_from(m, s.drop_last());
        let (af, name, l) = s.last();
        let inner = if prev.dom().contains(af) {
            prev[af]
        } else {
            Map::empty()
        };
        prev.insert(af, inner.insert(name, l))
    }
}

/// The loadouts of a table as a flat list, each with its airframe and name:
/// airframe by airframe, each airframe's loadouts in order.
pub fn flatten_loadouts<L>(t: LoadoutTable<L>) -> (res: Vec<KeyedLoadout<L>>)
    ensures
        keyed_model(res@) == table_triples(t.airframes.pairs()),
{
    let ghost outer = t.airframes.pairs();
    let entries = t.airframes.into_entries();
    let mut res: Vec<KeyedLoadout<L>> = Vec::new();
    let mut rest = entries;
    let mut done: usize = 0;
    let n = rest.len();
    let mut queue: Vec<(String, StrMap<L>)> = Vec::new();
    while rest.len() > 0
        invariant
            rest@.len() + queue@.len() == n,
            n == outer.len(),
            forall|i: int|
                0 <= i < rest@.len() ==> (#[trigger] rest@[i]).0@ == outer[i].0 && rest@[i].1
                    == outer[i].1,
            forall|i: int|
                0 <= i < queue@.len() ==> (#[trigger] queue@[i]).0@ == outer[n - 1 - i].0
                    && queue@[i].1 == outer[n - 1 - i].1,
        decreases rest@.len(),
    {
        let e = rest.pop().unwrap();
        queue.push(e);
    }
    while queue.len() > 0
        invariant
            queue@.len() + done == n,
            n == outer.len(),
            forall|i: int|
                0 <= i < queue@.len() ==> (#[trigger] queue@[i]).0@ == outer[n - 1 - i].0
                    && queue@[i].1 == outer[n - 1 - i].1,
            keyed_model(res@) == table_triples(outer.take(done as int)),
        decreases queue@.len(),
    {
        let (af, inner) = queue.pop().unwrap();
        let ghost inner_pairs = inner.pairs();
        let ghost before = keyed_model(res@);
        let items = inner.into_entries();
        let mut j: usize = 0;
        let mut items = items;
        let mut stack: Vec<(String, L)> = Vec::new();
        let m = items.len();
        while items.len() > 0
            invariant
                items@.len() + stack@.len() == m,
                m == inner_pairs.len(),
                forall|i: int|
                    0 <= i < items@.len() ==> (#[trigger] items@[i]).0@ == inner_pairs[i].0
                        && items@[i].1 == inner_pairs[i].1,
                forall|i: int|
                    0 <= i < stack@.len() ==> (#[trigger] stack@[i]).0@ == inner_pairs[m - 1 - i].0
                        && stack@[i].1 == inner_pairs[m - 1 - i].1,
            decreases items@.len(),
        {
            let e = items.pop().unwrap();
            stack.push(e);
        }
        while stack.len() > 0
            invariant
                stack@.len() + j == m,
                m == inner_pairs.len(),
                forall|i: int|
                    0 <= i < stack@.len() ==> (#[trigger] stack@[i]).0@ == inner_pairs[m - 1 - i].0
                        && stack@[i].1 == inner_pairs[m - 1 - i].1,
                keyed_model(res@) == before + airframe_triples(af@, inner_pairs.take(j as int)),
            decreases stack@.len(),
        {
            let (name, l) = stack.pop().unwrap();
            let ghost prev = res@;
            res.push(KeyedLoadout { airframe: af.clone(), name, loadout: l });
            proof {
                assert(inner_pairs.take(j + 1) =~= inner_pairs.take(j as int).push(inner_pairs[j as int]));
                assert(keyed_model(res@) =~= keyed_model(prev).push((af@, inner_pairs[j as int].0, inner_pairs[j as int].1)));
                assert(airframe_triples(af@, inner_pairs.take(j + 1)) =~= airframe_triples(
                    af@,
                    inner_pairs.take(j as int),
                ).push((af@, inner_pairs[j as int].0, inner_pairs[j as int].1)));
            }
            j = j + 1;
        }
        proof {
            assert(inner_pairs.take(m as int) =~= inner_pairs);
            assert(outer.take(done + 1).drop_last() =~= outer.take(done as int));
            assert(outer.take(done + 1).last() == outer[done as int]);
        }
        done = done + 1;
    }
    assert(outer.take(n as int) =~= outer);
    res
}

/// A table filing each loadout of the list under its airframe and name, in
/// order, a later loadout replacing an earlier one of the same airframe and
/// name.
pub fn nest_loadouts<L>(flat: Vec<KeyedLoadout<L>>) -> (t: LoadoutTable<L>)
    ensures
        table_model(t) == nest_from(Map::empty(), keyed_model(flat@)),
{
    let ghost s = keyed_model(flat@);
    let n = flat.len();
    let mut rest = flat;
    let mut stack: Vec<KeyedLoadout<L>> = Vec::new();
    while rest.len() > 0
        invariant
            rest@.len() + stack@.len() == n,
            n == s.len(),
            forall|i: int|
                0 <= i < rest@.len() ==> ((#[trigger] rest@[i]).airframe@, rest@[i].name@, rest@[i].loadout)
                    == s[i],
            forall|i: int|
                0 <= i < stack@.len() ==> ((#[trigger] stack@[i]).airframe@, stack@[i].name@, stack@[i].loadout)
                    == s[n - 1 - i],
        decreases rest@.len(),
    {
        let e = rest.pop().unwrap();
        stack.push(e);
    }
    let mut t = LoadoutTable { airframes: StrMap::new() };
    assert(table_model(t) =~= Map::<Seq<char>, Map<Seq<char>, L>>::empty());
    let mut done: usize = 0;
    while stack.len() > 0
        invariant
            stack@.len() + done == n,
            n == s.len(),
            forall|i: int|
                0 <= i < stack@.len() ==> ((#[trigger] stack@[i]).airframe@, stack@[i].name@, stack@[i].loadout)
                    == s[n - 1 - i],
            table_model(t) == nest_from(Map::empty(), s.take(done as int)),
        decreases stack@.len(),
    {
        let KeyedLoadout { airframe, name, loadout } = stack.pop().unwrap();
        let ghost prev = table_model(t);
        let ghost af = airframe@;
        let ghost nm = name@;
        let mut inner = match t.airframes.remove(airframe.as_str()) {
            Some(m) => m,
            None => StrMap::new(),
        };
        let ghost inner_before = inner.view();
        assert(inner_before == if prev.dom().contains(af) {
            prev[af]
        } else {
            Map::<Seq<char>, L>::empty()
        });
        inner.insert(name, loadout);
        t.airframes.insert(airframe, inner);
        proof {
            assert(s.take(done + 1).drop_last() =~= s.take(done as int));
            assert(s.take(done + 1).last() == s[done as int]);
            assert(table_model(t) =~= prev.insert(af, inner_before.insert(nm, s[done as int].2)));
        }
        done = done + 1;
    }
    assert(s.take(n as int) =~= s);
    t
}


/// Filing two lists in turn is filing their concatenation.
proof fn lemma_nest_concat<L>(
    m: Map<Seq<char>, Map<Seq<char>, L>>,
    a: Seq<(Seq<char>, Seq<char>, L)>,
    b: Seq<(Seq<char>, Seq<char>, L)>,
)
    ensures
        nest_from(m, a + b) == nest_from(nest_from(m, a), b),
    decreases b.len(),
{
    if b.len() == 0 {
        assert(a + b =~= a);
    } else {
        assert((a + b).drop_last() =~= a + b.drop_last());
        assert((a + b).last() == b.last());
        lemma_nest_concat(m, a, b.drop_last());
    }
}

/// Filing the loadouts of one airframe that `m` does not hold yet adds that
/// airframe with exactly those loadouts.
proof fn lemma_nest_airframe<L>(
    m: Map<Seq<char>, Map<Seq<char>, L>>,
    af: Seq<char>,
    inner: Seq<(Seq<char>, L)>,
)
    requires
        !m.dom().contains(af),
        inner.len() > 0,
    ensures
        nest_from(m, airframe_triples(af, inner)) == m.insert(af, crate::strmap::map_of_pairs(inner)),
    decreases inner.len(),
{
    let s = airframe_triples(af, inner);
    assert(s.drop_last() =~= airframe_triples(af, inner.drop_last()));
    assert(s.last() == (af, inner.last().0, inner.last().1));
    if inner.len() == 1 {
        assert(inner.drop_last() =~= Seq::<(Seq<char>, L)>::empty());
        assert(s.drop_last() =~= Seq::<(Seq<char>, Seq<char>, L)>::empty());
        assert(nest_from(m, s.drop_last()) == m);
        assert(crate::strmap::map_of_pairs(inner.drop_last()) == Map::<Seq<char>, L>::empty());
        assert(crate::strmap::map_of_pairs(inner) =~= Map::<Seq<char>, L>::empty().insert(
            inner.last().0,
            inner.last().1,
        ));
        assert(nest_from(m, s) =~= m.insert(af, crate::strmap::map_of_pairs(inner)));
    } else {
        lemma_nest_airframe(m, af, inner.drop_last());
        assert(nest_from(m, s) =~= m.insert(af, crate::strmap::map_of_pairs(inner)));
    }
}

/// The nested maps of a list of (airframe, loadouts) pairs.
pub open spec fn outer_model<L>(p: Seq<(Seq<char>, StrMap<L>)>) -> Map<Seq<char>, Map<Seq<char>, L>> {
    crate::strmap::map_of_pairs(p).map_values(|m: StrMap<L>| m.view())
}

/// Filing the triples of distinct airframes, each with some loadouts, gives
/// back their nested maps.
proof fn lemma_nest_triples<L>(p: Seq<(Seq<char>, StrMap<L>)>)
    requires
        crate::strmap::keys_distinct(p),
        forall|i: int| 0 <= i < p.len() ==> (#[trigger] p[i]).1.pairs().len() > 0,
    ensures
        nest_from(Map::empty(), table_triples(p)) == outer_model(p),
    decreases p.len(),
{
    if p.len() == 0 {
        assert(outer_model(p) =~= Map::<Seq<char>, Map<Seq<char>, L>>::empty());
    } else {
        let q = p.drop_last();
        assert(crate::strmap::keys_distinct(q));
        assert forall|i: int| 0 <= i < q.len() implies (#[trigger] q[i]).1.pairs().len() > 0 by {
            assert(q[i] == p[i]);
        }
        lemma_nest_triples(q);
        let (af, inner) = p.last();
        lemma_nest_concat(Map::empty(), table_triples(q), airframe_triples(af, inner.pairs()));
        assert(!outer_model(q).dom().contains(af)) by {
            crate::strmap::lemma_map_of_pairs_dom(q, af);
            if crate::strmap::map_of_pairs(q).dom().contains(af) {
                let j = choose|j: int| 0 <= j < q.len() && q[j].0 == af;
                assert(p[j].0 == p[p.len() - 1].0);
            }
        }
        lemma_nest_airframe(outer_model(q), af, inner.pairs());
        assert(outer_model(p) =~= outer_model(q).insert(af, inner.view()));
    }
}

/// Taking a loadout table apart into a flat list and filing the list again
/// gives the same table, when every airframe of the table has at least one
/// loadout.
pub proof fn law_nest_flatten<L>(t: LoadoutTable<L>)
    requires
        crate::strmap::keys_distinct(t.airframes.pairs()),
        forall|i: int|
            0 <= i < t.airframes.pairs().len() ==> (#[trigger] t.airframes.pairs()[i]).1.pairs().len()
                > 0,
    ensures
        nest_from(Map::empty(), table_triples(t.airframes.pairs())) == table_model(t),
{
    lemma_nest_triples(t.airframes.pairs());
    assert(outer_model(t.airframes.pairs()) =~= table_model(t));
}

} // verus!
