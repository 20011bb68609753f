//! The air order of battle: the squadrons of each side, where they are based,
//! their tasks and which one the player flies with.
use vstd::prelude::*;
use crate::airbases::AirbaseNames;
use crate::strmap::StrMap;
use crate::text::str_eq;
use crate::trigger::string_views;
use crate::validation::{ErrorModel, Named, ValidationError, ValidationResult, outcome_is};

verus! {

/// The liveries of a squadron: the campaign files hold one name or a list.
#[derive(Debug)]
pub enum LiveryEnum {
    One(String),
    Many(Vec<String>),
}

/// Liveries as character sequences.
pub enum LiveryModel {
    One(Seq<char>),
    Many(Seq<Seq<char>>),
}

impl View for LiveryEnum {
    type V = LiveryModel;

    open spec fn view(&self) -> LiveryModel {
        match self {
            LiveryEnum::One(a) => LiveryModel::One(a@),
            LiveryEnum::Many(v) => LiveryModel::Many(string_views(v@)),
        }
    }
}

impl Clone for LiveryEnum {
    fn clone(&self) -> (res: Self)
        ensures
            res@ == self@,
    {
        match self {
            LiveryEnum::One(a) => LiveryEnum::One(a.clone()),
            LiveryEnum::Many(v) => LiveryEnum::Many(crate::trigger::clone_strings(v)),
        }
    }
}

/// A squadron of one side.
#[derive(Debug)]
pub struct Squadron {
    pub name: String,
    pub inactive: bool,
    pub player: bool,
    pub _type: String,
    pub country: String,
    pub livery: LiveryEnum,
    pub base: String,
    pub skill: String,
    /// The tasks the squadron flies, each enabled or not.
    pub tasks: StrMap<bool>,
    pub number: u32,
    pub reserve: u32,
}

/// A squadron with its strings as character sequences.
pub struct SquadronModel {
    pub name: Seq<char>,
    pub inactive: bool,
    pub player: bool,
    pub airframe: Seq<char>,
    pub country: Seq<char>,
    pub livery: LiveryModel,
    pub base: Seq<char>,
    pub skill: Seq<char>,
    pub tasks: Seq<(Seq<char>, bool)>,
    pub number: u32,
    pub reserve: u32,
}

impl View for Squadron {
    type V = SquadronModel;

    open spec fn view(&self) -> SquadronModel {
        SquadronModel {
            name: self.name@,
            inactive: self.inactive,
            player: self.player,
            airframe: self._type@,
            country: self.country@,
            livery: self.livery@,
            base: self.base@,
            skill: self.skill@,
            tasks: self.tasks.pairs(),
            number: self.number,
            reserve: self.reserve,
        }
    }
}

impl Clone for Squadron {
    fn clone(&self) -> (res: Self)
        ensures
            res@ == self@,
    {
        Squadron {
            name: self.name.clone(),
            inactive: self.inactive,
            player: self.player,
            _type: self._type.clone(),
            country: self.country.clone(),
            livery: self.livery.clone(),
            base: self.base.clone(),
            skill: self.skill.clone(),
            tasks: self.tasks.duplicate(),
            number: self.number,
            reserve: self.reserve,
        }
    }
}

impl Named for Squadron {
    open spec fn name_spec(&self) -> Seq<char> {
        self.name@
    }

    fn get_name(&self) -> (n: String) {
        self.name.clone()
    }
}

/// The squadrons of both sides.
#[derive(Debug)]
pub struct OobAir {
    pub blue: Vec<Squadron>,
    pub red: Vec<Squadron>,
}

/// The models of a list of squadrons.
pub open spec fn squadron_models(s: Seq<Squadron>) -> Seq<SquadronModel> {
    s.map_values(|q: Squadron| q@)
}

/// A squadron model with its player flag set to `p`.
pub open spec fn with_player(m: SquadronModel, p: bool) -> SquadronModel {
    SquadronModel { player: p, ..m }
}

/// The models of the squadrons of `s` based at `base`, in order.
pub open spec fn based_at(s: Seq<Squadron>, base: Seq<char>) -> Seq<SquadronModel>
    decreases s.len(),
{
    if s.len() == 0 {
        Seq::empty()
    } else {
        based_at(s.drop_last(), base) + if s.last().base@ == base {
            seq![s.last()@]
        } else {
            Seq::<SquadronModel>::empty()
        }
    }
}

/// Copies a list of squadrons with the player flag set: when `first_only`,
/// on the first squadron alone, else on those called `name`.
fn set_player_flags(v: &Vec<Squadron>, first_only: bool, name: &str) -> (res: Vec<Squadron>)
    ensures
        res@.len() == v@.len(),
        forall|i: int|
            0 <= i < v@.len() ==> (#[trigger] res@[i])@ == with_player(
                v@[i]@,
                if first_only {
                    i == 0
                } else {
                    v@[i].name@ == name@
                },
            ),
{
    let mut res: Vec<Squadron> = Vec::new();
    let mut i: usize = 0;
    while i < v.len()
        invariant
            i <= v@.len(),
            res@.len() == i,
            forall|j: int|
                0 <= j < i ==> (#[trigger] res@[j])@ == with_player(
                    v@[j]@,
                    if first_only {
                        j == 0
                    } else {
                        v@[j].name@ == name@
                    },
                ),
        decreases v@.len() - i,
    {
        let mut s = v[i].clone();
        if first_only {
            s.player = i == 0;
        } else {
            s.player = str_eq(s.name.as_str(), name);
        }
        res.push(s);
        i = i + 1;
    }
    res
}

impl OobAir {
    /// Makes the first blue squadron the player's and no other.
    pub fn set_player_defaults(&mut self)
        ensures
            final(self).blue@.len() == old(self).blue@.len(),
            final(self).red@.len() == old(self).red@.len(),
            forall|i: int|
                0 <= i < old(self).blue@.len() ==> (#[trigger] final(self).blue@[i])@
                    == with_player(old(self).blue@[i]@, i == 0),
            forall|i: int|
                0 <= i < old(self).red@.len() ==> (#[trigger] final(self).red@[i])@
                    == with_player(old(self).red@[i]@, false),
    {
        let blue = set_player_flags(&self.blue, true, "");
        let red = clear_player_flags(&self.red);
        self.blue = blue;
        self.red = red;
    }

    /// Makes the squadrons called `name` the player's (on either side) and no other.
    pub fn set_player_squadron(&mut self, name: &str)
        ensures
            final(self).blue@.len() == old(self).blue@.len(),
            final(self).red@.len() == old(self).red@.len(),
            forall|i: int|
                0 <= i < old(self).blue@.len() ==> (#[trigger] final(self).blue@[i])@
                    == with_player(old(self).blue@[i]@, old(self).blue@[i].name@ == name@),
            forall|i: int|
                0 <= i < old(self).red@.len() ==> (#[trigger] final(self).red@[i])@
                    == with_player(old(self).red@[i]@, old(self).red@[i].name@ == name@),
    {
        let blue = set_player_flags(&self.blue, false, name);
        let red = set_player_flags(&self.red, false, name);
        self.blue = blue;
        self.red = red;
    }

    /// Copies of the squadrons based at `ab_name`: the blue ones, then the red
    /// ones, each side in order.
    pub fn squadrons_for_airbase(&self, ab_name: &str) -> (res: Vec<Squadron>)
        ensures
            squadron_models(res@) == based_at(self.blue@, ab_name@) + based_at(
                self.red@,
                ab_name@,
            ),
    {
        let mut res: Vec<Squadron> = Vec::new();
        collect_based_at(&self.blue, ab_name, &mut res);
        collect_based_at(&self.red, ab_name, &mut res);
        res
    }

    /// Removes the squadron called `name`: the first such blue squadron, or
    /// else the first such red one; reports when neither side has one.
    pub fn delete_by_name(&mut self, name: &str) -> (res: Result<(), crate::validation::NotFound>)
        ensures
            crate::validation::first_named(old(self).blue@, name@) >= 0 ==> res is Ok
                && final(self).blue@ == old(self).blue@.remove(
                crate::validation::first_named(old(self).blue@, name@),
            ) && final(self).red@ == old(self).red@,
            crate::validation::first_named(old(self).blue@, name@) < 0
                && crate::validation::first_named(old(self).red@, name@) >= 0 ==> res is Ok
                && final(self).blue@ == old(self).blue@ && final(self).red@ == old(
                self,
            ).red@.remove(crate::validation::first_named(old(self).red@, name@)),
            crate::validation::first_named(old(self).blue@, name@) < 0
                && crate::validation::first_named(old(self).red@, name@) < 0 ==> res is Err
                && final(self).blue@ == old(self).blue@ && final(self).red@ == old(self).red@,
    {
        match crate::validation::delete_by_name(&mut self.blue, name) {
            Ok(()) => Ok(()),
            Err(_) => crate::validation::delete_by_name(&mut self.red, name),
        }
    }
}

/// Clears the player flag of every squadron of a list.
fn clear_player_flags(v: &Vec<Squadron>) -> (res: Vec<Squadron>)
    ensures
        res@.len() == v@.len(),
        forall|i: int| 0 <= i < v@.len() ==> (#[trigger] res@[i])@ == with_player(v@[i]@, false),
{
    let mut res: Vec<Squadron> = Vec::new();
    let mut i: usize = 0;
    while i < v.len()
        invariant
            i <= v@.len(),
            res@.len() == i,
            forall|j: int| 0 <= j < i ==> (#[trigger] res@[j])@ == with_player(v@[j]@, false),
        decreases v@.len() - i,
    {
        let mut s = v[i].clone();
        s.player = false;
        res.push(s);
        i = i + 1;
    }
    res
}

/// Appends to `out` copies of the squadrons of `v` based at `base`.
fn collect_based_at(v: &Vec<Squadron>, base: &str, out: &mut Vec<Squadron>)
    ensures
        squadron_models(final(out)@) == squadron_models(old(out)@) + based_at(v@, base@),
{
    let mut i: usize = 0;
    while i < v.len()
        invariant
            i <= v@.len(),
            squadron_models(out@) == squadron_models(old(out)@) + based_at(
                v@.take(i as int),
                base@,
            ),
        decreases v@.len() - i,
    {
        let ghost before = out@;
        proof {
            assert(v@.take(i + 1).drop_last() =~= v@.take(i as int));
            assert(v@.take(i + 1).last() == v@[i as int]);
        }
        if str_eq(v[i].base.as_str(), base) {
            let s = v[i].clone();
            out.push(s);
            assert(squadron_models(out@) =~= squadron_models(before).push(s@));
        }
        i = i + 1;
        assert(squadron_models(out@) =~= squadron_models(old(out)@) + based_at(
            v@.take(i as int),
            base@,
        ));
    }
    assert(v@.take(v@.len() as int) =~= v@);
}

/// The errors of a squadron based at `base`: the base must be an airbase of the campaign.
pub open spec fn squadron_errors(base: Seq<char>, airbases: AirbaseNames) -> Seq<ErrorModel> {
    if !airbases.exists_spec(base) {
        seq![
            (
                "base"@,
                "Airbase Name"@,
                "Airbase must be a fixed airbase, ship, farp, reserve or airstart"@,
            ),
        ]
    } else {
        Seq::empty()
    }
}

impl Squadron {
    /// Checks that the squadron is based at an airbase of the campaign.
    pub fn validate(&self, airbases: &AirbaseNames) -> (res: ValidationResult)
        ensures
            outcome_is(res, squadron_errors(self.base@, *airbases)),
    {
        let mut errors: Vec<ValidationError> = Vec::new();
        if !airbases.airbase_exists(self.base.as_str()) {
            errors.push(
                ValidationError::new(
                    "base",
                    "Airbase Name",
                    "Airbase must be a fixed airbase, ship, farp, reserve or airstart",
                ),
            );
        }
        assert(errors@.map_values(|e: ValidationError| e@) =~= squadron_errors(
            self.base@,
            *airbases,
        ));
        ValidationResult::from_errors(errors)
    }
}

} // verus!
