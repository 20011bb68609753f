//! Targets generated for the airbases that have squadrons, and the trigger
//! set that hides a strike target.
use vstd::prelude::*;
use vstd::string::*;
use crate::airbases::BaseRef;
use crate::oob::{based_at, OobAir, SquadronModel};
use crate::strmap::map_of_pairs;
use crate::targets::{RunwayAttack, Strike, StrikeModel, TargetFirepower, Intercept};
use crate::text::{str_eq, views};
use crate::trigger::{Actions, ActionsModel, Trigger, TriggerModel};

verus! {

/// Some squadron of either side is based at `name`.
pub open spec fn has_squadrons(oob: OobAir, name: Seq<char>) -> bool {
    based_at(oob.blue@, name).len() + based_at(oob.red@, name).len() > 0
}

/// A squadron that has the Intercept task among its tasks.
pub open spec fn flies_intercepts(m: SquadronModel) -> bool {
    map_of_pairs(m.tasks).dom().contains("Intercept"@)
}

/// The squadrons of both sides based at `name`: blue, then red.
pub open spec fn squadrons_at(oob: OobAir, name: Seq<char>) -> Seq<SquadronModel> {
    based_at(oob.blue@, name) + based_at(oob.red@, name)
}

/// Some squadron of either side based at `name` has the Intercept task.
pub open spec fn has_interceptors(oob: OobAir, name: Seq<char>) -> bool {
    exists|i: int|
        0 <= i < squadrons_at(oob, name).len() && #[trigger] flies_intercepts(
            squadrons_at(oob, name)[i],
        )
}

/// The airbases of `bases`, in order, that are not neutral and have squadrons.
pub open spec fn attackable(bases: Seq<BaseRef>, oob: OobAir) -> Seq<BaseRef>
    decreases bases.len(),
{
    if bases.len() == 0 {
        Seq::empty()
    } else {
        attackable(bases.drop_last(), oob) + if bases.last().side@ != "neutral"@
            && has_squadrons(oob, bases.last().name@) {
            seq![bases.last()]
        } else {
            Seq::<BaseRef>::empty()
        }
    }
}

/// The airbases of `bases`, in order, that are not neutral and have a squadron
/// that flies intercepts.
pub open spec fn defendable(bases: Seq<BaseRef>, oob: OobAir) -> Seq<BaseRef>
    decreases bases.len(),
{
    if bases.len() == 0 {
        Seq::empty()
    } else {
        defendable(bases.drop_last(), oob) + if bases.last().side@ != "neutral"@
            && has_interceptors(oob, bases.last().name@) {
            seq![bases.last()]
        } else {
            Seq::<BaseRef>::empty()
        }
    }
}

/// The side that attacks a base held by `side`: blue for a red base, red otherwise.
pub open spec fn attacker_of(side: Seq<char>) -> Seq<char> {
    if side == "red"@ {
        "blue"@
    } else {
        "red"@
    }
}

/// The strike generated against the parked aircraft of base `b`.
pub open spec fn oca_strike<C>(b: BaseRef) -> StrikeModel<C> {
    StrikeModel {
        priority: 1,
        text: b.name@ + " OCA Strike"@,
        inactive: false,
        firepower: TargetFirepower { min: 2, max: 2 },
        class: Some("airbase"@),
        class_template: Some(b.name@),
        elements: None,
        name: b.name@ + " OCA Strike"@,
        side: attacker_of(b.side@),
        attributes: seq!["parked_aircraft"@],
        picture: Seq::empty(),
    }
}

/// The models of a list of strikes.
pub open spec fn strike_models<C>(s: Seq<Strike<C>>) -> Seq<StrikeModel<C>> {
    s.map_values(|x: Strike<C>| x@)
}

/// Whether some squadron of either side is based at `name`.
fn base_has_squadrons(oob: &OobAir, name: &String) -> (res: bool)
    ensures
        res == has_squadrons(*oob, name@),
{
    let squadrons = oob.squadrons_for_airbase(name.as_str());
    assert(squadrons@.map_values(|q: crate::oob::Squadron| q@).len() == squadrons@.len());
    squadrons.len() > 0
}

/// The attacking side, as a string.
fn attacker(side: &String) -> (res: String)
    ensures
        res@ == attacker_of(side@),
{
    if str_eq(side.as_str(), "red") {
        "blue".to_owned()
    } else {
        "red".to_owned()
    }
}

/// A base name followed by a suffix.
fn suffixed(name: &String, suffix: &str) -> (res: String)
    ensures
        res@ == name@ + suffix@,
{
    let mut s = name.clone();
    s.append(suffix);
    s
}

/// A one-string list.
fn one_string(s: &str) -> (v: Vec<String>)
    ensures
        views(v@) == seq![s@],
{
    let mut v: Vec<String> = Vec::new();
    v.push(s.to_owned());
    assert(views(v@) =~= seq![s@]);
    v
}

/// Adds a strike on the parked aircraft of every fixed airbase that is not
/// neutral and has squadrons, in the order of `fixed`.
pub fn generate_airbase_strikes<C>(fixed: &Vec<BaseRef>, oob: &OobAir, strikes: &mut Vec<Strike<C>>)
    ensures
        strike_models(final(strikes)@) == strike_models(old(strikes)@) + attackable(
            fixed@,
            *oob,
        ).map_values(|b: BaseRef| oca_strike::<C>(b)),
{
    let mut i: usize = 0;
    while i < fixed.len()
        invariant
            i <= fixed@.len(),
            strike_models(strikes@) == strike_models(old(strikes)@) + attackable(
                fixed@.take(i as int),
                *oob,
            ).map_values(|b: BaseRef| oca_strike::<C>(b)),
        decreases fixed@.len() - i,
    {
        let ghost before = strikes@;
        let b = &fixed[i];
        proof {
            assert(fixed@.take(i + 1).drop_last() =~= fixed@.take(i as int));
            assert(fixed@.take(i + 1).last() == fixed@[i as int]);
        }
        if !str_eq(b.side.as_str(), "neutral") && base_has_squadrons(oob, &b.name) {
            let name = suffixed(&b.name, " OCA Strike");
            let s: Strike<C> = Strike {
                priority: 1,
                text: name.clone(),
                inactive: false,
                firepower: TargetFirepower { min: 2, max: 2 },
                class: Some("airbase".to_owned()),
                class_template: Some(b.name.clone()),
                elements: None,
                _name: name,
                _side: attacker(&b.side),
                attributes: one_string("parked_aircraft"),
                picture: Vec::new(),
            };
            proof {
                assert(views(s.picture@) =~= Seq::<Seq<char>>::empty());
                assert(s@ == oca_strike::<C>(*b));
            }
            strikes.push(s);
            assert(strike_models(strikes@) =~= strike_models(before).push(oca_strike::<C>(*b)));
        }
        i = i + 1;
        assert(strike_models(strikes@) =~= strike_models(old(strikes)@) + attackable(
            fixed@.take(i as int),
            *oob,
        ).map_values(|b: BaseRef| oca_strike::<C>(b)));
    }
    assert(fixed@.take(fixed@.len() as int) =~= fixed@);
}

/// A runway attack with its strings as character sequences.
pub struct RunwayAttackModel {
    pub firepower: TargetFirepower,
    pub airbase_name: Seq<char>,
    pub priority: u32,
    pub text: Seq<char>,
    pub inactive: bool,
    pub name: Seq<char>,
    pub side: Seq<char>,
    pub attributes: Seq<Seq<char>>,
    pub picture: Seq<Seq<char>>,
}

impl View for RunwayAttack {
    type V = RunwayAttackModel;

    open spec fn view(&self) -> RunwayAttackModel {
        RunwayAttackModel {
            firepower: self.firepower,
            airbase_name: self.airbase_name@,
            priority: self.priority,
            text: self.text@,
            inactive: self.inactive,
            name: self._name@,
            side: self._side@,
            attributes: views(self.attributes@),
            picture: views(self.picture@),
        }
    }
}

/// The runway attack generated against base `b`.
pub open spec fn runway_attack_on(b: BaseRef) -> RunwayAttackModel {
    RunwayAttackModel {
        firepower: TargetFirepower { min: 2, max: 8 },
        airbase_name: b.name@,
        priority: 1,
        text: b.name@ + " Runway Attack"@,
        inactive: false,
        name: b.name@ + " Runway Attack"@,
        side: attacker_of(b.side@),
        attributes: seq!["runway"@],
        picture: Seq::empty(),
    }
}

/// The models of a list of runway attacks.
pub open spec fn runway_models(s: Seq<RunwayAttack>) -> Seq<RunwayAttackModel> {
    s.map_values(|x: RunwayAttack| x@)
}

/// Adds a runway attack on every fixed airbase that is not neutral and has
/// squadrons, in the order of `fixed`.
pub fn generate_runway_strikes(fixed: &Vec<BaseRef>, oob: &OobAir, attacks: &mut Vec<RunwayAttack>)
    ensures
        runway_models(final(attacks)@) == runway_models(old(attacks)@) + attackable(
            fixed@,
            *oob,
        ).map_values(|b: BaseRef| runway_attack_on(b)),
{
    let mut i: usize = 0;
    while i < fixed.len()
        invariant
            i <= fixed@.len(),
            runway_models(attacks@) == runway_models(old(attacks)@) + attackable(
                fixed@.take(i as int),
                *oob,
            ).map_values(|b: BaseRef| runway_attack_on(b)),
        decreases fixed@.len() - i,
    {
        let ghost before = attacks@;
        let b = &fixed[i];
        proof {
            assert(fixed@.take(i + 1).drop_last() =~= fixed@.take(i as int));
            assert(fixed@.take(i + 1).last() == fixed@[i as int]);
        }
        if !str_eq(b.side.as_str(), "neutral") && base_has_squadrons(oob, &b.name) {
            let name = suffixed(&b.name, " Runway Attack");
            let a = RunwayAttack {
                priority: 1,
                text: name.clone(),
                inactive: false,
                firepower: TargetFirepower { min: 2, max: 8 },
                _name: name,
                _side: attacker(&b.side),
                attributes: one_string("runway"),
                picture: Vec::new(),
                airbase_name: b.name.clone(),
            };
            proof {
                assert(views(a.picture@) =~= Seq::<Seq<char>>::empty());
                assert(a@ == runway_attack_on(*b));
            }
            attacks.push(a);
            assert(runway_models(attacks@) =~= runway_models(before).push(runway_attack_on(*b)));
        }
        i = i + 1;
        assert(runway_models(attacks@) =~= runway_models(old(attacks)@) + attackable(
            fixed@.take(i as int),
            *oob,
        ).map_values(|b: BaseRef| runway_attack_on(b)));
    }
    assert(fixed@.take(fixed@.len() as int) =~= fixed@);
}

/// An intercept task with its strings as character sequences.
pub struct InterceptModel<F> {
    pub priority: u32,
    pub text: Seq<char>,
    pub base: Seq<char>,
    pub inactive: bool,
    pub radius: F,
    pub firepower: TargetFirepower,
    pub name: Seq<char>,
    pub side: Seq<char>,
    pub attributes: Seq<Seq<char>>,
}

impl<F> View for Intercept<F> {
    type V = InterceptModel<F>;

    open spec fn view(&self) -> InterceptModel<F> {
        InterceptModel {
            priority: self.priority,
            text: self.text@,
            base: self.base@,
            inactive: self.inactive,
            radius: self.radius,
            firepower: self.firepower,
            name: self._name@,
            side: self._side@,
            attributes: views(self.attributes@),
        }
    }
}

/// The alert intercept generated over base `b`, with radius `radius`; it is
/// flown by the side that holds the base.
pub open spec fn alert_over<F>(b: BaseRef, radius: F) -> InterceptModel<F> {
    InterceptModel {
        priority: 5,
        text: b.name@ + " Alert"@,
        base: b.name@,
        inactive: false,
        radius,
        firepower: TargetFirepower { min: 2, max: 2 },
        name: b.name@ + " Alert"@,
        side: b.side@,
        attributes: Seq::empty(),
    }
}

/// The models of a list of intercept tasks.
pub open spec fn intercept_models<F>(s: Seq<Intercept<F>>) -> Seq<InterceptModel<F>> {
    s.map_values(|x: Intercept<F>| x@)
}

/// Whether some squadron based at `name` flies intercepts.
fn base_has_interceptors(oob: &OobAir, name: &String) -> (res: bool)
    ensures
        res == has_interceptors(*oob, name@),
{
    let squadrons = oob.squadrons_for_airbase(name.as_str());
    let ghost s = squadrons_at(*oob, name@);
    let mut i: usize = 0;
    while i < squadrons.len()
        invariant
            i <= squadrons@.len(),
            squadrons@.map_values(|q: crate::oob::Squadron| q@) == s,
            s == squadrons_at(*oob, name@),
            forall|j: int| 0 <= j < i ==> !flies_intercepts(#[trigger] s[j]),
        decreases squadrons@.len() - i,
    {
        assert(s[i as int] == squadrons@[i as int]@);
        if squadrons[i].tasks.contains_key("Intercept") {
            assert(squadrons@[i as int]@.tasks == squadrons@[i as int].tasks.pairs());
            assert(flies_intercepts(s[i as int]));
            assert(s.len() == squadrons@.len());
            assert(flies_intercepts(squadrons_at(*oob, name@)[i as int]));
            return true;
        }
        i = i + 1;
    }
    assert(!has_interceptors(*oob, name@)) by {
        assert(s.len() == squadrons@.len());
    }
    false
}

/// Appends alert intercepts over the bases of `bases` that qualify.
fn add_alerts<F: Copy>(
    bases: &Vec<BaseRef>,
    oob: &OobAir,
    radius: F,
    intercepts: &mut Vec<Intercept<F>>,
)
    ensures
        intercept_models(final(intercepts)@) == intercept_models(old(intercepts)@) + defendable(
            bases@,
            *oob,
        ).map_values(|b: BaseRef| alert_over(b, radius)),
{
    let mut i: usize = 0;
    while i < bases.len()
        invariant
            i <= bases@.len(),
            intercept_models(intercepts@) == intercept_models(old(intercepts)@) + defendable(
                bases@.take(i as int),
                *oob,
            ).map_values(|b: BaseRef| alert_over(b, radius)),
        decreases bases@.len() - i,
    {
        let ghost before = intercepts@;
        let b = &bases[i];
        proof {
            assert(bases@.take(i + 1).drop_last() =~= bases@.take(i as int));
            assert(bases@.take(i + 1).last() == bases@[i as int]);
        }
        if !str_eq(b.side.as_str(), "neutral") && base_has_interceptors(oob, &b.name) {
            let name = suffixed(&b.name, " Alert");
            let t = Intercept {
                priority: 5,
                text: name.clone(),
                base: b.name.clone(),
                inactive: false,
                radius,
                firepower: TargetFirepower { min: 2, max: 2 },
                _name: name,
                _side: b.side.clone(),
                attributes: Vec::new(),
            };
            proof {
                assert(views(t.attributes@) =~= Seq::<Seq<char>>::empty());
                assert(t@ == alert_over(*b, radius));
            }
            intercepts.push(t);
            assert(intercept_models(intercepts@) =~= intercept_models(before).push(
                alert_over(*b, radius),
            ));
        }
        i = i + 1;
        assert(intercept_models(intercepts@) =~= intercept_models(old(intercepts)@) + defendable(
            bases@.take(i as int),
            *oob,
        ).map_values(|b: BaseRef| alert_over(b, radius)));
    }
    assert(bases@.take(bases@.len() as int) =~= bases@);
}

/// Adds an alert intercept, of radius `radius`, over every fixed airbase and
/// then every ship base that is not neutral and has a squadron that flies
/// intercepts.
pub fn generate_intercepts<F: Copy>(
    fixed: &Vec<BaseRef>,
    ship: &Vec<BaseRef>,
    oob: &OobAir,
    radius: F,
    intercepts: &mut Vec<Intercept<F>>,
)
    ensures
        intercept_models(final(intercepts)@) == intercept_models(old(intercepts)@) + defendable(
            fixed@,
            *oob,
        ).map_values(|b: BaseRef| alert_over(b, radius)) + defendable(ship@, *oob).map_values(
            |b: BaseRef| alert_over(b, radius),
        ),
{
    add_alerts(fixed, oob, radius, intercepts);
    add_alerts(ship, oob, radius, intercepts);
}

/// The strike target cannot be hidden: it is not a strike on a ground vehicle group.
#[derive(Debug, Clone, PartialEq)]
pub struct NotAVehicleStrike;

/// The trigger that hides a strike target and its vehicle group `group`.
pub open spec fn hide_trigger(name: Seq<char>, text: Seq<char>, group: Seq<char>) -> TriggerModel {
    TriggerModel {
        active: true,
        once: false,
        condition: "true"@,
        action: ActionsModel::Many(
            seq![
                "Action.TargetActive(\""@ + name + "\", false)"@,
                "Action.GroupHidden(\""@ + group + "\", true)"@,
                "Action.GroupProbability(\""@ + group + "\", 0)"@,
            ],
        ),
        name: text + " - Hide"@,
    }
}

/// A string between a prefix and a suffix.
fn framed(prefix: &str, middle: &String, suffix: &str) -> (res: String)
    ensures
        res@ == prefix@ + middle@ + suffix@,
{
    let mut s = prefix.to_owned();
    s.append(middle.as_str());
    s.append(suffix);
    s
}

/// Hides a strike on a ground vehicle group: marks it inactive and adds a
/// trigger, which can be adjusted later, that deactivates the target and
/// hides its group. Other strike targets are left alone and reported.
pub fn hide_strike_target<C>(item: &mut Strike<C>, triggers: &mut Vec<Trigger>) -> (res: Result<
    (),
    NotAVehicleStrike,
>)
    ensures
        (old(item)@.class == Some("vehicle"@) && old(item)@.class_template is Some) ==> res is Ok
            && final(item)@ == (StrikeModel { inactive: true, ..old(item)@ })
            && final(triggers)@.len() == old(triggers)@.len() + 1 && final(triggers)@.drop_last()
            == old(triggers)@ && final(triggers)@.last()@ == hide_trigger(
            old(item)@.name,
            old(item)@.text,
            old(item)@.class_template->0,
        ),
        !(old(item)@.class == Some("vehicle"@) && old(item)@.class_template is Some) ==> res is Err
            && final(item)@ == old(item)@ && final(triggers)@ == old(triggers)@,
{
    let is_vehicle = match &item.class {
        Some(c) => str_eq(c.as_str(), "vehicle"),
        None => false,
    };
    if is_vehicle {
        match &item.class_template {
            Some(group) => {
                let mut actions: Vec<String> = Vec::new();
                actions.push(framed("Action.TargetActive(\"", &item._name, "\", false)"));
                actions.push(framed("Action.GroupHidden(\"", group, "\", true)"));
                actions.push(framed("Action.GroupProbability(\"", group, "\", 0)"));
                let mut name = item.text.clone();
                name.append(" - Hide");
                let t = Trigger {
                    active: true,
                    once: false,
                    condition: "true".to_owned(),
                    action: Actions::Many(actions),
                    _name: name,
                };
                assert(t@ == hide_trigger(item._name@, item.text@, group@)) by {
                    assert(crate::trigger::string_views(actions@) =~= seq![
                        "Action.TargetActive(\""@ + item._name@ + "\", false)"@,
                        "Action.GroupHidden(\""@ + group@ + "\", true)"@,
                        "Action.GroupProbability(\""@ + group@ + "\", 0)"@,
                    ]);
                }
                item.inactive = true;
                triggers.push(t);
                assert(final(triggers)@.drop_last() =~= old(triggers)@);
                return Ok(());
            },
            None => {},
        }
    }
    Err(NotAVehicleStrike)
}

/// The strikes generated on the parked aircraft of `fixed`, as
/// `generate_airbase_strikes` appends them.
pub open spec fn oca_strikes<C>(fixed: Seq<BaseRef>, oob: OobAir) -> Seq<StrikeModel<C>> {
    attackable(fixed, oob).map_values(|b: BaseRef| oca_strike::<C>(b))
}

/// Strike `s` is the strike on the parked aircraft of base `b`: its class
/// is "airbase" and its class template names the base, it is named after
/// the base, and it belongs to the side that attacks the base.
pub open spec fn strikes_base<C>(s: StrikeModel<C>, b: BaseRef) -> bool {
    &&& s.class == Some("airbase"@)
    &&& s.class_template == Some(b.name@)
    &&& s.name == b.name@ + " OCA Strike"@
    &&& s.side == attacker_of(b.side@)
}

/// A base is attacked: it is not neutral and has squadrons.
pub open spec fn is_attacked(b: BaseRef, oob: OobAir) -> bool {
    b.side@ != "neutral"@ && has_squadrons(oob, b.name@)
}

/// Strike `i` of the generated strikes is on an attacked base of `fixed`.
pub open spec fn oca_on_some_base<C>(fixed: Seq<BaseRef>, oob: OobAir, i: int) -> bool {
    exists|j: int|
        0 <= j < fixed.len() && is_attacked(fixed[j], oob) && strikes_base(
            oca_strikes::<C>(fixed, oob)[i],
            #[trigger] fixed[j],
        )
}

/// Attacked base `j` of `fixed` has a generated strike on it.
pub open spec fn base_has_oca<C>(fixed: Seq<BaseRef>, oob: OobAir, j: int) -> bool {
    exists|i: int|
        0 <= i < attackable(fixed, oob).len() && strikes_base(
            #[trigger] oca_strikes::<C>(fixed, oob)[i],
            fixed[j],
        )
}

proof fn lemma_attackable_from(fixed: Seq<BaseRef>, oob: OobAir, i: int)
    requires
        0 <= i < attackable(fixed, oob).len(),
    ensures
        exists|j: int| 0 <= j < fixed.len() && is_attacked(fixed[j], oob) && #[trigger] fixed[j]
            == attackable(fixed, oob)[i],
    decreases fixed.len(),
{
    let q = fixed.drop_last();
    let prev = attackable(q, oob);
    if i < prev.len() {
        lemma_attackable_from(q, oob, i);
        let j = choose|j: int| 0 <= j < q.len() && is_attacked(q[j], oob) && #[trigger] q[j] == prev[i];
        assert(q[j] == fixed[j]);
        assert(attackable(fixed, oob)[i] == prev[i]);
    } else {
        assert(fixed[fixed.len() - 1] == fixed.last());
    }
}

proof fn lemma_attackable_covers(fixed: Seq<BaseRef>, oob: OobAir, j: int)
    requires
        0 <= j < fixed.len(),
        is_attacked(fixed[j], oob),
    ensures
        exists|i: int| 0 <= i < attackable(fixed, oob).len() && #[trigger] attackable(fixed, oob)[i]
            == fixed[j],
    decreases fixed.len(),
{
    let q = fixed.drop_last();
    let prev = attackable(q, oob);
    if j < fixed.len() - 1 {
        assert(q[j] == fixed[j]);
        lemma_attackable_covers(q, oob, j);
        let i = choose|i: int| 0 <= i < prev.len() && #[trigger] prev[i] == q[j];
        assert(attackable(fixed, oob)[i] == prev[i]);
    } else {
        assert(fixed[j] == fixed.last());
        assert(attackable(fixed, oob)[prev.len() as int] == fixed[j]);
    }
}

/// The strikes generated on parked aircraft are one on each base of
/// `fixed` that is not neutral and has squadrons, and no other: each is of
/// class "airbase", has the base as class template, is named "<base> OCA
/// Strike", and belongs to the side that attacks the base.
pub proof fn law_oca_strikes_name_their_bases<C>(fixed: Seq<BaseRef>, oob: OobAir)
    ensures
        forall|i: int|
            0 <= i < attackable(fixed, oob).len() ==> #[trigger] oca_on_some_base::<C>(fixed, oob, i),
        forall|j: int|
            0 <= j < fixed.len() && is_attacked(fixed[j], oob) ==> #[trigger] base_has_oca::<C>(
                fixed,
                oob,
                j,
            ),
{
    let gen = oca_strikes::<C>(fixed, oob);
    assert(gen.len() == attackable(fixed, oob).len());
    assert forall|i: int| 0 <= i < attackable(fixed, oob).len() implies #[trigger] oca_on_some_base::<C>(
        fixed,
        oob,
        i,
    ) by {
        lemma_attackable_from(fixed, oob, i);
        let j = choose|j: int|
            0 <= j < fixed.len() && is_attacked(fixed[j], oob) && #[trigger] fixed[j] == attackable(
                fixed,
                oob,
            )[i];
        assert(gen[i] == oca_strike::<C>(fixed[j]));
        assert(strikes_base(gen[i], fixed[j]));
    }
    assert forall|j: int| 0 <= j < fixed.len() && is_attacked(fixed[j], oob) implies #[trigger] base_has_oca::<C>(
        fixed,
        oob,
        j,
    ) by {
        lemma_attackable_covers(fixed, oob, j);
        let i = choose|i: int| 0 <= i < attackable(fixed, oob).len() && #[trigger] attackable(fixed, oob)[i]
            == fixed[j];
        assert(gen[i] == oca_strike::<C>(fixed[j]));
        assert(strikes_base(gen[i], fixed[j]));
    }
}

/// The runway attacks generated on `fixed`, as `generate_runway_strikes`
/// appends them.
pub open spec fn runway_attacks(fixed: Seq<BaseRef>, oob: OobAir) -> Seq<RunwayAttackModel> {
    attackable(fixed, oob).map_values(|b: BaseRef| runway_attack_on(b))
}

/// Attack `a` is on the runway of base `b`: it names the base as its
/// airbase, is named after it, and belongs to the side that attacks it.
pub open spec fn attacks_runway(a: RunwayAttackModel, b: BaseRef) -> bool {
    a.airbase_name == b.name@ && a.name == b.name@ + " Runway Attack"@ && a.side == attacker_of(b.side@)
}

/// Runway attack `i` is on an attacked base of `fixed`.
pub open spec fn runway_on_some_base(fixed: Seq<BaseRef>, oob: OobAir, i: int) -> bool {
    exists|j: int|
        0 <= j < fixed.len() && is_attacked(fixed[j], oob) && attacks_runway(
            runway_attacks(fixed, oob)[i],
            #[trigger] fixed[j],
        )
}

/// Attacked base `j` of `fixed` has a runway attack on it.
pub open spec fn base_has_runway_attack(fixed: Seq<BaseRef>, oob: OobAir, j: int) -> bool {
    exists|i: int|
        0 <= i < attackable(fixed, oob).len() && attacks_runway(
            #[trigger] runway_attacks(fixed, oob)[i],
            fixed[j],
        )
}

/// The runway attacks generated are one on each base of `fixed` that is not
/// neutral and has squadrons, and no other, each naming its base and
/// belonging to the side that attacks it.
pub proof fn law_runway_attacks_name_their_bases(fixed: Seq<BaseRef>, oob: OobAir)
    ensures
        forall|i: int| 0 <= i < attackable(fixed, oob).len() ==> #[trigger] runway_on_some_base(fixed, oob, i),
        forall|j: int|
            0 <= j < fixed.len() && is_attacked(fixed[j], oob) ==> #[trigger] base_has_runway_attack(
                fixed,
                oob,
                j,
            ),
{
    let gen = runway_attacks(fixed, oob);
    assert(gen.len() == attackable(fixed, oob).len());
    assert forall|i: int| 0 <= i < attackable(fixed, oob).len() implies #[trigger] runway_on_some_base(
        fixed,
        oob,
        i,
    ) by {
        lemma_attackable_from(fixed, oob, i);
        let j = choose|j: int|
            0 <= j < fixed.len() && is_attacked(fixed[j], oob) && #[trigger] fixed[j] == attackable(
                fixed,
                oob,
            )[i];
        assert(gen[i] == runway_attack_on(fixed[j]));
        assert(attacks_runway(gen[i], fixed[j]));
    }
    assert forall|j: int| 0 <= j < fixed.len() && is_attacked(fixed[j], oob) implies #[trigger] base_has_runway_attack(
        fixed,
        oob,
        j,
    ) by {
        lemma_attackable_covers(fixed, oob, j);
        let i = choose|i: int| 0 <= i < attackable(fixed, oob).len() && #[trigger] attackable(fixed, oob)[i]
            == fixed[j];
        assert(gen[i] == runway_attack_on(fixed[j]));
        assert(attacks_runway(gen[i], fixed[j]));
    }
}

/// A base is defended: it is not neutral and has a squadron that flies
/// intercepts.
pub open spec fn is_defended(b: BaseRef, oob: OobAir) -> bool {
    b.side@ != "neutral"@ && has_interceptors(oob, b.name@)
}

proof fn lemma_defendable_from(bases: Seq<BaseRef>, oob: OobAir, i: int)
    requires
        0 <= i < defendable(bases, oob).len(),
    ensures
        exists|j: int| 0 <= j < bases.len() && is_defended(bases[j], oob) && #[trigger] bases[j]
            == defendable(bases, oob)[i],
    decreases bases.len(),
{
    let q = bases.drop_last();
    let prev = defendable(q, oob);
    if i < prev.len() {
        lemma_defendable_from(q, oob, i);
        let j = choose|j: int| 0 <= j < q.len() && is_defended(q[j], oob) && #[trigger] q[j] == prev[i];
        assert(q[j] == bases[j]);
        assert(defendable(bases, oob)[i] == prev[i]);
    } else {
        assert(bases[bases.len() - 1] == bases.last());
    }
}

proof fn lemma_defendable_covers(bases: Seq<BaseRef>, oob: OobAir, j: int)
    requires
        0 <= j < bases.len(),
        is_defended(bases[j], oob),
    ensures
        exists|i: int| 0 <= i < defendable(bases, oob).len() && #[trigger] defendable(bases, oob)[i]
            == bases[j],
    decreases bases.len(),
{
    let q = bases.drop_last();
    let prev = defendable(q, oob);
    if j < bases.len() - 1 {
        assert(q[j] == bases[j]);
        lemma_defendable_covers(q, oob, j);
        let i = choose|i: int| 0 <= i < prev.len() && #[trigger] prev[i] == q[j];
        assert(defendable(bases, oob)[i] == prev[i]);
    } else {
        assert(bases[j] == bases.last());
        assert(defendable(bases, oob)[prev.len() as int] == bases[j]);
    }
}

/// The alerts generated over `bases`, as `generate_intercepts` appends
/// them for the airfields and then for the ships.
pub open spec fn alerts<F>(bases: Seq<BaseRef>, oob: OobAir, radius: F) -> Seq<InterceptModel<F>> {
    defendable(bases, oob).map_values(|b: BaseRef| alert_over(b, radius))
}

/// Intercept `t` is the alert over base `b`: it is based there, named
/// after it, belongs to the base's own side and covers `radius`.
pub open spec fn alert_for<F>(t: InterceptModel<F>, b: BaseRef, radius: F) -> bool {
    t.base == b.name@ && t.name == b.name@ + " Alert"@ && t.side == b.side@ && t.radius == radius
}

/// Alert `i` is over a defended base of `bases`.
pub open spec fn alert_on_some_base<F>(bases: Seq<BaseRef>, oob: OobAir, radius: F, i: int) -> bool {
    exists|j: int|
        0 <= j < bases.len() && is_defended(bases[j], oob) && alert_for(
            alerts(bases, oob, radius)[i],
            #[trigger] bases[j],
            radius,
        )
}

/// Defended base `j` of `bases` has an alert over it.
pub open spec fn base_has_alert<F>(bases: Seq<BaseRef>, oob: OobAir, radius: F, j: int) -> bool {
    exists|i: int|
        0 <= i < defendable(bases, oob).len() && alert_for(
            #[trigger] alerts(bases, oob, radius)[i],
            bases[j],
            radius,
        )
}

/// The alerts generated are one over each base that is not neutral and has
/// a squadron flying intercepts, and no other, each based there, of the
/// base's side, with the given radius.
pub proof fn law_alerts_over_defended_bases<F>(bases: Seq<BaseRef>, oob: OobAir, radius: F)
    ensures
        forall|i: int|
            0 <= i < defendable(bases, oob).len() ==> #[trigger] alert_on_some_base(bases, oob, radius, i),
        forall|j: int|
            0 <= j < bases.len() && is_defended(bases[j], oob) ==> #[trigger] base_has_alert(
                bases,
                oob,
                radius,
                j,
            ),
{
    let gen = alerts(bases, oob, radius);
    assert(gen.len() == defendable(bases, oob).len());
    assert forall|i: int| 0 <= i < defendable(bases, oob).len() implies #[trigger] alert_on_some_base(
        bases,
        oob,
        radius,
        i,
    ) by {
        lemma_defendable_from(bases, oob, i);
        let j = choose|j: int|
            0 <= j < bases.len() && is_defended(bases[j], oob) && #[trigger] bases[j] == defendable(
                bases,
                oob,
            )[i];
        assert(gen[i] == alert_over(bases[j], radius));
        assert(alert_for(gen[i], bases[j], radius));
    }
    assert forall|j: int| 0 <= j < bases.len() && is_defended(bases[j], oob) implies #[trigger] base_has_alert(
        bases,
        oob,
        radius,
        j,
    ) by {
        lemma_defendable_covers(bases, oob, j);
        let i = choose|i: int| 0 <= i < defendable(bases, oob).len() && #[trigger] defendable(bases, oob)[i]
            == bases[j];
        assert(gen[i] == alert_over(bases[j], radius));
        assert(alert_for(gen[i], bases[j], radius));
    }
}

} // verus!
