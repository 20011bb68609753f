//! The target list of a campaign: for each side, the targets it can attack,
//! by name. A new target list is read off the mission: trigger zones named
//! `<SIDE>_<TYPE>_...`, vehicle groups named `STRIKE_<TARGET>`, every ship
//! group, and static groups named `STATICSTRIKE_<TARGET>_<ELEMENT>`.
use vstd::prelude::*;
use vstd::string::*;
use crate::generate::InterceptModel;
use crate::anti_ship::AntiShipStrike;
use crate::strmap::StrMap;
use crate::targets::{
    CAP, FighterSweep, Intercept, Refueling, Strike, StrikeElement,
    StrikeNamedStaticTarget, TargetFirepower, opt_seq,
};
use crate::text::{lemma_split_nonempty, lowercase_of, split_on, split_spec, str_eq, to_lowercase, views};

verus! {

/// A strike element at fixed map coordinates; `F` holds them.
#[derive(Debug, Clone, PartialEq)]
pub struct StrikeFixedCoordTarget<F> {
    pub name: String,
    pub x: F,
    pub y: F,
}

/// An AWACS orbit at a trigger zone; `F` holds radius and axis.
#[derive(Debug, Clone, PartialEq)]
pub struct AWACS<F> {
    pub priority: u32,
    pub ref_point: String,
    pub radius: F,
    pub axis: F,
    pub text: String,
    pub inactive: bool,
    pub firepower: TargetFirepower,
    pub _name: String,
    pub _side: String,
}

/// A target of the target list.
#[derive(Debug)]
pub enum Target<F> {
    CAP(CAP<F>),
    Refueling(Refueling<F>),
    Intercept(Intercept<F>),
    FighterSweep(FighterSweep<F>),
    Strike(Strike<StrikeFixedCoordTarget<F>>),
    AntiShipStrike(AntiShipStrike),
    AWACS(AWACS<F>),
}

/// An orbit target (CAP, refueling, AWACS) with its strings as character
/// sequences.
pub struct OrbitModel<F> {
    pub priority: u32,
    pub ref_point: Seq<char>,
    pub radius: F,
    pub axis: F,
    pub text: Seq<char>,
    pub inactive: bool,
    pub firepower: TargetFirepower,
    pub name: Seq<char>,
    pub side: Seq<char>,
}

/// A fighter sweep with its strings as character sequences.
pub struct SweepModel<F> {
    pub priority: u32,
    pub text: Seq<char>,
    pub x: F,
    pub y: F,
    pub inactive: bool,
    pub firepower: TargetFirepower,
    pub name: Seq<char>,
    pub side: Seq<char>,
}

/// A strike element with its name as a character sequence.
pub enum ElementModel<F> {
    FixedCoord(Seq<char>, F, F),
    NamedStatic(Seq<char>),
}

/// A strike target with its strings and elements as models.
pub struct StrikeTargetModel<F> {
    pub priority: u32,
    pub text: Seq<char>,
    pub inactive: bool,
    pub firepower: TargetFirepower,
    pub class: Option<Seq<char>>,
    pub class_template: Option<Seq<char>>,
    pub elements: Option<Seq<ElementModel<F>>>,
    pub name: Seq<char>,
    pub side: Seq<char>,
    pub attributes: Seq<Seq<char>>,
    pub picture: Seq<Seq<char>>,
}

/// An anti-ship strike with its strings as character sequences.
pub struct AntiShipModel {
    pub priority: u32,
    pub text: Seq<char>,
    pub inactive: bool,
    pub firepower: TargetFirepower,
    pub class: Seq<char>,
    pub class_template: Option<Seq<char>>,
    pub name: Seq<char>,
    pub side: Seq<char>,
    pub attributes: Seq<Seq<char>>,
}

/// A target as a model.
pub enum TargetModel<F> {
    Cap(OrbitModel<F>),
    Refueling(OrbitModel<F>),
    Intercept(InterceptModel<F>),
    FighterSweep(SweepModel<F>),
    Strike(StrikeTargetModel<F>),
    AntiShip(AntiShipModel),
    Awacs(OrbitModel<F>),
}

/// The model of a strike element.
pub open spec fn element_model<F>(e: StrikeElement<StrikeFixedCoordTarget<F>>) -> ElementModel<F> {
    match e {
        StrikeElement::FixedCoord(c) => ElementModel::FixedCoord(c.name@, c.x, c.y),
        StrikeElement::NamedStatic(s) => ElementModel::NamedStatic(s.name@),
    }
}

/// The models of an optional list of strike elements.
pub open spec fn elements_model<F>(e: Option<Vec<StrikeElement<StrikeFixedCoordTarget<F>>>>) -> Option<
    Seq<ElementModel<F>>,
> {
    match e {
        Some(v) => Some(v@.map_values(|x: StrikeElement<StrikeFixedCoordTarget<F>>| element_model(x))),
        None => None,
    }
}

/// The model of a strike target.
pub open spec fn strike_model<F>(s: Strike<StrikeFixedCoordTarget<F>>) -> StrikeTargetModel<F> {
    StrikeTargetModel {
        priority: s.priority,
        text: s.text@,
        inactive: s.inactive,
        firepower: s.firepower,
        class: opt_seq(s.class),
        class_template: opt_seq(s.class_template),
        elements: elements_model(s.elements),
        name: s._name@,
        side: s._side@,
        attributes: views(s.attributes@),
        picture: views(s.picture@),
    }
}

impl<F> View for Target<F> {
    type V = TargetModel<F>;

    open spec fn view(&self) -> TargetModel<F> {
        match self {
            Target::CAP(c) => TargetModel::Cap(
                OrbitModel {
                    priority: c.priority,
                    ref_point: c.ref_point@,
                    radius: c.radius,
                    axis: c.axis,
                    text: c.text@,
                    inactive: c.inactive,
                    firepower: c.firepower,
                    name: c._name@,
                    side: c._side@,
                },
            ),
            Target::Refueling(c) => TargetModel::Refueling(
                OrbitModel {
                    priority: c.priority,
                    ref_point: c.ref_point@,
                    radius: c.radius,
                    axis: c.axis,
                    text: c.text@,
                    inactive: c.inactive,
                    firepower: c.firepower,
                    name: c._name@,
                    side: c._side@,
                },
            ),
            Target::AWACS(c) => TargetModel::Awacs(
                OrbitModel {
                    priority: c.priority,
                    ref_point: c.ref_point@,
                    radius: c.radius,
                    axis: c.axis,
                    text: c.text@,
                    inactive: c.inactive,
                    firepower: c.firepower,
                    name: c._name@,
                    side: c._side@,
                },
            ),
            Target::Intercept(i) => TargetModel::Intercept(i@),
            Target::FighterSweep(s) => TargetModel::FighterSweep(
                SweepModel {
                    priority: s.priority,
                    text: s.text@,
                    x: s.x,
                    y: s.y,
                    inactive: s.inactive,
                    firepower: s.firepower,
                    name: s._name@,
                    side: s._side@,
                },
            ),
            Target::Strike(s) => TargetModel::Strike(strike_model(*s)),
            Target::AntiShipStrike(a) => TargetModel::AntiShip(
                AntiShipModel {
                    priority: a.priority,
                    text: a.text@,
                    inactive: a.inactive,
                    firepower: a.firepower,
                    class: a.class@,
                    class_template: opt_seq(a.class_template),
                    name: a._name@,
                    side: a._side@,
                    attributes: views(a.attributes@),
                },
            ),
        }
    }
}

/// The targets of both sides, each side keyed by target name.
#[derive(Debug)]
pub struct TargetList<F> {
    pub blue: StrMap<Target<F>>,
    pub red: StrMap<Target<F>>,
}

/// The targets of one side as models.
pub open spec fn targets_model<F>(m: Map<Seq<char>, Target<F>>) -> Map<Seq<char>, TargetModel<F>> {
    m.map_values(|t: Target<F>| t@)
}

/// The target list as two maps of models.
pub struct TargetListModel<F> {
    pub blue: Map<Seq<char>, TargetModel<F>>,
    pub red: Map<Seq<char>, TargetModel<F>>,
}

impl<F> View for TargetList<F> {
    type V = TargetListModel<F>;

    open spec fn view(&self) -> TargetListModel<F> {
        TargetListModel { blue: targets_model(self.blue.view()), red: targets_model(self.red.view()) }
    }
}

/// A trigger zone of the mission: its name and position, and, where its name
/// carries them, the orbit axis and the orbit radius in metres (`F` holds
/// numbers).
#[derive(Debug, Clone)]
pub struct MissionZone<F> {
    pub name: String,
    pub x: F,
    pub y: F,
    pub orbit: Option<(F, F)>,
}

/// A group of the mission and the side of the country it belongs to.
#[derive(Debug, Clone, PartialEq)]
pub struct SideGroup {
    pub name: String,
    pub side: String,
}

/// The map of one side.
pub open spec fn side_map<F>(tl: TargetListModel<F>, blue: bool) -> Map<Seq<char>, TargetModel<F>> {
    if blue {
        tl.blue
    } else {
        tl.red
    }
}

/// The target list with the map of one side replaced.
pub open spec fn with_side<F>(
    tl: TargetListModel<F>,
    blue: bool,
    m: Map<Seq<char>, TargetModel<F>>,
) -> TargetListModel<F> {
    if blue {
        TargetListModel { blue: m, red: tl.red }
    } else {
        TargetListModel { blue: tl.blue, red: m }
    }
}

/// Adds an element to the strike target under `key`, or, where that name holds
/// no strike target, puts `fresh` there.
pub open spec fn add_element<F>(
    m: Map<Seq<char>, TargetModel<F>>,
    key: Seq<char>,
    e: ElementModel<F>,
    fresh: StrikeTargetModel<F>,
) -> Map<Seq<char>, TargetModel<F>> {
    if m.dom().contains(key) && m[key] is Strike {
        let s = m[key]->Strike_0;
        m.insert(key, TargetModel::Strike(StrikeTargetModel { elements: Some(s.elements.unwrap().push(e)), ..s }))
    } else {
        m.insert(key, TargetModel::Strike(fresh))
    }
}

/// An orbit target at zone `z`.
pub open spec fn orbit_at<F>(z: MissionZone<F>, priority: u32, fp: u32, side: Seq<char>) -> OrbitModel<F> {
    OrbitModel {
        priority,
        ref_point: z.name@,
        radius: z.orbit.unwrap().1,
        axis: z.orbit.unwrap().0,
        text: z.name@,
        inactive: false,
        firepower: TargetFirepower { min: fp, max: fp },
        name: z.name@,
        side,
    }
}

/// A strike target made of the elements of a group of zones or statics.
pub open spec fn grouped_strike<F>(
    name: Seq<char>,
    side: Seq<char>,
    class: Option<Seq<char>>,
    e: ElementModel<F>,
) -> StrikeTargetModel<F> {
    StrikeTargetModel {
        priority: 1,
        text: name,
        inactive: false,
        firepower: TargetFirepower { min: 2, max: 4 },
        class,
        class_template: None,
        elements: Some(seq![e]),
        name,
        side,
        attributes: Seq::empty(),
        picture: Seq::empty(),
    }
}

/// The kind of a zone: the second piece of its name, lower-cased.
pub open spec fn zone_kind(name: Seq<char>) -> Seq<char> {
    lowercase_of(split_spec(name, '_')[1])
}

/// The side of a zone: the first piece of its name, lower-cased.
pub open spec fn zone_side(name: Seq<char>) -> Seq<char> {
    lowercase_of(split_spec(name, '_')[0])
}

/// A zone can be read: its name has a side and a type, an orbit zone has its
/// axis and radius, and a static strike zone names its group and element.
pub open spec fn zone_ok<F>(z: MissionZone<F>) -> bool {
    let parts = split_spec(z.name@, '_');
    let kind = zone_kind(z.name@);
    &&& parts.len() >= 2
    &&& (kind == "cap"@ || kind == "refueling"@ || kind == "awacs"@) ==> z.orbit is Some
    &&& kind == "staticstrike"@ ==> parts.len() >= 4
}

/// The target list after reading zone `z`: CAP, refueling and AWACS zones give
/// orbits, fighter sweep zones give sweeps, static strike zones add an element
/// to a strike target; other zones change nothing. A zone whose side is
/// "blue" (in any case) goes to blue's targets, any other to red's.
pub open spec fn zone_step<F>(tl: TargetListModel<F>, z: MissionZone<F>) -> TargetListModel<F> {
    let parts = split_spec(z.name@, '_');
    let side = zone_side(z.name@);
    let blue = side == "blue"@;
    let kind = zone_kind(z.name@);
    let m = side_map(tl, blue);
    if kind == "cap"@ {
        with_side(tl, blue, m.insert(z.name@, TargetModel::Cap(orbit_at(z, 1, 2, side))))
    } else if kind == "refueling"@ {
        with_side(tl, blue, m.insert(z.name@, TargetModel::Refueling(orbit_at(z, 10, 1, side))))
    } else if kind == "awacs"@ {
        with_side(tl, blue, m.insert(z.name@, TargetModel::Awacs(orbit_at(z, 10, 1, side))))
    } else if kind == "fightersweep"@ {
        with_side(
            tl,
            blue,
            m.insert(
                z.name@,
                TargetModel::FighterSweep(
                    SweepModel {
                        priority: 1,
                        text: z.name@,
                        x: z.x,
                        y: z.y,
                        inactive: false,
                        firepower: TargetFirepower { min: 2, max: 2 },
                        name: z.name@,
                        side,
                    },
                ),
            ),
        )
    } else if kind == "staticstrike"@ {
        let e = ElementModel::FixedCoord(parts[3], z.x, z.y);
        with_side(tl, blue, add_element(m, parts[2], e, grouped_strike(parts[2], side, None, e)))
    } else {
        tl
    }
}

/// Every strike target in a map lists its elements.
pub open spec fn strikes_listed<F>(m: Map<Seq<char>, TargetModel<F>>) -> bool {
    forall|k: Seq<char>| #[trigger] m.dom().contains(k) && m[k] is Strike ==> m[k]->Strike_0.elements is Some
}

/// The strike target under `key`, if there is one, lists its elements.
pub open spec fn element_ready<F>(m: Map<Seq<char>, TargetModel<F>>, key: Seq<char>) -> bool {
    m.dom().contains(key) && m[key] is Strike ==> m[key]->Strike_0.elements is Some
}

/// The empty target list.
pub open spec fn empty_targets<F>() -> TargetListModel<F> {
    TargetListModel { blue: Map::empty(), red: Map::empty() }
}

/// The target list after reading zones `zs` in order.
pub open spec fn zones_fold<F>(tl: TargetListModel<F>, zs: Seq<MissionZone<F>>) -> TargetListModel<F>
    decreases zs.len(),
{
    if zs.len() == 0 {
        tl
    } else {
        zone_step(zones_fold(tl, zs.drop_last()), zs.last())
    }
}

/// The strike target on a vehicle group: the target is named by the group
/// name's second piece.
pub open spec fn vehicle_strike<F>(target: Seq<char>, group: Seq<char>) -> StrikeTargetModel<F> {
    StrikeTargetModel {
        priority: 1,
        text: target,
        inactive: false,
        firepower: TargetFirepower { min: 2, max: 2 },
        class: Some("vehicle"@),
        class_template: Some(group),
        elements: None,
        name: group,
        side: "blue"@,
        attributes: Seq::empty(),
        picture: Seq::empty(),
    }
}

/// The target list after reading vehicle group `g`: a group named
/// `STRIKE_<TARGET>...` (first piece in any case) becomes a strike target for
/// the side opposing the group's; a group whose name has no second piece is
/// passed over.
pub open spec fn vehicle_step<F>(tl: TargetListModel<F>, g: SideGroup) -> TargetListModel<F> {
    let parts = split_spec(g.name@, '_');
    let blue = g.side@ == "red"@;
    if parts.len() >= 2 && lowercase_of(parts[0]) == "strike"@ {
        with_side(
            tl,
            blue,
            side_map(tl, blue).insert(parts[1], TargetModel::Strike(vehicle_strike(parts[1], g.name@))),
        )
    } else {
        tl
    }
}

/// The anti-ship strike target on a ship group.
pub open spec fn ship_strike(group: Seq<char>) -> AntiShipModel {
    AntiShipModel {
        priority: 2,
        text: group,
        inactive: false,
        firepower: TargetFirepower { min: 2, max: 4 },
        class: "ship"@,
        class_template: Some(group),
        name: group,
        side: "blue"@,
        attributes: Seq::empty(),
    }
}

/// The target list after reading ship group `g`: every ship group becomes an
/// anti-ship target for the side opposing the group's.
pub open spec fn ship_step<F>(tl: TargetListModel<F>, g: SideGroup) -> TargetListModel<F> {
    let blue = g.side@ == "red"@;
    with_side(tl, blue, side_map(tl, blue).insert(g.name@, TargetModel::AntiShip(ship_strike(g.name@))))
}

/// A static group is a strike element when its name's first piece is
/// exactly "STATICSTRIKE".
pub open spec fn is_static_strike(name: Seq<char>) -> bool {
    split_spec(name, '_')[0] == "STATICSTRIKE"@
}

/// The side whose targets a static group joins: blue's statics are red's
/// targets and any other side's are blue's.
pub open spec fn static_to_blue(side: Seq<char>) -> bool {
    lowercase_of(side) != "blue"@
}

/// The target list after reading static group `g`: a group named
/// `STATICSTRIKE_<TARGET>_...` adds itself as an element of strike target
/// `<TARGET>`; other static groups are passed over.
pub open spec fn static_step<F>(tl: TargetListModel<F>, g: SideGroup) -> TargetListModel<F> {
    let parts = split_spec(g.name@, '_');
    let blue = static_to_blue(g.side@);
    if is_static_strike(g.name@) {
        let e = ElementModel::NamedStatic(g.name@);
        with_side(
            tl,
            blue,
            add_element(side_map(tl, blue), parts[1], e, grouped_strike(parts[1], g.side@, Some("static"@), e)),
        )
    } else {
        tl
    }
}

/// A static group can be read into `tl`: a static strike group names its
/// target and element, and its target, if already a strike target, lists
/// elements.
pub open spec fn static_ok<F>(tl: TargetListModel<F>, g: SideGroup) -> bool {
    let parts = split_spec(g.name@, '_');
    is_static_strike(g.name@) ==> parts.len() >= 3 && element_ready(
        side_map(tl, static_to_blue(g.side@)),
        parts[1],
    )
}

/// The target list after reading vehicle groups `gs` in order.
pub open spec fn vehicles_fold<F>(tl: TargetListModel<F>, gs: Seq<SideGroup>) -> TargetListModel<F>
    decreases gs.len(),
{
    if gs.len() == 0 {
        tl
    } else {
        vehicle_step(vehicles_fold(tl, gs.drop_last()), gs.last())
    }
}

/// The target list after reading ship groups `gs` in order.
pub open spec fn ships_fold<F>(tl: TargetListModel<F>, gs: Seq<SideGroup>) -> TargetListModel<F>
    decreases gs.len(),
{
    if gs.len() == 0 {
        tl
    } else {
        ship_step(ships_fold(tl, gs.drop_last()), gs.last())
    }
}

/// The target list after reading static groups `gs` in order.
pub open spec fn statics_fold<F>(tl: TargetListModel<F>, gs: Seq<SideGroup>) -> TargetListModel<F>
    decreases gs.len(),
{
    if gs.len() == 0 {
        tl
    } else {
        static_step(statics_fold(tl, gs.drop_last()), gs.last())
    }
}

/// Each static group of `gs` can be read in its turn.
pub open spec fn statics_ok<F>(tl: TargetListModel<F>, gs: Seq<SideGroup>) -> bool
    decreases gs.len(),
{
    gs.len() == 0 || (statics_ok(tl, gs.drop_last()) && static_ok(
        statics_fold(tl, gs.drop_last()),
        gs.last(),
    ))
}

/// The target list that a mission gives: zones, then vehicle groups, then
/// ship groups, then static groups.
pub open spec fn mission_targets<F>(
    zones: Seq<MissionZone<F>>,
    vehicles: Seq<SideGroup>,
    ships: Seq<SideGroup>,
    statics: Seq<SideGroup>,
) -> TargetListModel<F> {
    statics_fold(before_statics(zones, vehicles, ships), statics)
}

/// The target list before the static groups are read.
pub open spec fn before_statics<F>(
    zones: Seq<MissionZone<F>>,
    vehicles: Seq<SideGroup>,
    ships: Seq<SideGroup>,
) -> TargetListModel<F> {
    ships_fold(vehicles_fold(zones_fold(empty_targets(), zones), vehicles), ships)
}

/// Each prefix of a readable list of static groups is readable, and its
/// last group can be read after the ones before it.
pub proof fn lemma_statics_ok_prefix<F>(tl: TargetListModel<F>, gs: Seq<SideGroup>, n: int)
    requires
        statics_ok(tl, gs),
        0 < n <= gs.len(),
    ensures
        statics_ok(tl, gs.take(n)),
        static_ok(statics_fold(tl, gs.take(n - 1)), gs[n - 1]),
    decreases gs.len(),
{
    if n < gs.len() {
        assert(gs.drop_last().take(n) =~= gs.take(n));
        assert(gs.drop_last().take(n - 1) =~= gs.take(n - 1));
        lemma_statics_ok_prefix(tl, gs.drop_last(), n);
    } else {
        assert(gs.take(n) =~= gs);
        assert(gs.take(n - 1) =~= gs.drop_last());
    }
    assert(gs.take(n).drop_last() =~= gs.take(n - 1));
}

/// Adds `e` to the strike target under `key` in `m`, or puts `fresh` there.
fn add_element_to<F>(
    m: &mut StrMap<Target<F>>,
    key: String,
    e: StrikeElement<StrikeFixedCoordTarget<F>>,
    fresh: Strike<StrikeFixedCoordTarget<F>>,
)
    requires
        element_ready(targets_model(old(m).view()), key@),
    ensures
        targets_model(final(m).view()) == add_element(
            targets_model(old(m).view()),
            key@,
            element_model(e),
            strike_model(fresh),
        ),
{
    let ghost old_map = old(m).view();
    let ghost k = key@;
    proof {
        if old_map.dom().contains(k) {
            assert(targets_model(old_map).dom().contains(k));
        }
    }
    match m.remove(key.as_str()) {
        Some(Target::Strike(s)) => {
            let Strike {
                priority,
                text,
                inactive,
                firepower,
                class,
                class_template,
                elements,
                _name,
                _side,
                attributes,
                picture,
            } = s;
            let ghost old_model = strike_model(s);
            assert(targets_model(old_map)[k] == TargetModel::Strike(old_model));
            match elements {
                Some(mut els) => {
                    let ghost before = els@;
                    els.push(e);
                    let s2 = Strike {
                        priority,
                        text,
                        inactive,
                        firepower,
                        class,
                        class_template,
                        elements: Some(els),
                        _name,
                        _side,
                        attributes,
                        picture,
                    };
                    assert(els@.map_values(|x: StrikeElement<StrikeFixedCoordTarget<F>>| element_model(x))
                        =~= before.map_values(|x: StrikeElement<StrikeFixedCoordTarget<F>>| element_model(x)).push(
                        element_model(e),
                    ));
                    assert(strike_model(s2) == StrikeTargetModel {
                        elements: Some(old_model.elements.unwrap().push(element_model(e))),
                        ..old_model
                    });
                    m.insert(key, Target::Strike(s2));
                },
                None => {
                    assert(false);
                    m.insert(key, Target::Strike(fresh));
                },
            }
        },
        Some(other) => {
            m.insert(key, Target::Strike(fresh));
        },
        None => {
            m.insert(key, Target::Strike(fresh));
        },
    }
    assert(targets_model(m.view()) =~= add_element(
        targets_model(old_map),
        k,
        element_model(e),
        strike_model(fresh),
    ));
}


/// A lower-cased piece equals a literal.
fn same_text(piece: &String, lit: &str) -> (res: bool)
    ensures
        res == (piece@ == lit@),
{
    str_eq(piece.as_str(), lit)
}

/// Whether zone `z` can be read into a target list (see `zone_ok`).
pub fn zone_readable<F>(z: &MissionZone<F>) -> (res: bool)
    ensures
        res == zone_ok(*z),
{
    let parts = split_on(z.name.as_str(), '_');
    if parts.len() < 2 {
        return false;
    }
    proof {
        assert(views(parts@)[1] == parts@[1]@);
    }
    let kind = to_lowercase(parts[1].as_str());
    if (same_text(&kind, "cap") || same_text(&kind, "refueling") || same_text(&kind, "awacs"))
        && z.orbit.is_none() {
        return false;
    }
    if same_text(&kind, "staticstrike") && parts.len() < 4 {
        return false;
    }
    true
}

impl<F: Copy> TargetList<F> {
    /// An empty target list.
    pub fn new() -> (tl: Self)
        ensures
            tl@ == empty_targets::<F>(),
    {
        let tl = TargetList { blue: StrMap::new(), red: StrMap::new() };
        assert(tl@.blue =~= Map::<Seq<char>, TargetModel<F>>::empty());
        assert(tl@.red =~= Map::<Seq<char>, TargetModel<F>>::empty());
        tl
    }

    /// Puts target `t` under `key` on one side.
    fn put(&mut self, blue: bool, key: String, t: Target<F>)
        ensures
            final(self)@ == with_side(old(self)@, blue, side_map(old(self)@, blue).insert(key@, t@)),
    {
        let ghost k = key@;
        let ghost tm = t@;
        if blue {
            self.blue.insert(key, t);
            assert(targets_model(self.blue.view()) =~= old(self)@.blue.insert(k, tm));
        } else {
            self.red.insert(key, t);
            assert(targets_model(self.red.view()) =~= old(self)@.red.insert(k, tm));
        }
    }

    /// Adds a strike element on one side.
    fn put_element(
        &mut self,
        blue: bool,
        key: String,
        e: StrikeElement<StrikeFixedCoordTarget<F>>,
        fresh: Strike<StrikeFixedCoordTarget<F>>,
    )
        requires
            element_ready(side_map(old(self)@, blue), key@),
        ensures
            final(self)@ == with_side(
                old(self)@,
                blue,
                add_element(side_map(old(self)@, blue), key@, element_model(e), strike_model(fresh)),
            ),
    {
        if blue {
            add_element_to(&mut self.blue, key, e, fresh);
        } else {
            add_element_to(&mut self.red, key, e, fresh);
        }
    }

    /// Reads one trigger zone into the target list.
    pub fn add_zone(&mut self, z: &MissionZone<F>)
        requires
            zone_ok(*z),
            strikes_listed(old(self)@.blue),
            strikes_listed(old(self)@.red),
        ensures
            final(self)@ == zone_step(old(self)@, *z),
            strikes_listed(final(self)@.blue),
            strikes_listed(final(self)@.red),
    {
        let parts = split_on(z.name.as_str(), '_');
        proof {
            assert(views(parts@)[0] == parts@[0]@);
            assert(views(parts@)[1] == parts@[1]@);
        }
        let side = to_lowercase(parts[0].as_str());
        let kind = to_lowercase(parts[1].as_str());
        let blue = same_text(&side, "blue");
        let ghost tl = self@;
        if same_text(&kind, "cap") || same_text(&kind, "refueling") || same_text(&kind, "awacs") {
            let (axis, radius) = match z.orbit {
                Some(o) => o,
                None => {
                    assert(false);
                    return;
                },
            };
            if same_text(&kind, "cap") {
                let t = Target::CAP(
                    CAP {
                        priority: 1,
                        ref_point: z.name.clone(),
                        radius,
                        axis,
                        text: z.name.clone(),
                        inactive: false,
                        firepower: TargetFirepower { min: 2, max: 2 },
                        _name: z.name.clone(),
                        _side: side,
                    },
                );
                self.put(blue, z.name.clone(), t);
            } else if same_text(&kind, "refueling") {
                let t = Target::Refueling(
                    Refueling {
                        priority: 10,
                        ref_point: z.name.clone(),
                        radius,
                        axis,
                        text: z.name.clone(),
                        inactive: false,
                        firepower: TargetFirepower { min: 1, max: 1 },
                        _name: z.name.clone(),
                        _side: side,
                    },
                );
                self.put(blue, z.name.clone(), t);
            } else {
                let t = Target::AWACS(
                    AWACS {
                        priority: 10,
                        ref_point: z.name.clone(),
                        radius,
                        axis,
                        text: z.name.clone(),
                        inactive: false,
                        firepower: TargetFirepower { min: 1, max: 1 },
                        _name: z.name.clone(),
                        _side: side,
                    },
                );
                self.put(blue, z.name.clone(), t);
            }
        } else if same_text(&kind, "fightersweep") {
            let t = Target::FighterSweep(
                FighterSweep {
                    priority: 1,
                    text: z.name.clone(),
                    x: z.x,
                    y: z.y,
                    inactive: false,
                    firepower: TargetFirepower { min: 2, max: 2 },
                    _name: z.name.clone(),
                    _side: side,
                },
            );
            self.put(blue, z.name.clone(), t);
        } else if same_text(&kind, "staticstrike") {
            proof {
                assert(views(parts@)[2] == parts@[2]@);
                assert(views(parts@)[3] == parts@[3]@);
            }
            let e = StrikeElement::FixedCoord(
                StrikeFixedCoordTarget { name: parts[3].clone(), x: z.x, y: z.y },
            );
            let e2 = StrikeElement::FixedCoord(
                StrikeFixedCoordTarget { name: parts[3].clone(), x: z.x, y: z.y },
            );
            let mut els: Vec<StrikeElement<StrikeFixedCoordTarget<F>>> = Vec::new();
            els.push(e2);
            let fresh = Strike {
                priority: 1,
                text: parts[2].clone(),
                inactive: false,
                firepower: TargetFirepower { min: 2, max: 4 },
                class: None,
                class_template: None,
                elements: Some(els),
                _name: parts[2].clone(),
                _side: side,
                attributes: Vec::new(),
                picture: Vec::new(),
            };
            proof {
                assert(views(fresh.attributes@) =~= Seq::<Seq<char>>::empty());
                assert(views(fresh.picture@) =~= Seq::<Seq<char>>::empty());
                assert(elements_model(fresh.elements) == Some(seq![element_model(e)]));
            }
            self.put_element(blue, parts[2].clone(), e, fresh);
        }
    }

    /// Reads the trigger zones of the mission, in order.
    pub fn add_zones(&mut self, zones: &Vec<MissionZone<F>>)
        requires
            forall|i: int| 0 <= i < zones@.len() ==> zone_ok(#[trigger] zones@[i]),
            strikes_listed(old(self)@.blue),
            strikes_listed(old(self)@.red),
        ensures
            final(self)@ == zones_fold(old(self)@, zones@),
            strikes_listed(final(self)@.blue),
            strikes_listed(final(self)@.red),
    {
        let ghost start = self@;
        let mut i: usize = 0;
        while i < zones.len()
            invariant
                i <= zones@.len(),
                forall|j: int| 0 <= j < zones@.len() ==> zone_ok(#[trigger] zones@[j]),
                self@ == zones_fold(start, zones@.take(i as int)),
                strikes_listed(self@.blue),
                strikes_listed(self@.red),
            decreases zones@.len() - i,
        {
            self.add_zone(&zones[i]);
            assert(zones@.take(i as int + 1).drop_last() =~= zones@.take(i as int));
            i = i + 1;
        }
        assert(zones@.take(zones@.len() as int) =~= zones@);
    }

    /// Reads one vehicle group.
    pub fn add_vehicle_group(&mut self, g: &SideGroup)
        ensures
            final(self)@ == vehicle_step(old(self)@, *g),
    {
        let parts = split_on(g.name.as_str(), '_');
        if parts.len() >= 2 {
            proof {
                assert(views(parts@)[0] == parts@[0]@);
                assert(views(parts@)[1] == parts@[1]@);
            }
            let first = to_lowercase(parts[0].as_str());
            if same_text(&first, "strike") {
                let blue = same_text(&g.side, "red");
                let t = Strike {
                    priority: 1,
                    text: parts[1].clone(),
                    inactive: false,
                    firepower: TargetFirepower { min: 2, max: 2 },
                    class: Some("vehicle".to_owned()),
                    class_template: Some(g.name.clone()),
                    elements: None,
                    _name: g.name.clone(),
                    _side: "blue".to_owned(),
                    attributes: Vec::new(),
                    picture: Vec::new(),
                };
                proof {
                    assert(views(t.attributes@) =~= Seq::<Seq<char>>::empty());
                    assert(views(t.picture@) =~= Seq::<Seq<char>>::empty());
                }
                self.put(blue, parts[1].clone(), Target::Strike(t));
            }
        }
    }

    /// Reads the vehicle groups of the mission, in order.
    pub fn add_vehicle_groups(&mut self, groups: &Vec<SideGroup>)
        ensures
            final(self)@ == vehicles_fold(old(self)@, groups@),
    {
        let ghost start = self@;
        let mut i: usize = 0;
        while i < groups.len()
            invariant
                i <= groups@.len(),
                self@ == vehicles_fold(start, groups@.take(i as int)),
            decreases groups@.len() - i,
        {
            self.add_vehicle_group(&groups[i]);
            assert(groups@.take(i as int + 1).drop_last() =~= groups@.take(i as int));
            i = i + 1;
        }
        assert(groups@.take(groups@.len() as int) =~= groups@);
    }

    /// Reads one ship group.
    pub fn add_ship_group(&mut self, g: &SideGroup)
        ensures
            final(self)@ == ship_step(old(self)@, *g),
    {
        let blue = same_text(&g.side, "red");
        let t = AntiShipStrike {
            priority: 2,
            text: g.name.clone(),
            inactive: false,
            firepower: TargetFirepower { min: 2, max: 4 },
            class: "ship".to_owned(),
            class_template: Some(g.name.clone()),
            _name: g.name.clone(),
            _side: "blue".to_owned(),
            attributes: Vec::new(),
        };
        proof {
            assert(views(t.attributes@) =~= Seq::<Seq<char>>::empty());
        }
        self.put(blue, g.name.clone(), Target::AntiShipStrike(t));
    }

    /// Reads the ship groups of the mission, in order.
    pub fn add_ship_groups(&mut self, groups: &Vec<SideGroup>)
        ensures
            final(self)@ == ships_fold(old(self)@, groups@),
    {
        let ghost start = self@;
        let mut i: usize = 0;
        while i < groups.len()
            invariant
                i <= groups@.len(),
                self@ == ships_fold(start, groups@.take(i as int)),
            decreases groups@.len() - i,
        {
            self.add_ship_group(&groups[i]);
            assert(groups@.take(i as int + 1).drop_last() =~= groups@.take(i as int));
            i = i + 1;
        }
        assert(groups@.take(groups@.len() as int) =~= groups@);
    }

    /// Whether static group `g` can be read now: a static strike group must
    /// name its target and element, and its target, where it already is a
    /// strike target, must list elements.
    pub fn static_group_ok(&self, g: &SideGroup) -> (res: bool)
        ensures
            res == static_ok(self@, *g),
    {
        let parts = split_on(g.name.as_str(), '_');
        proof {
            lemma_split_nonempty(g.name@, '_');
            assert(views(parts@)[0] == parts@[0]@);
        }
        if !same_text(&parts[0], "STATICSTRIKE") {
            return true;
        }
        if parts.len() < 3 {
            return false;
        }
        proof {
            assert(views(parts@)[1] == parts@[1]@);
        }
        let side = to_lowercase(g.side.as_str());
        let blue = !same_text(&side, "blue");
        let m = if blue {
            &self.blue
        } else {
            &self.red
        };
        let ghost mm = m.view();
        match m.get(parts[1].as_str()) {
            Some(Target::Strike(s)) => {
                assert(targets_model(mm)[parts@[1]@] == TargetModel::Strike(strike_model(*s)));
                s.elements.is_some()
            },
            Some(other) => {
                assert(targets_model(mm)[parts@[1]@] == other@);
                true
            },
            None => true,
        }
    }

    /// Reads one static group.
    pub fn add_static_group(&mut self, g: &SideGroup)
        requires
            static_ok(old(self)@, *g),
        ensures
            final(self)@ == static_step(old(self)@, *g),
    {
        let parts = split_on(g.name.as_str(), '_');
        proof {
            lemma_split_nonempty(g.name@, '_');
            assert(views(parts@)[0] == parts@[0]@);
        }
        if same_text(&parts[0], "STATICSTRIKE") {
            proof {
                assert(views(parts@)[1] == parts@[1]@);
            }
            let side = to_lowercase(g.side.as_str());
            let blue = !same_text(&side, "blue");
            let e = StrikeElement::NamedStatic(StrikeNamedStaticTarget { name: g.name.clone() });
            let e2 = StrikeElement::NamedStatic(StrikeNamedStaticTarget { name: g.name.clone() });
            let mut els: Vec<StrikeElement<StrikeFixedCoordTarget<F>>> = Vec::new();
            els.push(e2);
            let fresh = Strike {
                priority: 1,
                text: parts[1].clone(),
                inactive: false,
                firepower: TargetFirepower { min: 2, max: 4 },
                class: Some("static".to_owned()),
                class_template: None,
                elements: Some(els),
                _name: parts[1].clone(),
                _side: g.side.clone(),
                attributes: Vec::new(),
                picture: Vec::new(),
            };
            proof {
                assert(views(fresh.attributes@) =~= Seq::<Seq<char>>::empty());
                assert(views(fresh.picture@) =~= Seq::<Seq<char>>::empty());
                assert(elements_model(fresh.elements) == Some(seq![element_model(e)]));
            }
            self.put_element(blue, parts[1].clone(), e, fresh);
        }
    }

    /// Reads the static groups of the mission, in order.
    pub fn add_static_groups(&mut self, groups: &Vec<SideGroup>)
        requires
            statics_ok(old(self)@, groups@),
        ensures
            final(self)@ == statics_fold(old(self)@, groups@),
    {
        let ghost start = self@;
        let mut i: usize = 0;
        while i < groups.len()
            invariant
                i <= groups@.len(),
                statics_ok(start, groups@),
                self@ == statics_fold(start, groups@.take(i as int)),
            decreases groups@.len() - i,
        {
            proof {
                lemma_statics_ok_prefix(start, groups@, i as int + 1);
                assert(groups@.take(i as int + 1).drop_last() =~= groups@.take(i as int));
            }
            self.add_static_group(&groups[i]);
            i = i + 1;
        }
        assert(groups@.take(groups@.len() as int) =~= groups@);
    }

    /// The target list of a mission, read from its trigger zones, then its
    /// vehicle groups, its ship groups and its static groups.
    pub fn new_from_mission(
        zones: &Vec<MissionZone<F>>,
        vehicles: &Vec<SideGroup>,
        ships: &Vec<SideGroup>,
        statics: &Vec<SideGroup>,
    ) -> (tl: Self)
        requires
            forall|i: int| 0 <= i < zones@.len() ==> zone_ok(#[trigger] zones@[i]),
            statics_ok(before_statics(zones@, vehicles@, ships@), statics@),
        ensures
            tl@ == mission_targets(zones@, vehicles@, ships@, statics@),
    {
        let mut tl = TargetList::new();
        tl.add_zones(zones);
        tl.add_vehicle_groups(vehicles);
        tl.add_ship_groups(ships);
        tl.add_static_groups(statics);
        tl
    }
}


/// A vector's items in reverse order.
pub fn into_reversed<T>(v: Vec<T>) -> (r: Vec<T>)
    ensures
        r@.len() == v@.len(),
        forall|i: int| 0 <= i < v@.len() ==> #[trigger] r@[i] == v@[v@.len() - 1 - i],
{
    let ghost orig = v@;
    let n = v.len();
    let mut rest = v;
    let mut r: Vec<T> = Vec::new();
    while rest.len() > 0
        invariant
            rest@.len() + r@.len() == n,
            n == orig.len(),
            forall|i: int| 0 <= i < rest@.len() ==> #[trigger] rest@[i] == orig[i],
            forall|i: int| 0 <= i < r@.len() ==> #[trigger] r@[i] == orig[n - 1 - i],
        decreases rest@.len(),
    {
        let x = rest.pop().unwrap();
        r.push(x);
    }
    r
}

/// The models of a list of targets.
pub open spec fn target_models<F>(v: Seq<Target<F>>) -> Seq<TargetModel<F>> {
    v.map_values(|t: Target<F>| t@)
}

/// The name a target carries.
pub open spec fn model_name<F>(t: TargetModel<F>) -> Seq<char> {
    match t {
        TargetModel::Cap(o) => o.name,
        TargetModel::Refueling(o) => o.name,
        TargetModel::Awacs(o) => o.name,
        TargetModel::Intercept(i) => i.name,
        TargetModel::FighterSweep(s) => s.name,
        TargetModel::Strike(s) => s.name,
        TargetModel::AntiShip(a) => a.name,
    }
}

/// The side a target carries.
pub open spec fn model_side<F>(t: TargetModel<F>) -> Seq<char> {
    match t {
        TargetModel::Cap(o) => o.side,
        TargetModel::Refueling(o) => o.side,
        TargetModel::Awacs(o) => o.side,
        TargetModel::Intercept(i) => i.side,
        TargetModel::FighterSweep(s) => s.side,
        TargetModel::Strike(s) => s.side,
        TargetModel::AntiShip(a) => a.side,
    }
}

/// A target with its name and side set.
pub open spec fn stamped<F>(t: TargetModel<F>, name: Seq<char>, side: Seq<char>) -> TargetModel<F> {
    match t {
        TargetModel::Cap(o) => TargetModel::Cap(OrbitModel { name, side, ..o }),
        TargetModel::Refueling(o) => TargetModel::Refueling(OrbitModel { name, side, ..o }),
        TargetModel::Awacs(o) => TargetModel::Awacs(OrbitModel { name, side, ..o }),
        TargetModel::Intercept(i) => TargetModel::Intercept(InterceptModel { name, side, ..i }),
        TargetModel::FighterSweep(s) => TargetModel::FighterSweep(SweepModel { name, side, ..s }),
        TargetModel::Strike(s) => TargetModel::Strike(StrikeTargetModel { name, side, ..s }),
        TargetModel::AntiShip(a) => TargetModel::AntiShip(AntiShipModel { name, side, ..a }),
    }
}

/// The kind of a target, as the list of the editable form it goes to:
/// anti-ship, CAP, intercept, strike, fighter sweep, refueling, AWACS.
pub open spec fn kind_of<F>(t: TargetModel<F>) -> int {
    match t {
        TargetModel::AntiShip(_) => 0,
        TargetModel::Cap(_) => 1,
        TargetModel::Intercept(_) => 2,
        TargetModel::Strike(_) => 3,
        TargetModel::FighterSweep(_) => 4,
        TargetModel::Refueling(_) => 5,
        TargetModel::Awacs(_) => 6,
    }
}

/// The targets of kind `k` among the pairs of one side, in order, each
/// stamped with its key as name and with `side`.
pub open spec fn of_kind<F>(p: Seq<(Seq<char>, Target<F>)>, side: Seq<char>, k: int) -> Seq<TargetModel<F>>
    decreases p.len(),
{
    if p.len() == 0 {
        Seq::empty()
    } else {
        let prev = of_kind(p.drop_last(), side, k);
        if kind_of(p.last().1@) == k {
            prev.push(stamped(p.last().1@, p.last().0, side))
        } else {
            prev
        }
    }
}

/// The targets in one list per kind, each carrying its name and side.
#[derive(Debug)]
pub struct TargetListInternal<F> {
    pub strike: Vec<Strike<StrikeFixedCoordTarget<F>>>,
    pub cap: Vec<CAP<F>>,
    pub refuel: Vec<Refueling<F>>,
    pub antiship: Vec<AntiShipStrike>,
    pub intercept: Vec<Intercept<F>>,
    pub fighter_sweep: Vec<FighterSweep<F>>,
    pub awacs: Vec<AWACS<F>>,
}

/// The models of the list of kind `k`.
pub open spec fn kind_list<F>(x: TargetListInternal<F>, k: int) -> Seq<TargetModel<F>> {
    if k == 0 {
        x.antiship@.map_values(|t: AntiShipStrike| Target::<F>::AntiShipStrike(t)@)
    } else if k == 1 {
        x.cap@.map_values(|t: CAP<F>| Target::CAP(t)@)
    } else if k == 2 {
        x.intercept@.map_values(|t: Intercept<F>| Target::Intercept(t)@)
    } else if k == 3 {
        x.strike@.map_values(|t: Strike<StrikeFixedCoordTarget<F>>| Target::Strike(t)@)
    } else if k == 4 {
        x.fighter_sweep@.map_values(|t: FighterSweep<F>| Target::FighterSweep(t)@)
    } else if k == 5 {
        x.refuel@.map_values(|t: Refueling<F>| Target::Refueling(t)@)
    } else {
        x.awacs@.map_values(|t: AWACS<F>| Target::AWACS(t)@)
    }
}

/// All targets of the lists, in the order anti-ship, CAP, intercept, strike,
/// fighter sweep, refueling, AWACS.
pub open spec fn all_targets<F>(x: TargetListInternal<F>) -> Seq<TargetModel<F>> {
    kind_list(x, 0) + kind_list(x, 1) + kind_list(x, 2) + kind_list(x, 3) + kind_list(x, 4)
        + kind_list(x, 5) + kind_list(x, 6)
}

/// A target's side is one the target list has.
pub open spec fn side_known(side: Seq<char>) -> bool {
    side == "blue"@ || side == "red"@
}

/// The target list after filing target `t` under its name on its side.
pub open spec fn place<F>(tl: TargetListModel<F>, t: TargetModel<F>) -> TargetListModel<F> {
    let blue = model_side(t) == "blue"@;
    with_side(tl, blue, side_map(tl, blue).insert(model_name(t), t))
}

/// The target list after filing targets `s` in order.
pub open spec fn placed<F>(tl: TargetListModel<F>, s: Seq<TargetModel<F>>) -> TargetListModel<F>
    decreases s.len(),
{
    if s.len() == 0 {
        tl
    } else {
        place(placed(tl, s.drop_last()), s.last())
    }
}

/// A target whose side is neither blue nor red.
#[derive(Debug, Clone, PartialEq)]
pub struct UnknownSide {
    pub side: String,
}

/// The name and side of a target.
fn name_and_side<F>(t: &Target<F>) -> (res: (String, String))
    ensures
        res.0@ == model_name(t@),
        res.1@ == model_side(t@),
{
    match t {
        Target::CAP(c) => (c._name.clone(), c._side.clone()),
        Target::Refueling(c) => (c._name.clone(), c._side.clone()),
        Target::AWACS(c) => (c._name.clone(), c._side.clone()),
        Target::Intercept(c) => (c._name.clone(), c._side.clone()),
        Target::FighterSweep(c) => (c._name.clone(), c._side.clone()),
        Target::Strike(c) => (c._name.clone(), c._side.clone()),
        Target::AntiShipStrike(c) => (c._name.clone(), c._side.clone()),
    }
}

/// The antiship targets wrapped as targets.
fn wrap_antiship<F>(v: Vec<AntiShipStrike>) -> (res: Vec<Target<F>>)
    ensures
        target_models(res@) == v@.map_values(|x: AntiShipStrike| Target::<F>::AntiShipStrike(x)@),
{
    let ghost orig = v@;
    let n = v.len();
    let mut rest = into_reversed(v);
    let mut res: Vec<Target<F>> = Vec::new();
    while rest.len() > 0
        invariant
            rest@.len() + res@.len() == n,
            n == orig.len(),
            forall|i: int| 0 <= i < rest@.len() ==> #[trigger] rest@[i] == orig[n - 1 - i],
            target_models(res@) == orig.take(res@.len() as int).map_values(|x: AntiShipStrike| Target::<F>::AntiShipStrike(x)@),
        decreases rest@.len(),
    {
        let k = res.len();
        let x = rest.pop().unwrap();
        let ghost before = res@;
        res.push(Target::AntiShipStrike(x));
        assert(orig.take(k + 1) =~= orig.take(k as int).push(orig[k as int]));
        assert(target_models(res@) =~= target_models(before).push(Target::<F>::AntiShipStrike(orig[k as int])@));
    }
    assert(orig.take(n as int) =~= orig);
    res
}

/// The cap targets wrapped as targets.
fn wrap_cap<F>(v: Vec<CAP<F>>) -> (res: Vec<Target<F>>)
    ensures
        target_models(res@) == v@.map_values(|x: CAP<F>| Target::CAP(x)@),
{
    let ghost orig = v@;
    let n = v.len();
    let mut rest = into_reversed(v);
    let mut res: Vec<Target<F>> = Vec::new();
    while rest.len() > 0
        invariant
            rest@.len() + res@.len() == n,
            n == orig.len(),
            forall|i: int| 0 <= i < rest@.len() ==> #[trigger] rest@[i] == orig[n - 1 - i],
            target_models(res@) == orig.take(res@.len() as int).map_values(|x: CAP<F>| Target::CAP(x)@),
        decreases rest@.len(),
    {
        let k = res.len();
        let x = rest.pop().unwrap();
        let ghost before = res@;
        res.push(Target::CAP(x));
        assert(orig.take(k + 1) =~= orig.take(k as int).push(orig[k as int]));
        assert(target_models(res@) =~= target_models(before).push(Target::CAP(orig[k as int])@));
    }
    assert(orig.take(n as int) =~= orig);
    res
}

/// The intercept targets wrapped as targets.
fn wrap_intercept<F>(v: Vec<Intercept<F>>) -> (res: Vec<Target<F>>)
    ensures
        target_models(res@) == v@.map_values(|x: Intercept<F>| Target::Intercept(x)@),
{
    let ghost orig = v@;
    let n = v.len();
    let mut rest = into_reversed(v);
    let mut res: Vec<Target<F>> = Vec::new();
    while rest.len() > 0
        invariant
            rest@.len() + res@.len() == n,
            n == orig.len(),
            forall|i: int| 0 <= i < rest@.len() ==> #[trigger] rest@[i] == orig[n - 1 - i],
            target_models(res@) == orig.take(res@.len() as int).map_values(|x: Intercept<F>| Target::Intercept(x)@),
        decreases rest@.len(),
    {
        let k = res.len();
        let x = rest.pop().unwrap();
        let ghost before = res@;
        res.push(Target::Intercept(x));
        assert(orig.take(k + 1) =~= orig.take(k as int).push(orig[k as int]));
        assert(target_models(res@) =~= target_models(before).push(Target::Intercept(orig[k as int])@));
    }
    assert(orig.take(n as int) =~= orig);
    res
}

/// The strike targets wrapped as targets.
fn wrap_strike<F>(v: Vec<Strike<StrikeFixedCoordTarget<F>>>) -> (res: Vec<Target<F>>)
    ensures
        target_models(res@) == v@.map_values(|x: Strike<StrikeFixedCoordTarget<F>>| Target::Strike(x)@),
{
    let ghost orig = v@;
    let n = v.len();
    let mut rest = into_reversed(v);
    let mut res: Vec<Target<F>> = Vec::new();
    while rest.len() > 0
        invariant
            rest@.len() + res@.len() == n,
            n == orig.len(),
            forall|i: int| 0 <= i < rest@.len() ==> #[trigger] rest@[i] == orig[n - 1 - i],
            target_models(res@) == orig.take(res@.len() as int).map_values(|x: Strike<StrikeFixedCoordTarget<F>>| Target::Strike(x)@),
        decreases rest@.len(),
    {
        let k = res.len();
        let x = rest.pop().unwrap();
        let ghost before = res@;
        res.push(Target::Strike(x));
        assert(orig.take(k + 1) =~= orig.take(k as int).push(orig[k as int]));
        assert(target_models(res@) =~= target_models(before).push(Target::Strike(orig[k as int])@));
    }
    assert(orig.take(n as int) =~= orig);
    res
}

/// The fighter_sweep targets wrapped as targets.
fn wrap_fighter_sweep<F>(v: Vec<FighterSweep<F>>) -> (res: Vec<Target<F>>)
    ensures
        target_models(res@) == v@.map_values(|x: FighterSweep<F>| Target::FighterSweep(x)@),
{
    let ghost orig = v@;
    let n = v.len();
    let mut rest = into_reversed(v);
    let mut res: Vec<Target<F>> = Vec::new();
    while rest.len() > 0
        invariant
            rest@.len() + res@.len() == n,
            n == orig.len(),
            forall|i: int| 0 <= i < rest@.len() ==> #[trigger] rest@[i] == orig[n - 1 - i],
            target_models(res@) == orig.take(res@.len() as int).map_values(|x: FighterSweep<F>| Target::FighterSweep(x)@),
        decreases rest@.len(),
    {
        let k = res.len();
        let x = rest.pop().unwrap();
        let ghost before = res@;
        res.push(Target::FighterSweep(x));
        assert(orig.take(k + 1) =~= orig.take(k as int).push(orig[k as int]));
        assert(target_models(res@) =~= target_models(before).push(Target::FighterSweep(orig[k as int])@));
    }
    assert(orig.take(n as int) =~= orig);
    res
}

/// The refuel targets wrapped as targets.
fn wrap_refuel<F>(v: Vec<Refueling<F>>) -> (res: Vec<Target<F>>)
    ensures
        target_models(res@) == v@.map_values(|x: Refueling<F>| Target::Refueling(x)@),
{
    let ghost orig = v@;
    let n = v.len();
    let mut rest = into_reversed(v);
    let mut res: Vec<Target<F>> = Vec::new();
    while rest.len() > 0
        invariant
            rest@.len() + res@.len() == n,
            n == orig.len(),
            forall|i: int| 0 <= i < rest@.len() ==> #[trigger] rest@[i] == orig[n - 1 - i],
            target_models(res@) == orig.take(res@.len() as int).map_values(|x: Refueling<F>| Target::Refueling(x)@),
        decreases rest@.len(),
    {
        let k = res.len();
        let x = rest.pop().unwrap();
        let ghost before = res@;
        res.push(Target::Refueling(x));
        assert(orig.take(k + 1) =~= orig.take(k as int).push(orig[k as int]));
        assert(target_models(res@) =~= target_models(before).push(Target::Refueling(orig[k as int])@));
    }
    assert(orig.take(n as int) =~= orig);
    res
}

/// The awacs targets wrapped as targets.
fn wrap_awacs<F>(v: Vec<AWACS<F>>) -> (res: Vec<Target<F>>)
    ensures
        target_models(res@) == v@.map_values(|x: AWACS<F>| Target::AWACS(x)@),
{
    let ghost orig = v@;
    let n = v.len();
    let mut rest = into_reversed(v);
    let mut res: Vec<Target<F>> = Vec::new();
    while rest.len() > 0
        invariant
            rest@.len() + res@.len() == n,
            n == orig.len(),
            forall|i: int| 0 <= i < rest@.len() ==> #[trigger] rest@[i] == orig[n - 1 - i],
            target_models(res@) == orig.take(res@.len() as int).map_values(|x: AWACS<F>| Target::AWACS(x)@),
        decreases rest@.len(),
    {
        let k = res.len();
        let x = rest.pop().unwrap();
        let ghost before = res@;
        res.push(Target::AWACS(x));
        assert(orig.take(k + 1) =~= orig.take(k as int).push(orig[k as int]));
        assert(target_models(res@) =~= target_models(before).push(Target::AWACS(orig[k as int])@));
    }
    assert(orig.take(n as int) =~= orig);
    res
}

/// The targets filed in order; fails on the first whose side is neither
/// "blue" nor "red".
fn place_all<F: Copy>(items: Vec<Target<F>>) -> (res: Result<TargetList<F>, UnknownSide>)
    ensures
        match res {
            Ok(tl) => (forall|i: int|
                0 <= i < items@.len() ==> side_known(model_side(#[trigger] target_models(items@)[i])))
                && tl@ == placed(empty_targets(), target_models(items@)),
            Err(e) => exists|i: int|
                0 <= i < items@.len() && !side_known(model_side(#[trigger] target_models(items@)[i]))
                    && e.side@ == model_side(target_models(items@)[i]) && forall|j: int|
                    0 <= j < i ==> side_known(model_side(#[trigger] target_models(items@)[j])),
        },
{
    let ghost all = target_models(items@);
    let n = items.len();
    let mut rest = into_reversed(items);
    let mut tl = TargetList::new();
    let mut done: usize = 0;
    while rest.len() > 0
        invariant
            rest@.len() + done == n,
            n == all.len(),
            all == target_models(items@),
            forall|i: int| 0 <= i < rest@.len() ==> (#[trigger] rest@[i])@ == all[n - 1 - i],
            forall|j: int| 0 <= j < done ==> side_known(model_side(#[trigger] all[j])),
            tl@ == placed(empty_targets(), all.take(done as int)),
        decreases rest@.len(),
    {
        let t = rest.pop().unwrap();
        assert(t@ == all[done as int]);
        let (name, side) = name_and_side(&t);
        let blue = same_text(&side, "blue");
        if !blue && !same_text(&side, "red") {
            assert(!side_known(model_side(all[done as int])));
            assert(exists|i: int|
                0 <= i < all.len() && !side_known(model_side(#[trigger] all[i])) && side@
                    == model_side(all[i]) && forall|j: int|
                    0 <= j < i ==> side_known(model_side(#[trigger] all[j])));
            return Err(UnknownSide { side });
        }
        tl.put(blue, name, t);
        assert(all.take(done + 1).drop_last() =~= all.take(done as int));
        assert(all.take(done + 1).last() == all[done as int]);
        done = done + 1;
    }
    assert(all.take(n as int) =~= all);
    Ok(tl)
}

impl<F: Copy> TargetListInternal<F> {
    /// All targets of the lists, wrapped, in the order anti-ship, CAP,
    /// intercept, strike, fighter sweep, refueling, AWACS.
    fn into_targets(self) -> (res: Vec<Target<F>>)
        ensures
            target_models(res@) == all_targets(self),
    {
        let ghost k0 = kind_list(self, 0);
        let ghost k1 = kind_list(self, 1);
        let ghost k2 = kind_list(self, 2);
        let ghost k3 = kind_list(self, 3);
        let ghost k4 = kind_list(self, 4);
        let ghost k5 = kind_list(self, 5);
        let ghost k6 = kind_list(self, 6);
        let TargetListInternal { strike, cap, refuel, antiship, intercept, fighter_sweep, awacs } =
            self;
        let mut items = wrap_antiship(antiship);
        let mut more = wrap_cap(cap);
        items.append(&mut more);
        assert(target_models(items@) =~= k0 + k1);
        let mut more = wrap_intercept(intercept);
        items.append(&mut more);
        assert(target_models(items@) =~= k0 + k1 + k2);
        let mut more = wrap_strike(strike);
        items.append(&mut more);
        assert(target_models(items@) =~= k0 + k1 + k2 + k3);
        let mut more = wrap_fighter_sweep(fighter_sweep);
        items.append(&mut more);
        assert(target_models(items@) =~= k0 + k1 + k2 + k3 + k4);
        let mut more = wrap_refuel(refuel);
        items.append(&mut more);
        assert(target_models(items@) =~= k0 + k1 + k2 + k3 + k4 + k5);
        let mut more = wrap_awacs(awacs);
        items.append(&mut more);
        assert(target_models(items@) =~= k0 + k1 + k2 + k3 + k4 + k5 + k6);
        items
    }

    /// The target list these lists make: each target filed under its name
    /// on its side, in the order anti-ship, CAP, intercept, strike, fighter
    /// sweep, refueling, AWACS, a later target replacing an earlier one of
    /// the same name and side. Fails on the first target whose side is
    /// neither "blue" nor "red".
    pub fn to_target_list(self) -> (res: Result<TargetList<F>, UnknownSide>)
        ensures
            match res {
                Ok(tl) => (forall|i: int|
                    0 <= i < all_targets(self).len() ==> side_known(
                        model_side(#[trigger] all_targets(self)[i]),
                    )) && tl@ == placed(empty_targets(), all_targets(self)),
                Err(e) => exists|i: int|
                    0 <= i < all_targets(self).len() && !side_known(
                        model_side(#[trigger] all_targets(self)[i]),
                    ) && e.side@ == model_side(all_targets(self)[i]) && forall|j: int|
                        0 <= j < i ==> side_known(model_side(#[trigger] all_targets(self)[j])),
            },
    {
        let items = self.into_targets();
        place_all(items)
    }
}


/// The (key, target) pairs of a list of entries.
pub open spec fn entry_pairs<F>(v: Seq<(String, Target<F>)>) -> Seq<(Seq<char>, Target<F>)> {
    v.map_values(|e: (String, Target<F>)| (e.0@, e.1))
}

/// Files target `t`, under name `name` and side `side`, in the list of its
/// kind.
fn file_target<F>(acc: &mut TargetListInternal<F>, name: String, side: &str, t: Target<F>)
    ensures
        forall|k: int|
            0 <= k < 7 ==> #[trigger] kind_list(*final(acc), k) == if k == kind_of(t@) {
                kind_list(*old(acc), k).push(stamped(t@, name@, side@))
            } else {
                kind_list(*old(acc), k)
            },
{
    let ghost before = *acc;
    let ghost n = name@;
    match t {
        Target::CAP(mut c) => {
            c._name = name;
            c._side = side.to_owned();
            acc.cap.push(c);
        },
        Target::Refueling(mut c) => {
            c._name = name;
            c._side = side.to_owned();
            acc.refuel.push(c);
        },
        Target::AWACS(mut c) => {
            c._name = name;
            c._side = side.to_owned();
            acc.awacs.push(c);
        },
        Target::Intercept(mut c) => {
            c._name = name;
            c._side = side.to_owned();
            acc.intercept.push(c);
        },
        Target::FighterSweep(mut c) => {
            c._name = name;
            c._side = side.to_owned();
            acc.fighter_sweep.push(c);
        },
        Target::Strike(mut c) => {
            c._name = name;
            c._side = side.to_owned();
            acc.strike.push(c);
        },
        Target::AntiShipStrike(mut c) => {
            c._name = name;
            c._side = side.to_owned();
            acc.antiship.push(c);
        },
    }
    assert forall|k: int| 0 <= k < 7 implies #[trigger] kind_list(*acc, k) == if k == kind_of(t@) {
        kind_list(before, k).push(stamped(t@, n, side@))
    } else {
        kind_list(before, k)
    } by {
        if k == 0 {
            assert(kind_list(*acc, k) =~= if k == kind_of(t@) {
                kind_list(before, k).push(stamped(t@, n, side@))
            } else {
                kind_list(before, k)
            });
        } else if k == 1 {
            assert(kind_list(*acc, k) =~= if k == kind_of(t@) {
                kind_list(before, k).push(stamped(t@, n, side@))
            } else {
                kind_list(before, k)
            });
        } else if k == 2 {
            assert(kind_list(*acc, k) =~= if k == kind_of(t@) {
                kind_list(before, k).push(stamped(t@, n, side@))
            } else {
                kind_list(before, k)
            });
        } else if k == 3 {
            assert(kind_list(*acc, k) =~= if k == kind_of(t@) {
                kind_list(before, k).push(stamped(t@, n, side@))
            } else {
                kind_list(before, k)
            });
        } else if k == 4 {
            assert(kind_list(*acc, k) =~= if k == kind_of(t@) {
                kind_list(before, k).push(stamped(t@, n, side@))
            } else {
                kind_list(before, k)
            });
        } else if k == 5 {
            assert(kind_list(*acc, k) =~= if k == kind_of(t@) {
                kind_list(before, k).push(stamped(t@, n, side@))
            } else {
                kind_list(before, k)
            });
        } else {
            assert(kind_list(*acc, k) =~= if k == kind_of(t@) {
                kind_list(before, k).push(stamped(t@, n, side@))
            } else {
                kind_list(before, k)
            });
        }
    }
}

/// Files the targets of one side, in order.
fn file_side<F>(acc: &mut TargetListInternal<F>, entries: Vec<(String, Target<F>)>, side: &str)
    ensures
        forall|k: int|
            0 <= k < 7 ==> #[trigger] kind_list(*final(acc), k) == kind_list(*old(acc), k) + of_kind(
                entry_pairs(entries@),
                side@,
                k,
            ),
{
    let ghost start = *acc;
    let ghost p = entry_pairs(entries@);
    let n = entries.len();
    let mut rest = into_reversed(entries);
    let mut done: usize = 0;
    while rest.len() > 0
        invariant
            rest@.len() + done == n,
            n == p.len(),
            forall|i: int|
                0 <= i < rest@.len() ==> ((#[trigger] rest@[i]).0@, rest@[i].1) == p[n - 1 - i],
            forall|k: int|
                0 <= k < 7 ==> #[trigger] kind_list(*acc, k) == kind_list(start, k) + of_kind(
                    p.take(done as int),
                    side@,
                    k,
                ),
        decreases rest@.len(),
    {
        let (name, t) = rest.pop().unwrap();
        let ghost before = *acc;
        let ghost e = p[done as int];
        assert(e == (name@, t));
        file_target(acc, name, side, t);
        proof {
            let q = p.take(done + 1);
            assert(q.drop_last() =~= p.take(done as int));
            assert(q.last() == e);
            assert forall|k: int| 0 <= k < 7 implies #[trigger] kind_list(*acc, k) == kind_list(
                start,
                k,
            ) + of_kind(q, side@, k) by {
                assert(kind_list(before, k) == kind_list(start, k) + of_kind(
                    p.take(done as int),
                    side@,
                    k,
                ));
                if k == kind_of(e.1@) {
                    assert(kind_list(*acc, k) =~= kind_list(start, k) + of_kind(q, side@, k));
                } else {
                    assert(kind_list(*acc, k) =~= kind_list(start, k) + of_kind(q, side@, k));
                }
            }
        }
        done = done + 1;
    }
    assert(p.take(n as int) =~= p);
}

impl<F> TargetListInternal<F> {
    /// The targets of a target list in one list per kind, blue's first then
    /// red's, each in the order of its side; each target takes its key as
    /// name and its side as side.
    pub fn from_target_list(tl: TargetList<F>) -> (res: Self)
        ensures
            forall|k: int|
                0 <= k < 7 ==> #[trigger] kind_list(res, k) == of_kind(tl.blue.pairs(), "blue"@, k)
                    + of_kind(tl.red.pairs(), "red"@, k),
    {
        let ghost bp = tl.blue.pairs();
        let ghost rp = tl.red.pairs();
        let mut acc = TargetListInternal {
            strike: Vec::new(),
            cap: Vec::new(),
            refuel: Vec::new(),
            antiship: Vec::new(),
            intercept: Vec::new(),
            fighter_sweep: Vec::new(),
            awacs: Vec::new(),
        };
        let ghost empty = acc;
        assert forall|k: int| 0 <= k < 7 implies #[trigger] kind_list(empty, k) == Seq::<
            TargetModel<F>,
        >::empty() by {
            assert(kind_list(empty, k) =~= Seq::<TargetModel<F>>::empty());
        }
        let TargetList { blue, red } = tl;
        let be = blue.into_entries();
        assert(entry_pairs(be@) =~= bp);
        let re = red.into_entries();
        assert(entry_pairs(re@) =~= rp);
        file_side(&mut acc, be, "blue");
        file_side(&mut acc, re, "red");
        assert forall|k: int| 0 <= k < 7 implies #[trigger] kind_list(acc, k) == of_kind(
            bp,
            "blue"@,
            k,
        ) + of_kind(rp, "red"@, k) by {
            assert(kind_list(empty, k) + of_kind(bp, "blue"@, k) =~= of_kind(bp, "blue"@, k));
        }
        acc
    }
}


/// Every ship group becomes a target: after the ship groups are read, each
/// one is an anti-ship target, under its own name, of the side opposing its
/// own.
pub proof fn law_every_ship_group_a_target<F>(tl: TargetListModel<F>, gs: Seq<SideGroup>, i: int)
    requires
        0 <= i < gs.len(),
    ensures
        side_map(ships_fold(tl, gs), gs[i].side@ == "red"@).dom().contains(gs[i].name@),
        side_map(ships_fold(tl, gs), gs[i].side@ == "red"@)[gs[i].name@] is AntiShip,
    decreases gs.len(),
{
    if i < gs.len() - 1 {
        law_every_ship_group_a_target(tl, gs.drop_last(), i);
        assert(gs.drop_last()[i] == gs[i]);
    }
}

/// The element that a static group adds to its strike target.
pub open spec fn static_element<F>(g: SideGroup) -> ElementModel<F> {
    ElementModel::NamedStatic(g.name@)
}

/// The strike target under `key` in `m` lists element `e`.
pub open spec fn lists_element<F>(m: Map<Seq<char>, TargetModel<F>>, key: Seq<char>, e: ElementModel<F>) -> bool {
    &&& m.dom().contains(key)
    &&& m[key] is Strike
    &&& m[key]->Strike_0.elements is Some
    &&& m[key]->Strike_0.elements->0.contains(e)
}

/// Reading one more static group keeps every element already listed.
proof fn lemma_static_step_keeps<F>(tl: TargetListModel<F>, g: SideGroup, blue: bool, key: Seq<char>, e: ElementModel<F>)
    requires
        lists_element(side_map(tl, blue), key, e),
    ensures
        lists_element(side_map(static_step(tl, g), blue), key, e),
{
    let m = side_map(tl, blue);
    if is_static_strike(g.name@) && static_to_blue(g.side@) == blue {
        let parts = split_spec(g.name@, '_');
        if parts[1] == key {
            let s = m[key]->Strike_0;
            let els = s.elements->0;
            assert(els.push(static_element::<F>(g)).contains(e)) by {
                let j = choose|j: int| 0 <= j < els.len() && els[j] == e;
                assert(els.push(static_element::<F>(g))[j] == e);
            }
        }
    }
}

/// Static groups are grouped into targets: after the static groups are
/// read, each group named `STATICSTRIKE_<TARGET>_...` is an element of the
/// strike target `<TARGET>` of the side opposing its own.
pub proof fn law_static_groups_grouped<F>(tl: TargetListModel<F>, gs: Seq<SideGroup>, i: int)
    requires
        statics_ok(tl, gs),
        0 <= i < gs.len(),
        is_static_strike(gs[i].name@),
    ensures
        lists_element(
            side_map(statics_fold(tl, gs), static_to_blue(gs[i].side@)),
            split_spec(gs[i].name@, '_')[1],
            static_element::<F>(gs[i]),
        ),
    decreases gs.len(),
{
    let g = gs[i];
    let blue = static_to_blue(g.side@);
    let key = split_spec(g.name@, '_')[1];
    let e = static_element::<F>(g);
    let prev = statics_fold(tl, gs.drop_last());
    if i < gs.len() - 1 {
        assert(gs.drop_last()[i] == g);
        law_static_groups_grouped(tl, gs.drop_last(), i);
        lemma_static_step_keeps(prev, gs.last(), blue, key, e);
    } else {
        let m = side_map(prev, blue);
        if m.dom().contains(key) && m[key] is Strike {
            let els = m[key]->Strike_0.elements->0;
            assert(els.push(e)[els.len() as int] == e);
        } else {
            assert(seq![e][0] == e);
        }
    }
}


/// The targets of kinds `0` to `n - 1`, each kind blue's then red's.
pub open spec fn kinds_up_to<F>(
    bp: Seq<(Seq<char>, Target<F>)>,
    rp: Seq<(Seq<char>, Target<F>)>,
    n: nat,
) -> Seq<TargetModel<F>>
    decreases n,
{
    if n == 0 {
        Seq::empty()
    } else {
        kinds_up_to(bp, rp, (n - 1) as nat) + (of_kind(bp, "blue"@, n - 1) + of_kind(
            rp,
            "red"@,
            n - 1,
        ))
    }
}

/// Each target of `of_kind` is a stamped pair of that kind.
proof fn lemma_of_kind_members<F>(p: Seq<(Seq<char>, Target<F>)>, side: Seq<char>, k: int, i: int)
    requires
        0 <= i < of_kind(p, side, k).len(),
    ensures
        exists|j: int|
            0 <= j < p.len() && kind_of(p[j].1@) == k && of_kind(p, side, k)[i] == stamped(
                #[trigger] p[j].1@,
                p[j].0,
                side,
            ),
    decreases p.len(),
{
    let prev = of_kind(p.drop_last(), side, k);
    if i < prev.len() {
        lemma_of_kind_members(p.drop_last(), side, k, i);
        let j = choose|j: int|
            0 <= j < p.drop_last().len() && kind_of(p.drop_last()[j].1@) == k && prev[i] == stamped(
                #[trigger] p.drop_last()[j].1@,
                p.drop_last()[j].0,
                side,
            );
        assert(p.drop_last()[j] == p[j]);
    } else {
        assert(of_kind(p, side, k)[i] == stamped(p[p.len() - 1].1@, p[p.len() - 1].0, side));
    }
}

/// Each pair of kind `k` is, stamped, a target of `of_kind`.
proof fn lemma_of_kind_covers<F>(p: Seq<(Seq<char>, Target<F>)>, side: Seq<char>, j: int)
    requires
        0 <= j < p.len(),
    ensures
        of_kind(p, side, kind_of(p[j].1@)).contains(stamped(p[j].1@, p[j].0, side)),
    decreases p.len(),
{
    let k = kind_of(p[j].1@);
    let prev = of_kind(p.drop_last(), side, k);
    if j < p.len() - 1 {
        assert(p.drop_last()[j] == p[j]);
        lemma_of_kind_covers(p.drop_last(), side, j);
        let i = choose|i: int| 0 <= i < prev.len() && prev[i] == stamped(p[j].1@, p[j].0, side);
        assert(of_kind(p, side, k)[i] == prev[i]);
    } else {
        assert(of_kind(p, side, k)[prev.len() as int] == stamped(p[j].1@, p[j].0, side));
    }
}

/// A stamped target carries the name and side it was stamped with.
proof fn lemma_stamped<F>(t: TargetModel<F>, name: Seq<char>, side: Seq<char>)
    ensures
        model_name(stamped(t, name, side)) == name,
        model_side(stamped(t, name, side)) == side,
{
}

/// Each target of the kinds up to `n` is a stamped pair of one side.
proof fn lemma_kinds_members<F>(
    bp: Seq<(Seq<char>, Target<F>)>,
    rp: Seq<(Seq<char>, Target<F>)>,
    n: nat,
    i: int,
)
    requires
        0 <= i < kinds_up_to(bp, rp, n).len(),
    ensures
        (exists|j: int|
            0 <= j < bp.len() && kinds_up_to(bp, rp, n)[i] == stamped(#[trigger] bp[j].1@, bp[j].0, "blue"@))
            || (exists|j: int|
            0 <= j < rp.len() && kinds_up_to(bp, rp, n)[i] == stamped(#[trigger] rp[j].1@, rp[j].0, "red"@)),
    decreases n,
{
    let prev = kinds_up_to(bp, rp, (n - 1) as nat);
    let b = of_kind(bp, "blue"@, n - 1);
    let r = of_kind(rp, "red"@, n - 1);
    if i < prev.len() {
        lemma_kinds_members(bp, rp, (n - 1) as nat, i);
        assert(kinds_up_to(bp, rp, n)[i] == prev[i]);
    } else if i < prev.len() + b.len() {
        assert(kinds_up_to(bp, rp, n)[i] == b[i - prev.len()]);
        lemma_of_kind_members(bp, "blue"@, n - 1, i - prev.len());
    } else {
        assert(kinds_up_to(bp, rp, n)[i] == r[i - prev.len() - b.len()]);
        lemma_of_kind_members(rp, "red"@, n - 1, i - prev.len() - b.len());
    }
}

/// Each pair of either side is, stamped, a target of the kinds up to `n`
/// when its kind is below `n`.
proof fn lemma_kinds_cover<F>(
    bp: Seq<(Seq<char>, Target<F>)>,
    rp: Seq<(Seq<char>, Target<F>)>,
    n: nat,
    blue: bool,
    j: int,
)
    requires
        blue ==> 0 <= j < bp.len() && kind_of(bp[j].1@) < n,
        !blue ==> 0 <= j < rp.len() && kind_of(rp[j].1@) < n,
    ensures
        blue ==> kinds_up_to(bp, rp, n).contains(stamped(bp[j].1@, bp[j].0, "blue"@)),
        !blue ==> kinds_up_to(bp, rp, n).contains(stamped(rp[j].1@, rp[j].0, "red"@)),
    decreases n,
{
    let prev = kinds_up_to(bp, rp, (n - 1) as nat);
    let b = of_kind(bp, "blue"@, n - 1);
    let r = of_kind(rp, "red"@, n - 1);
    let all = kinds_up_to(bp, rp, n);
    assert(all == prev + (b + r));
    if blue {
        let t = stamped(bp[j].1@, bp[j].0, "blue"@);
        if kind_of(bp[j].1@) < n - 1 {
            lemma_kinds_cover(bp, rp, (n - 1) as nat, blue, j);
            let i = choose|i: int| 0 <= i < prev.len() && prev[i] == t;
            assert(all[i] == t);
        } else {
            lemma_of_kind_covers(bp, "blue"@, j);
            let i = choose|i: int| 0 <= i < b.len() && b[i] == t;
            assert(all[prev.len() + i] == t);
        }
    } else {
        let t = stamped(rp[j].1@, rp[j].0, "red"@);
        if kind_of(rp[j].1@) < n - 1 {
            lemma_kinds_cover(bp, rp, (n - 1) as nat, blue, j);
            let i = choose|i: int| 0 <= i < prev.len() && prev[i] == t;
            assert(all[i] == t);
        } else {
            lemma_of_kind_covers(rp, "red"@, j);
            let i = choose|i: int| 0 <= i < r.len() && r[i] == t;
            assert(all[prev.len() + b.len() + i] == t);
        }
    }
}

/// The target goes to blue's map.
pub open spec fn goes_blue<F>(t: TargetModel<F>) -> bool {
    model_side(t) == "blue"@
}

/// Filing targets where every one that goes to side `blue` under name `k`
/// is `e`, and one does, leaves `e` under `k` on that side.
proof fn lemma_placed_value<F>(tl: TargetListModel<F>, s: Seq<TargetModel<F>>, blue: bool, k: Seq<char>, e: TargetModel<F>)
    requires
        forall|i: int|
            0 <= i < s.len() && goes_blue(#[trigger] s[i]) == blue && model_name(s[i]) == k ==> s[i] == e,
        exists|i: int| 0 <= i < s.len() && goes_blue(#[trigger] s[i]) == blue && model_name(s[i]) == k,
    ensures
        side_map(placed(tl, s), blue).dom().contains(k),
        side_map(placed(tl, s), blue)[k] == e,
    decreases s.len(),
{
    let q = s.drop_last();
    let t = s.last();
    if goes_blue(t) == blue && model_name(t) == k {
        assert(s[s.len() - 1] == t);
    } else {
        let i = choose|i: int| 0 <= i < s.len() && goes_blue(#[trigger] s[i]) == blue && model_name(s[i]) == k;
        assert(i < s.len() - 1);
        assert(q[i] == s[i]);
        assert forall|a: int| 0 <= a < q.len() && goes_blue(#[trigger] q[a]) == blue && model_name(q[a]) == k implies q[a] == e by {
            assert(q[a] == s[a]);
        }
        lemma_placed_value(tl, q, blue, k, e);
    }
}

/// Filing targets none of which goes to side `blue` under name `k` leaves
/// that side holding `k` as before.
proof fn lemma_placed_absent<F>(tl: TargetListModel<F>, s: Seq<TargetModel<F>>, blue: bool, k: Seq<char>)
    requires
        forall|i: int| 0 <= i < s.len() ==> !(goes_blue(#[trigger] s[i]) == blue && model_name(s[i]) == k),
    ensures
        side_map(placed(tl, s), blue).dom().contains(k) == side_map(tl, blue).dom().contains(k),
    decreases s.len(),
{
    if s.len() > 0 {
        let q = s.drop_last();
        assert forall|i: int| 0 <= i < q.len() implies !(goes_blue(#[trigger] q[i]) == blue && model_name(q[i]) == k) by {
            assert(q[i] == s[i]);
        }
        lemma_placed_absent(tl, q, blue, k);
        assert(!(goes_blue(s[s.len() - 1]) == blue && model_name(s[s.len() - 1]) == k));
    }
}


/// The pairs of one side.
pub open spec fn side_pairs<F>(
    bp: Seq<(Seq<char>, Target<F>)>,
    rp: Seq<(Seq<char>, Target<F>)>,
    blue: bool,
) -> Seq<(Seq<char>, Target<F>)> {
    if blue {
        bp
    } else {
        rp
    }
}

/// The name of one side.
pub open spec fn side_name(blue: bool) -> Seq<char> {
    if blue {
        "blue"@
    } else {
        "red"@
    }
}

/// A filed target that goes to side `blue` is the stamped target of a pair
/// of that side.
proof fn lemma_member_of_side<F>(
    bp: Seq<(Seq<char>, Target<F>)>,
    rp: Seq<(Seq<char>, Target<F>)>,
    blue: bool,
    a: int,
)
    requires
        0 <= a < kinds_up_to(bp, rp, 7).len(),
        goes_blue(kinds_up_to(bp, rp, 7)[a]) == blue,
    ensures
        exists|j: int|
            0 <= j < side_pairs(bp, rp, blue).len() && kinds_up_to(bp, rp, 7)[a] == stamped(
                #[trigger] side_pairs(bp, rp, blue)[j].1@,
                side_pairs(bp, rp, blue)[j].0,
                side_name(blue),
            ),
{
    reveal_strlit("blue");
    reveal_strlit("red");
    assert("red"@ != "blue"@) by {
        assert("red"@.len() != "blue"@.len());
    }
    let s = kinds_up_to(bp, rp, 7);
    lemma_kinds_members(bp, rp, 7, a);
    if exists|j2: int| 0 <= j2 < bp.len() && s[a] == stamped(#[trigger] bp[j2].1@, bp[j2].0, "blue"@) {
        let j2 = choose|j2: int| 0 <= j2 < bp.len() && s[a] == stamped(#[trigger] bp[j2].1@, bp[j2].0, "blue"@);
        lemma_stamped(bp[j2].1@, bp[j2].0, "blue"@);
        assert(blue);
        assert(side_pairs(bp, rp, blue)[j2] == bp[j2]);
    } else {
        let j2 = choose|j2: int| 0 <= j2 < rp.len() && s[a] == stamped(#[trigger] rp[j2].1@, rp[j2].0, "red"@);
        lemma_stamped(rp[j2].1@, rp[j2].0, "red"@);
        assert(!blue);
        assert(side_pairs(bp, rp, blue)[j2] == rp[j2]);
    }
}

/// The map of one side with each target stamped with its key and `side`.
pub open spec fn stamped_map<F>(m: Map<Seq<char>, Target<F>>, side: Seq<char>) -> Map<Seq<char>, TargetModel<F>> {
    Map::new(|k: Seq<char>| m.dom().contains(k), |k: Seq<char>| stamped(m[k]@, k, side))
}

/// One key of one side of the round trip.
proof fn lemma_round_trip_key<F>(
    bp: Seq<(Seq<char>, Target<F>)>,
    rp: Seq<(Seq<char>, Target<F>)>,
    blue: bool,
    k: Seq<char>,
)
    requires
        crate::strmap::keys_distinct(bp),
        crate::strmap::keys_distinct(rp),
    ensures
        side_map(placed(empty_targets(), kinds_up_to(bp, rp, 7)), blue).dom().contains(k)
            == stamped_map(crate::strmap::map_of_pairs(side_pairs(bp, rp, blue)), side_name(blue)).dom().contains(k),
        stamped_map(crate::strmap::map_of_pairs(side_pairs(bp, rp, blue)), side_name(blue)).dom().contains(k)
            ==> side_map(placed(empty_targets(), kinds_up_to(bp, rp, 7)), blue)[k]
            == stamped_map(crate::strmap::map_of_pairs(side_pairs(bp, rp, blue)), side_name(blue))[k],
{
    let s = kinds_up_to(bp, rp, 7);
    let p = side_pairs(bp, rp, blue);
    let side = side_name(blue);
    assert(crate::strmap::keys_distinct(p));
    crate::strmap::lemma_map_of_pairs_dom(p, k);
    if exists|j: int| 0 <= j < p.len() && p[j].0 == k {
        let j = choose|j: int| 0 <= j < p.len() && p[j].0 == k;
        crate::strmap::lemma_map_of_pairs_index(p, j);
        let e = stamped(p[j].1@, k, side);
        lemma_stamped(p[j].1@, k, side);
        lemma_kinds_cover(bp, rp, 7, blue, j);
        assert(s.contains(e));
        let i = choose|i: int| 0 <= i < s.len() && s[i] == e;
        assert(goes_blue(s[i]) == blue) by {
            reveal_strlit("blue");
            reveal_strlit("red");
            assert("red"@.len() != "blue"@.len());
        }
        assert forall|a: int|
            0 <= a < s.len() && goes_blue(#[trigger] s[a]) == blue && model_name(s[a]) == k implies s[a] == e by {
            lemma_member_of_side(bp, rp, blue, a);
            let j2 = choose|j2: int|
                0 <= j2 < p.len() && s[a] == stamped(#[trigger] p[j2].1@, p[j2].0, side);
            lemma_stamped(p[j2].1@, p[j2].0, side);
            assert(j2 == j);
        }
        lemma_placed_value(empty_targets(), s, blue, k, e);
    } else {
        assert forall|a: int| 0 <= a < s.len() implies !(goes_blue(#[trigger] s[a]) == blue && model_name(s[a]) == k) by {
            if goes_blue(s[a]) == blue && model_name(s[a]) == k {
                lemma_member_of_side(bp, rp, blue, a);
                let j2 = choose|j2: int|
                    0 <= j2 < p.len() && s[a] == stamped(#[trigger] p[j2].1@, p[j2].0, side);
                lemma_stamped(p[j2].1@, p[j2].0, side);
                assert(p[j2].0 == k);
            }
        }
        lemma_placed_absent(empty_targets(), s, blue, k);
    }
}

/// One side of the round trip: the targets filed hold, under each key of
/// the side's pairs, that pair's target stamped with the key and side.
proof fn lemma_round_trip_side<F>(
    bp: Seq<(Seq<char>, Target<F>)>,
    rp: Seq<(Seq<char>, Target<F>)>,
    blue: bool,
)
    requires
        crate::strmap::keys_distinct(bp),
        crate::strmap::keys_distinct(rp),
    ensures
        side_map(placed(empty_targets(), kinds_up_to(bp, rp, 7)), blue) == stamped_map(
            crate::strmap::map_of_pairs(side_pairs(bp, rp, blue)),
            side_name(blue),
        ),
{
    let result = side_map(placed(empty_targets(), kinds_up_to(bp, rp, 7)), blue);
    let target = stamped_map(crate::strmap::map_of_pairs(side_pairs(bp, rp, blue)), side_name(blue));
    assert forall|k: Seq<char>| #[trigger] result.dom().contains(k) == target.dom().contains(k) by {
        lemma_round_trip_key(bp, rp, blue, k);
    }
    assert forall|k: Seq<char>| #[trigger] result.dom().contains(k) implies result[k] == target[k] by {
        lemma_round_trip_key(bp, rp, blue, k);
    }
    assert(result =~= target);
}

/// The lists of all kinds, taken in order, are the targets of kinds `0` to `6`.
proof fn lemma_all_targets_kinds<F>(
    x: TargetListInternal<F>,
    bp: Seq<(Seq<char>, Target<F>)>,
    rp: Seq<(Seq<char>, Target<F>)>,
)
    requires
        forall|k: int|
            0 <= k < 7 ==> #[trigger] kind_list(x, k) == of_kind(bp, "blue"@, k) + of_kind(rp, "red"@, k),
    ensures
        all_targets(x) == kinds_up_to(bp, rp, 7),
{
    reveal_with_fuel(kinds_up_to, 8);
    assert(kind_list(x, 0) == of_kind(bp, "blue"@, 0) + of_kind(rp, "red"@, 0));
    assert(kind_list(x, 1) == of_kind(bp, "blue"@, 1) + of_kind(rp, "red"@, 1));
    assert(kind_list(x, 2) == of_kind(bp, "blue"@, 2) + of_kind(rp, "red"@, 2));
    assert(kind_list(x, 3) == of_kind(bp, "blue"@, 3) + of_kind(rp, "red"@, 3));
    assert(kind_list(x, 4) == of_kind(bp, "blue"@, 4) + of_kind(rp, "red"@, 4));
    assert(kind_list(x, 5) == of_kind(bp, "blue"@, 5) + of_kind(rp, "red"@, 5));
    assert(kind_list(x, 6) == of_kind(bp, "blue"@, 6) + of_kind(rp, "red"@, 6));
    assert(all_targets(x) =~= kinds_up_to(bp, rp, 7));
}

/// Splitting a target list into one list per kind and filing those lists
/// again gives the target list back: no target has an unknown side, and each
/// side holds, under each of its keys, its target with that key as name and
/// that side as side.
pub proof fn law_internal_round_trip<F>(tl: TargetList<F>, x: TargetListInternal<F>)
    requires
        crate::strmap::keys_distinct(tl.blue.pairs()),
        crate::strmap::keys_distinct(tl.red.pairs()),
        forall|k: int|
            0 <= k < 7 ==> #[trigger] kind_list(x, k) == of_kind(tl.blue.pairs(), "blue"@, k)
                + of_kind(tl.red.pairs(), "red"@, k),
    ensures
        forall|i: int|
            0 <= i < all_targets(x).len() ==> side_known(model_side(#[trigger] all_targets(x)[i])),
        placed(empty_targets(), all_targets(x)) == (TargetListModel {
            blue: stamped_map(tl.blue@, "blue"@),
            red: stamped_map(tl.red@, "red"@),
        }),
{
    let bp = tl.blue.pairs();
    let rp = tl.red.pairs();
    lemma_all_targets_kinds(x, bp, rp);
    let s = all_targets(x);
    assert forall|i: int| 0 <= i < s.len() implies side_known(model_side(#[trigger] s[i])) by {
        lemma_kinds_members(bp, rp, 7, i);
        if exists|j: int| 0 <= j < bp.len() && s[i] == stamped(#[trigger] bp[j].1@, bp[j].0, "blue"@) {
            let j = choose|j: int| 0 <= j < bp.len() && s[i] == stamped(#[trigger] bp[j].1@, bp[j].0, "blue"@);
            lemma_stamped(bp[j].1@, bp[j].0, "blue"@);
        } else {
            let j = choose|j: int| 0 <= j < rp.len() && s[i] == stamped(#[trigger] rp[j].1@, rp[j].0, "red"@);
            lemma_stamped(rp[j].1@, rp[j].0, "red"@);
        }
    }
    lemma_round_trip_side(bp, rp, true);
    lemma_round_trip_side(bp, rp, false);
    let r = placed(empty_targets(), s);
    assert(r.blue == side_map(r, true));
    assert(r.red == side_map(r, false));
}

/// A target of orbit kind `kind` ("cap", "refueling" or "awacs") flying
/// the orbit of axis `axis` and radius `radius`, named `name`, of side `side`.
pub open spec fn orbit_target_is<F>(
    t: TargetModel<F>,
    kind: Seq<char>,
    axis: F,
    radius: F,
    name: Seq<char>,
    side: Seq<char>,
) -> bool {
    match t {
        TargetModel::Cap(o) => kind == "cap"@ && o.axis == axis && o.radius == radius && o.name == name
            && o.side == side,
        TargetModel::Refueling(o) => kind == "refueling"@ && o.axis == axis && o.radius == radius
            && o.name == name && o.side == side,
        TargetModel::Awacs(o) => kind == "awacs"@ && o.axis == axis && o.radius == radius && o.name
            == name && o.side == side,
        _ => false,
    }
}

/// Reading an orbit zone (CAP, refueling or AWACS) into the target list
/// puts, under the zone's name on the side its name gives, a target of that
/// kind flying the zone's orbit: the orbit's axis is the zone's axis and
/// its radius the zone's radius. The other side is left as it was.
pub proof fn law_orbit_zone_keeps_its_orbit<F>(tl: TargetListModel<F>, z: MissionZone<F>)
    requires
        z.orbit is Some,
        zone_kind(z.name@) == "cap"@ || zone_kind(z.name@) == "refueling"@ || zone_kind(z.name@)
            == "awacs"@,
    ensures
        side_map(zone_step(tl, z), zone_side(z.name@) == "blue"@).dom().contains(z.name@),
        orbit_target_is(
            side_map(zone_step(tl, z), zone_side(z.name@) == "blue"@)[z.name@],
            zone_kind(z.name@),
            (z.orbit->0).0,
            (z.orbit->0).1,
            z.name@,
            zone_side(z.name@),
        ),
        side_map(zone_step(tl, z), !(zone_side(z.name@) == "blue"@)) == side_map(
            tl,
            !(zone_side(z.name@) == "blue"@),
        ),
{
    reveal_strlit("cap");
    reveal_strlit("refueling");
    reveal_strlit("awacs");
    assert("cap"@.len() != "refueling"@.len() && "cap"@.len() != "awacs"@.len()
        && "refueling"@.len() != "awacs"@.len());
}

/// Reading a fighter sweep zone puts, under the zone's name on the side its
/// name gives, a sweep at the zone's position; the other side is left as it
/// was.
pub proof fn law_sweep_zone_at_its_position<F>(tl: TargetListModel<F>, z: MissionZone<F>)
    requires
        zone_kind(z.name@) == "fightersweep"@,
    ensures
        side_map(zone_step(tl, z), zone_side(z.name@) == "blue"@).dom().contains(z.name@),
        side_map(zone_step(tl, z), zone_side(z.name@) == "blue"@)[z.name@] matches TargetModel::FighterSweep(
            w,
        ) && w.x == z.x && w.y == z.y && w.name == z.name@ && w.side == zone_side(z.name@),
        side_map(zone_step(tl, z), !(zone_side(z.name@) == "blue"@)) == side_map(
            tl,
            !(zone_side(z.name@) == "blue"@),
        ),
{
    reveal_strlit("cap");
    reveal_strlit("refueling");
    reveal_strlit("awacs");
    reveal_strlit("fightersweep");
    assert("fightersweep"@.len() != "cap"@.len() && "fightersweep"@.len() != "refueling"@.len()
        && "fightersweep"@.len() != "awacs"@.len());
}

/// Reading a static strike zone `<SIDE>_STATICSTRIKE_<TARGET>_<ITEM>` puts,
/// on the side its name gives, a strike target named `<TARGET>` whose last
/// element is `<ITEM>` at the zone's position; a strike target already
/// there keeps its earlier elements.
pub proof fn law_static_zone_element_at_its_position<F>(tl: TargetListModel<F>, z: MissionZone<F>)
    requires
        zone_kind(z.name@) == "staticstrike"@,
        split_spec(z.name@, '_').len() >= 4,
        strikes_listed(side_map(tl, zone_side(z.name@) == "blue"@)),
    ensures
        ({
            let parts = split_spec(z.name@, '_');
            let before = side_map(tl, zone_side(z.name@) == "blue"@);
            let after = side_map(zone_step(tl, z), zone_side(z.name@) == "blue"@);
            &&& after.dom().contains(parts[2])
            &&& after[parts[2]] is Strike
            &&& after[parts[2]]->Strike_0.elements is Some
            &&& after[parts[2]]->Strike_0.elements->0.last() == ElementModel::FixedCoord(parts[3], z.x, z.y)
            &&& (before.dom().contains(parts[2]) && before[parts[2]] is Strike) ==> after[parts[2]]->Strike_0.elements->0
                == before[parts[2]]->Strike_0.elements->0.push(ElementModel::FixedCoord(parts[3], z.x, z.y))
        }),
        side_map(zone_step(tl, z), !(zone_side(z.name@) == "blue"@)) == side_map(
            tl,
            !(zone_side(z.name@) == "blue"@),
        ),
{
    reveal_strlit("cap");
    reveal_strlit("refueling");
    reveal_strlit("awacs");
    reveal_strlit("fightersweep");
    reveal_strlit("staticstrike");
    assert("staticstrike"@.len() != "cap"@.len() && "staticstrike"@.len() != "refueling"@.len()
        && "staticstrike"@.len() != "awacs"@.len());
    assert("staticstrike"@ != "fightersweep"@) by {
        assert("staticstrike"@[0] != "fightersweep"@[0]);
    }
    let parts = split_spec(z.name@, '_');
    let e = ElementModel::FixedCoord(parts[3], z.x, z.y);
    let before = side_map(tl, zone_side(z.name@) == "blue"@);
    if !(before.dom().contains(parts[2]) && before[parts[2]] is Strike) {
        assert(seq![e].last() == e);
    } else {
        let earlier = before[parts[2]]->Strike_0.elements->0;
        assert(earlier.push(e).last() == e);
    }
}

} // verus!
