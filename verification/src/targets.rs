//! Campaign targets: ground strikes, ship strikes, runway attacks, intercepts
//! and orbits; their checks, and their generation for every airbase that has
//! squadrons. Coordinates and distances, which the rules only carry, are
//! type parameters of the target types.
use vstd::prelude::*;
use vstd::string::*;
use crate::airbases::BaseRef;
use crate::oob::{based_at, OobAir, Squadron, SquadronModel};
use crate::strmap::map_of_pairs;
use crate::text::{list_contains, str_eq, utf8_len, byte_len, views};
use crate::trigger::{ActionsModel, Trigger, TriggerModel, Actions};
use crate::validation::{ErrorModel, Named, ValidationError, ValidationResult, outcome_is};

verus! {

/// How many aircraft a target needs, at least and at most.
#[derive(Debug, Clone, Copy, PartialEq, Eq, Structural)]
pub struct TargetFirepower {
    pub min: u32,
    pub max: u32,
}

/// The errors of a firepower requirement: the minimum must not exceed the maximum.
pub open spec fn firepower_errors(f: TargetFirepower) -> Seq<ErrorModel> {
    if f.min > f.max {
        seq![("min"@, "Minimum"@, "Minimum firepower must be <= Max Firepower"@)]
    } else {
        Seq::empty()
    }
}

impl TargetFirepower {
    /// Checks that the minimum does not exceed the maximum.
    pub fn validate(&self) -> (res: ValidationResult)
        ensures
            outcome_is(res, firepower_errors(*self)),
    {
        let mut errors: Vec<ValidationError> = Vec::new();
        if self.min > self.max {
            errors.push(
                ValidationError::new("min", "Minimum", "Minimum firepower must be <= Max Firepower"),
            );
        }
        assert(errors@.map_values(|e: ValidationError| e@) =~= firepower_errors(*self));
        ValidationResult::from_errors(errors)
    }
}

/// The names that target checks look up: the mission's vehicle and ship groups
/// and trigger zones, the campaign's fixed airbases, and its briefing images.
pub struct CampaignNames {
    pub vehicle_groups: Vec<String>,
    pub ship_groups: Vec<String>,
    pub fixed_airbases: Vec<String>,
    pub zones: Vec<String>,
    pub images: Vec<String>,
}

/// The error of a target whose side is `side` and whose name is `name`. As
/// the editor has it, only a target named "red" with a side other than blue
/// is reported.
pub open spec fn side_errors(name: Seq<char>, side: Seq<char>) -> Seq<ErrorModel> {
    if side != "blue"@ && name == "red"@ {
        seq![("_side"@, "Target Side"@, "Side must be blue or red"@)]
    } else {
        Seq::empty()
    }
}

/// The error for one briefing image that is not among the campaign's images.
pub open spec fn picture_error(p: Seq<char>) -> ErrorModel {
    ("picture"@, "Briefing Images"@, p + " is not a valid image"@)
}

/// The errors for the images of `ps` that are not among `images`, in order.
pub open spec fn missing_pictures(ps: Seq<Seq<char>>, images: Seq<Seq<char>>) -> Seq<ErrorModel>
    decreases ps.len(),
{
    if ps.len() == 0 {
        Seq::empty()
    } else {
        missing_pictures(ps.drop_last(), images) + if images.contains(ps.last()) {
            Seq::<ErrorModel>::empty()
        } else {
            seq![picture_error(ps.last())]
        }
    }
}

/// The errors of a target's briefing images. A list holding one empty name is
/// what the editor leaves when no image is chosen, and is not checked.
pub open spec fn picture_errors(ps: Seq<Seq<char>>, images: Seq<Seq<char>>) -> Seq<ErrorModel> {
    if ps.len() != 1 || utf8_len(ps[0]) > 0 {
        missing_pictures(ps, images)
    } else {
        Seq::empty()
    }
}

/// The side check of a target, as errors.
pub(crate) fn side_check(name: &String, side: &String) -> (e: Vec<ValidationError>)
    ensures
        e@.map_values(|x: ValidationError| x@) == side_errors(name@, side@),
{
    let mut errors: Vec<ValidationError> = Vec::new();
    if !str_eq(side.as_str(), "blue") && str_eq(name.as_str(), "red") {
        errors.push(ValidationError::new("_side", "Target Side", "Side must be blue or red"));
    }
    assert(errors@.map_values(|x: ValidationError| x@) =~= side_errors(name@, side@));
    errors
}

/// The firepower check of a target, as errors.
pub(crate) fn firepower_check(f: &TargetFirepower) -> (e: Vec<ValidationError>)
    ensures
        e@.map_values(|x: ValidationError| x@) == firepower_errors(*f),
{
    let mut errors: Vec<ValidationError> = Vec::new();
    if f.min > f.max {
        errors.push(
            ValidationError::new("min", "Minimum", "Minimum firepower must be <= Max Firepower"),
        );
    }
    assert(errors@.map_values(|x: ValidationError| x@) =~= firepower_errors(*f));
    errors
}

/// The briefing image check of a target, as errors.
pub(crate) fn picture_check(pictures: &Vec<String>, images: &Vec<String>) -> (e: Vec<ValidationError>)
    ensures
        e@.map_values(|x: ValidationError| x@) == picture_errors(views(pictures@), views(images@)),
{
    let mut errors: Vec<ValidationError> = Vec::new();
    let check_all = pictures.len() != 1 || byte_len(pictures[0].as_str()) > 0;
    if !check_all {
        assert(errors@.map_values(|x: ValidationError| x@) =~= picture_errors(
            views(pictures@),
            views(images@),
        ));
        return errors;
    }
    let mut i: usize = 0;
    while i < pictures.len()
        invariant
            i <= pictures@.len(),
            errors@.map_values(|x: ValidationError| x@) == missing_pictures(
                views(pictures@.take(i as int)),
                views(images@),
            ),
        decreases pictures@.len() - i,
    {
        let ghost before = errors@;
        proof {
            assert(views(pictures@.take(i + 1)).drop_last() =~= views(pictures@.take(i as int)));
            assert(views(pictures@.take(i + 1)).last() == pictures@[i as int]@);
        }
        if !list_contains(images, pictures[i].as_str()) {
            let mut msg = pictures[i].clone();
            msg.append(" is not a valid image");
            let e = ValidationError::new("picture", "Briefing Images", msg.as_str());
            errors.push(e);
            assert(errors@.map_values(|x: ValidationError| x@) =~= before.map_values(
                |x: ValidationError| x@,
            ).push(e@));
        }
        i = i + 1;
        assert(errors@.map_values(|x: ValidationError| x@) =~= missing_pictures(
            views(pictures@.take(i as int)),
            views(images@),
        ));
    }
    assert(pictures@.take(pictures@.len() as int) =~= pictures@);
    errors
}

/// Appends the errors of `extra` to `errors`.
pub(crate) fn append_errors(errors: &mut Vec<ValidationError>, extra: Vec<ValidationError>)
    ensures
        final(errors)@.map_values(|x: ValidationError| x@) == old(errors)@.map_values(
            |x: ValidationError| x@,
        ) + extra@.map_values(|x: ValidationError| x@),
{
    let ghost x = extra@;
    let mut extra = extra;
    errors.append(&mut extra);
    assert(final(errors)@.map_values(|e: ValidationError| e@) =~= old(errors)@.map_values(
        |e: ValidationError| e@,
    ) + x.map_values(|e: ValidationError| e@));
}

/// A strike element named after a static object of the mission.
#[derive(Debug, Clone, PartialEq)]
pub struct StrikeNamedStaticTarget {
    pub name: String,
}

/// One element of a strike target: a point given by coordinates (`C` holds
/// them), or a static object of the mission by name.
#[derive(Debug, Clone, PartialEq)]
pub enum StrikeElement<C> {
    FixedCoord(C),
    NamedStatic(StrikeNamedStaticTarget),
}

/// The class of a strike target when the campaign files give none.
pub fn default_class() -> (c: Option<String>)
    ensures
        c matches Some(s) && s@ == "static"@,
{
    Some("static".to_owned())
}

/// A ground strike target: a vehicle group, ship group, airbase or a set of
/// elements.
#[derive(Debug)]
pub struct Strike<C> {
    pub priority: u32,
    pub text: String,
    pub inactive: bool,
    pub firepower: TargetFirepower,
    pub class: Option<String>,
    pub class_template: Option<String>,
    pub elements: Option<Vec<StrikeElement<C>>>,
    pub _name: String,
    pub _side: String,
    pub attributes: Vec<String>,
    pub picture: Vec<String>,
}

/// The character sequence of an optional string.
pub open spec fn opt_seq(o: Option<String>) -> Option<Seq<char>> {
    match o {
        Some(s) => Some(s@),
        None => None,
    }
}

/// A strike target with its strings as character sequences.
pub struct StrikeModel<C> {
    pub priority: u32,
    pub text: Seq<char>,
    pub inactive: bool,
    pub firepower: TargetFirepower,
    pub class: Option<Seq<char>>,
    pub class_template: Option<Seq<char>>,
    pub elements: Option<Seq<StrikeElement<C>>>,
    pub name: Seq<char>,
    pub side: Seq<char>,
    pub attributes: Seq<Seq<char>>,
    pub picture: Seq<Seq<char>>,
}

impl<C> View for Strike<C> {
    type V = StrikeModel<C>;

    open spec fn view(&self) -> StrikeModel<C> {
        StrikeModel {
            priority: self.priority,
            text: self.text@,
            inactive: self.inactive,
            firepower: self.firepower,
            class: opt_seq(self.class),
            class_template: opt_seq(self.class_template),
            elements: match self.elements {
                Some(v) => Some(v@),
                None => None,
            },
            name: self._name@,
            side: self._side@,
            attributes: views(self.attributes@),
            picture: views(self.picture@),
        }
    }
}

impl<C> Named for Strike<C> {
    open spec fn name_spec(&self) -> Seq<char> {
        self._name@
    }

    fn get_name(&self) -> (n: String) {
        self._name.clone()
    }
}

/// The errors of a strike target's class and group: a vehicle or ship group
/// must be in the mission, an airbase among the fixed airbases; any other
/// class is an error unless the target lists elements.
pub open spec fn strike_class_errors<C>(s: StrikeModel<C>, names: CampaignNamesModel) -> Seq<
    ErrorModel,
> {
    match s.class_template {
        None => Seq::empty(),
        Some(vg) => if s.class == Some("vehicle"@) {
            if names.vehicle_groups.contains(vg) {
                Seq::empty()
            } else {
                seq![
                    (
                        "class_template"@,
                        "Target group name"@,
                        "Target group must be a vehicle group name defined in base_mission.miz"@,
                    ),
                ]
            }
        } else if s.class == Some("ship"@) {
            if names.ship_groups.contains(vg) {
                Seq::empty()
            } else {
                seq![
                    (
                        "class_template"@,
                        "Target group name"@,
                        "Target group must be a ship group name defined in base_mission.miz"@,
                    ),
                ]
            }
        } else if s.class == Some("airbase"@) {
            if names.fixed_airbases.contains(vg) {
                Seq::empty()
            } else {
                seq![
                    (
                        "class_template"@,
                        "Target group name"@,
                        "Target group must be a fixed airbase name if class is airbase"@,
                    ),
                ]
            }
        } else if s.elements is None {
            seq![("class"@, "Target Class"@, "Target class must be vehicle, ship, or airbase"@)]
        } else {
            Seq::empty()
        },
    }
}

/// The names of a campaign as character sequences.
pub struct CampaignNamesModel {
    pub vehicle_groups: Seq<Seq<char>>,
    pub ship_groups: Seq<Seq<char>>,
    pub fixed_airbases: Seq<Seq<char>>,
    pub zones: Seq<Seq<char>>,
    pub images: Seq<Seq<char>>,
}

impl View for CampaignNames {
    type V = CampaignNamesModel;

    open spec fn view(&self) -> CampaignNamesModel {
        CampaignNamesModel {
            vehicle_groups: views(self.vehicle_groups@),
            ship_groups: views(self.ship_groups@),
            fixed_airbases: views(self.fixed_airbases@),
            zones: views(self.zones@),
            images: views(self.images@),
        }
    }
}

/// All errors of a strike target, in the order the editor reports them.
pub open spec fn strike_errors<C>(s: StrikeModel<C>, names: CampaignNamesModel) -> Seq<
    ErrorModel,
> {
    side_errors(s.name, s.side) + firepower_errors(s.firepower) + strike_class_errors(s, names)
        + picture_errors(s.picture, names.images)
}

/// One error, as a list.
pub(crate) fn one_error(field: &str, display: &str, msg: &str) -> (e: Vec<ValidationError>)
    ensures
        e@.map_values(|x: ValidationError| x@) == seq![(field@, display@, msg@)],
{
    let mut v: Vec<ValidationError> = Vec::new();
    v.push(ValidationError::new(field, display, msg));
    assert(v@.map_values(|x: ValidationError| x@) =~= seq![(field@, display@, msg@)]);
    v
}

/// Whether an optional string is present and equal to `s`.
pub(crate) fn opt_is(o: &Option<String>, s: &str) -> (res: bool)
    ensures
        res == (opt_seq(*o) == Some(s@)),
{
    match o {
        Some(x) => str_eq(x.as_str(), s),
        None => false,
    }
}

impl<C> Strike<C> {
    /// Checks a strike target against the campaign: side, firepower, class and
    /// group, briefing images.
    pub fn validate(&self, names: &CampaignNames) -> (res: ValidationResult)
        ensures
            outcome_is(res, strike_errors(self@, names@)),
    {
        let mut errors = side_check(&self._name, &self._side);
        append_errors(&mut errors, firepower_check(&self.firepower));
        let class_errors: Vec<ValidationError> = match &self.class_template {
            None => Vec::new(),
            Some(vg) => {
                if opt_is(&self.class, "vehicle") {
                    if list_contains(&names.vehicle_groups, vg.as_str()) {
                        Vec::new()
                    } else {
                        one_error(
                            "class_template",
                            "Target group name",
                            "Target group must be a vehicle group name defined in base_mission.miz",
                        )
                    }
                } else if opt_is(&self.class, "ship") {
                    if list_contains(&names.ship_groups, vg.as_str()) {
                        Vec::new()
                    } else {
                        one_error(
                            "class_template",
                            "Target group name",
                            "Target group must be a ship group name defined in base_mission.miz",
                        )
                    }
                } else if opt_is(&self.class, "airbase") {
                    if list_contains(&names.fixed_airbases, vg.as_str()) {
                        Vec::new()
                    } else {
                        one_error(
                            "class_template",
                            "Target group name",
                            "Target group must be a fixed airbase name if class is airbase",
                        )
                    }
                } else if self.elements.is_none() {
                    one_error(
                        "class",
                        "Target Class",
                        "Target class must be vehicle, ship, or airbase",
                    )
                } else {
                    Vec::new()
                }
            },
        };
        assert(class_errors@.map_values(|x: ValidationError| x@) =~= strike_class_errors(
            self@,
            names@,
        ));
        append_errors(&mut errors, class_errors);
        append_errors(&mut errors, picture_check(&self.picture, &names.images));
        assert(errors@.map_values(|x: ValidationError| x@) =~= strike_errors(self@, names@));
        ValidationResult::from_errors(errors)
    }
}

/// An attack on the runways of a fixed airbase.
#[derive(Debug, Clone, PartialEq)]
pub struct RunwayAttack {
    pub firepower: TargetFirepower,
    pub airbase_name: String,
    pub priority: u32,
    pub text: String,
    pub inactive: bool,
    pub _name: String,
    pub _side: String,
    pub attributes: Vec<String>,
    pub picture: Vec<String>,
}

impl Named for RunwayAttack {
    open spec fn name_spec(&self) -> Seq<char> {
        self._name@
    }

    fn get_name(&self) -> (n: String) {
        self._name.clone()
    }
}

/// All errors of a runway attack: side, the airbase must be a fixed airbase of
/// the campaign, briefing images.
pub open spec fn runway_attack_errors(
    name: Seq<char>,
    side: Seq<char>,
    airbase: Seq<char>,
    pictures: Seq<Seq<char>>,
    names: CampaignNamesModel,
) -> Seq<ErrorModel> {
    side_errors(name, side) + (if names.fixed_airbases.contains(airbase) {
        Seq::empty()
    } else {
        seq![
            (
                "class_template"@,
                "Target group name"@,
                "Target group must be a fixed airbase name if class is airbase"@,
            ),
        ]
    }) + picture_errors(pictures, names.images)
}

impl RunwayAttack {
    /// Checks a runway attack against the campaign.
    pub fn validate(&self, names: &CampaignNames) -> (res: ValidationResult)
        ensures
            outcome_is(
                res,
                runway_attack_errors(
                    self._name@,
                    self._side@,
                    self.airbase_name@,
                    views(self.picture@),
                    names@,
                ),
            ),
    {
        let mut errors = side_check(&self._name, &self._side);
        let base_errors = if list_contains(&names.fixed_airbases, self.airbase_name.as_str()) {
            Vec::new()
        } else {
            one_error(
                "class_template",
                "Target group name",
                "Target group must be a fixed airbase name if class is airbase",
            )
        };
        append_errors(&mut errors, base_errors);
        append_errors(&mut errors, picture_check(&self.picture, &names.images));
        assert(errors@.map_values(|x: ValidationError| x@) =~= runway_attack_errors(
            self._name@,
            self._side@,
            self.airbase_name@,
            views(self.picture@),
            names@,
        ));
        ValidationResult::from_errors(errors)
    }
}

/// An alert intercept task around a base; `F` holds the radius.
#[derive(Debug, Clone, PartialEq)]
pub struct Intercept<F> {
    pub priority: u32,
    pub text: String,
    pub base: String,
    pub inactive: bool,
    pub radius: F,
    pub firepower: TargetFirepower,
    pub _name: String,
    pub _side: String,
    pub attributes: Vec<String>,
}

impl<F> Named for Intercept<F> {
    open spec fn name_spec(&self) -> Seq<char> {
        self._name@
    }

    fn get_name(&self) -> (n: String) {
        self._name.clone()
    }
}

impl<F> Intercept<F> {
    /// Checks an intercept task: side and firepower.
    pub fn validate(&self) -> (res: ValidationResult)
        ensures
            outcome_is(res, side_errors(self._name@, self._side@) + firepower_errors(self.firepower)),
    {
        let mut errors = side_check(&self._name, &self._side);
        append_errors(&mut errors, firepower_check(&self.firepower));
        ValidationResult::from_errors(errors)
    }
}

/// The errors of an orbit target (CAP or refueling): side, and its reference
/// zone must be a trigger zone of the mission.
pub open spec fn orbit_errors(
    name: Seq<char>,
    side: Seq<char>,
    ref_point: Seq<char>,
    zones: Seq<Seq<char>>,
    field_display: Seq<char>,
    message: Seq<char>,
) -> Seq<ErrorModel> {
    side_errors(name, side) + if zones.contains(ref_point) {
        Seq::empty()
    } else {
        seq![("ref_point"@, field_display, message)]
    }
}

/// A combat air patrol orbit at a trigger zone; `F` holds radius and axis.
#[derive(Debug, Clone, PartialEq)]
pub struct CAP<F> {
    pub priority: u32,
    pub ref_point: String,
    pub radius: F,
    pub axis: F,
    pub text: String,
    pub inactive: bool,
    pub firepower: TargetFirepower,
    pub _name: String,
    pub _side: String,
}

impl<F> CAP<F> {
    /// Checks a CAP orbit: side, and its reference zone must exist.
    pub fn validate(&self, names: &CampaignNames) -> (res: ValidationResult)
        ensures
            outcome_is(
                res,
                orbit_errors(
                    self._name@,
                    self._side@,
                    self.ref_point@,
                    names@.zones,
                    "CAP Reference Zone"@,
                    "CAP reference zone must exist in base_mission.miz"@,
                ),
            ),
    {
        let mut errors = side_check(&self._name, &self._side);
        if !list_contains(&names.zones, self.ref_point.as_str()) {
            append_errors(
                &mut errors,
                one_error(
                    "ref_point",
                    "CAP Reference Zone",
                    "CAP reference zone must exist in base_mission.miz",
                ),
            );
        }
        assert(errors@.map_values(|x: ValidationError| x@) =~= orbit_errors(
            self._name@,
            self._side@,
            self.ref_point@,
            names@.zones,
            "CAP Reference Zone"@,
            "CAP reference zone must exist in base_mission.miz"@,
        ));
        ValidationResult::from_errors(errors)
    }
}

/// A tanker orbit at a trigger zone; `F` holds radius and axis.
#[derive(Debug, Clone, PartialEq)]
pub struct Refueling<F> {
    pub priority: u32,
    pub ref_point: String,
    pub radius: F,
    pub axis: F,
    pub text: String,
    pub inactive: bool,
    pub firepower: TargetFirepower,
    pub _name: String,
    pub _side: String,
}

impl<F> Refueling<F> {
    /// Checks a tanker orbit: side, and its reference zone must exist.
    pub fn validate(&self, names: &CampaignNames) -> (res: ValidationResult)
        ensures
            outcome_is(
                res,
                orbit_errors(
                    self._name@,
                    self._side@,
                    self.ref_point@,
                    names@.zones,
                    "Refueling Reference Zone"@,
                    "Refueling reference zone must exist in base_mission.miz"@,
                ),
            ),
    {
        let mut errors = side_check(&self._name, &self._side);
        if !list_contains(&names.zones, self.ref_point.as_str()) {
            append_errors(
                &mut errors,
                one_error(
                    "ref_point",
                    "Refueling Reference Zone",
                    "Refueling reference zone must exist in base_mission.miz",
                ),
            );
        }
        assert(errors@.map_values(|x: ValidationError| x@) =~= orbit_errors(
            self._name@,
            self._side@,
            self.ref_point@,
            names@.zones,
            "Refueling Reference Zone"@,
            "Refueling reference zone must exist in base_mission.miz"@,
        ));
        ValidationResult::from_errors(errors)
    }
}

/// A fighter sweep over a point; `F` holds the coordinates.
#[derive(Debug, Clone, PartialEq)]
pub struct FighterSweep<F> {
    pub priority: u32,
    pub text: String,
    pub x: F,
    pub y: F,
    pub inactive: bool,
    pub firepower: TargetFirepower,
    pub _name: String,
    pub _side: String,
}

impl<F> FighterSweep<F> {
    /// Checks a fighter sweep: its side.
    pub fn validate(&self) -> (res: ValidationResult)
        ensures
            outcome_is(res, side_errors(self._name@, self._side@)),
    {
        ValidationResult::from_errors(side_check(&self._name, &self._side))
    }
}

} // verus!
