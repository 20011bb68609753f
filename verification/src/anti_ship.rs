//! Strikes on ship groups.
use vstd::prelude::*;
use vstd::string::*;
use crate::targets::{
    CampaignNames, CampaignNamesModel, TargetFirepower, append_errors, firepower_check,
    firepower_errors, one_error, opt_seq, side_check, side_errors,
};
use crate::text::{list_contains, str_eq};
use crate::validation::{ErrorModel, Named, ValidationError, ValidationResult, outcome_is};

verus! {

/// A strike on a ship group.
#[derive(Debug, Clone, PartialEq)]
pub struct AntiShipStrike {
    pub priority: u32,
    pub text: String,
    pub inactive: bool,
    pub firepower: TargetFirepower,
    pub class: String,
    pub class_template: Option<String>,
    pub _name: String,
    pub _side: String,
    pub attributes: Vec<String>,
}

impl Named for AntiShipStrike {
    open spec fn name_spec(&self) -> Seq<char> {
        self._name@
    }

    fn get_name(&self) -> (n: String) {
        self._name.clone()
    }
}

/// The class of an anti-ship target when the campaign files give none.
pub fn default_class() -> (c: String)
    ensures
        c@ == "static"@,
{
    "static".to_owned()
}

/// All errors of an anti-ship target: side, firepower, and its group must be a
/// ship group of the mission, of class "ship".
pub open spec fn anti_ship_errors(
    name: Seq<char>,
    side: Seq<char>,
    firepower: TargetFirepower,
    class: Seq<char>,
    class_template: Option<Seq<char>>,
    names: CampaignNamesModel,
) -> Seq<ErrorModel> {
    side_errors(name, side) + firepower_errors(firepower) + match class_template {
        None => Seq::empty(),
        Some(vg) => if class == "ship"@ {
            if names.ship_groups.contains(vg) {
                Seq::empty()
            } else {
                seq![
                    (
                        "class_template"@,
                        "Target group name"@,
                        "Target group must be a ship group name defined in base_mission.miz"@,
                    ),
                ]
            }
        } else {
            seq![("class"@, "Target Class"@, "Target class must be ship"@)]
        },
    }
}

impl AntiShipStrike {
    /// Checks an anti-ship target against the campaign.
    pub fn validate(&self, names: &CampaignNames) -> (res: ValidationResult)
        ensures
            outcome_is(
                res,
                anti_ship_errors(
                    self._name@,
                    self._side@,
                    self.firepower,
                    self.class@,
                    opt_seq(self.class_template),
                    names@,
                ),
            ),
    {
        let mut errors = side_check(&self._name, &self._side);
        append_errors(&mut errors, firepower_check(&self.firepower));
        let class_errors: Vec<ValidationError> = match &self.class_template {
            None => Vec::new(),
            Some(vg) => {
                if str_eq(self.class.as_str(), "ship") {
                    if list_contains(&names.ship_groups, vg.as_str()) {
                        Vec::new()
                    } else {
                        one_error(
                            "class_template",
                            "Target group name",
                            "Target group must be a ship group name defined in base_mission.miz",
                        )
                    }
                } else {
                    one_error("class", "Target Class", "Target class must be ship")
                }
            },
        };
        append_errors(&mut errors, class_errors);
        assert(errors@.map_values(|x: ValidationError| x@) =~= anti_ship_errors(
            self._name@,
            self._side@,
            self.firepower,
            self.class@,
            opt_seq(self.class_template),
            names@,
        ));
        ValidationResult::from_errors(errors)
    }
}

} // verus!
