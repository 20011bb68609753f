//! Campaign triggers: a condition in Lua and the actions that run when it holds.
//! Triggers are kept by name in the campaign files and as a flat list for editing.
use vstd::prelude::*;
use vstd::string::*;
use crate::strmap::{
    assoc_insert, collect_pairs, keys_distinct, keys_of, lemma_assoc_insert_map_vals,
    lemma_collect_distinct, map_vals, StrMap,
};
use crate::text::{byte_len, contains_char, contains_spec, contains_str, utf8_len};
use crate::validation::{ErrorModel, Named, ValidationError, ValidationResult, outcome_is};

verus! {

/// The actions of a trigger: the campaign files hold either one Lua snippet or a list.
#[derive(Debug)]
pub enum Actions {
    One(String),
    Many(Vec<String>),
}

/// The actions of a trigger as character sequences.
pub enum ActionsModel {
    One(Seq<char>),
    Many(Seq<Seq<char>>),
}

/// The character sequences of a list of strings.
pub open spec fn string_views(v: Seq<String>) -> Seq<Seq<char>> {
    v.map_values(|s: String| s@)
}

impl View for Actions {
    type V = ActionsModel;

    open spec fn view(&self) -> ActionsModel {
        match self {
            Actions::One(a) => ActionsModel::One(a@),
            Actions::Many(v) => ActionsModel::Many(string_views(v@)),
        }
    }
}

/// A copy of a list of strings.
pub fn clone_strings(v: &Vec<String>) -> (res: Vec<String>)
    ensures
        string_views(res@) == string_views(v@),
{
    let mut res: Vec<String> = Vec::new();
    let mut i: usize = 0;
    while i < v.len()
        invariant
            i <= v@.len(),
            string_views(res@) == string_views(v@.take(i as int)),
        decreases v@.len() - i,
    {
        let ghost before = res@;
        let c = v[i].clone();
        res.push(c);
        proof {
            assert(v@.take(i + 1) =~= v@.take(i as int).push(v@[i as int]));
            assert(res@ == before.push(c));
            assert(string_views(res@) =~= string_views(before).push(c@));
            assert(string_views(v@.take(i + 1)) =~= string_views(v@.take(i as int)).push(
                v@[i as int]@,
            ));
        }
        i = i + 1;
    }
    assert(v@.take(v@.len() as int) =~= v@);
    res
}

impl Clone for Actions {
    fn clone(&self) -> (res: Self)
        ensures
            res@ == self@,
    {
        match self {
            Actions::One(a) => Actions::One(a.clone()),
            Actions::Many(v) => Actions::Many(clone_strings(v)),
        }
    }
}

/// A trigger: when `condition` holds, `action` runs; `once` triggers fire a single time.
#[derive(Debug)]
pub struct Trigger {
    pub active: bool,
    pub once: bool,
    pub condition: String,
    pub action: Actions,
    pub _name: String,
}

/// A trigger with its strings as character sequences.
pub struct TriggerModel {
    pub active: bool,
    pub once: bool,
    pub condition: Seq<char>,
    pub action: ActionsModel,
    pub name: Seq<char>,
}

impl View for Trigger {
    type V = TriggerModel;

    open spec fn view(&self) -> TriggerModel {
        TriggerModel {
            active: self.active,
            once: self.once,
            condition: self.condition@,
            action: self.action@,
            name: self._name@,
        }
    }
}

impl Clone for Trigger {
    fn clone(&self) -> (res: Self)
        ensures
            res@ == self@,
    {
        Trigger {
            active: self.active,
            once: self.once,
            condition: self.condition.clone(),
            action: self.action.clone(),
            _name: self._name.clone(),
        }
    }
}

impl Named for Trigger {
    open spec fn name_spec(&self) -> Seq<char> {
        self._name@
    }

    fn get_name(&self) -> (n: String) {
        self._name.clone()
    }
}

impl Trigger {
    /// A trigger called `name` that runs `actions` when `condition` holds.
    pub fn new(name: &str, condition: &str, actions: &[&str], active: bool, once: bool) -> (t:
        Trigger)
        ensures
            t@ == (TriggerModel {
                active,
                once,
                condition: condition@,
                action: ActionsModel::Many(actions@.map_values(|a: &str| a@)),
                name: name@,
            }),
    {
        let mut list: Vec<String> = Vec::new();
        let mut i: usize = 0;
        while i < actions.len()
            invariant
                i <= actions@.len(),
                string_views(list@) == actions@.take(i as int).map_values(|a: &str| a@),
            decreases actions@.len() - i,
        {
            let ghost before = list@;
            let c = actions[i].to_owned();
            list.push(c);
            proof {
                assert(actions@.take(i + 1) =~= actions@.take(i as int).push(actions@[i as int]));
                assert(string_views(list@) =~= string_views(before).push(c@));
                assert(actions@.take(i + 1).map_values(|a: &str| a@) =~= actions@.take(
                    i as int,
                ).map_values(|a: &str| a@).push(actions@[i as int]@));
            }
            i = i + 1;
        }
        assert(actions@.take(actions@.len() as int) =~= actions@);
        Trigger {
            active,
            once,
            condition: condition.to_owned(),
            action: Actions::Many(list),
            _name: name.to_owned(),
        }
    }
}

/// Triggers keyed by name, as the campaign files hold them.
pub type Triggers = StrMap<Trigger>;

/// Triggers as a flat list, each carrying its own name.
pub type TriggersFlat = Vec<Trigger>;

/// A trigger model renamed to `name`.
pub open spec fn with_name(t: TriggerModel, name: Seq<char>) -> TriggerModel {
    TriggerModel { name, ..t }
}

/// The Lua chunk that checks a condition: it wraps the condition in a function
/// and asserts that the function gives a boolean.
pub open spec fn condition_chunk(condition: Seq<char>) -> Seq<char> {
    "function test()\n   return "@ + condition
        + "\nend\n\nassert(type(test()) == 'boolean', \"Must return a boolean result\")\n"@
}

/// The Lua snippets of an action list.
pub open spec fn action_chunks(a: ActionsModel) -> Seq<Seq<char>> {
    match a {
        ActionsModel::One(x) => seq![x],
        ActionsModel::Many(v) => v,
    }
}

/// The chunks run to check a trigger: the engine's mock definitions, the
/// condition check, then each action.
pub open spec fn lua_chunks_of(t: TriggerModel, mocks: Seq<char>) -> Seq<Seq<char>> {
    seq![mocks, condition_chunk(t.condition)] + action_chunks(t.action)
}

/// The error reported when running a trigger's Lua failed with `e`.
pub open spec fn lua_error_entry(e: Seq<char>) -> ErrorModel {
    ("action"@, "Action"@, "Lua error: "@ + e)
}

/// The errors of a trigger, given what running its Lua gave (`None`: no error).
pub open spec fn trigger_errors(t: TriggerModel, lua: Option<Seq<char>>) -> Seq<ErrorModel> {
    (match lua {
        Some(e) => seq![lua_error_entry(e)],
        None => Seq::<ErrorModel>::empty(),
    }) + (if t.condition.contains('\'') {
        seq![("condition"@, "Condition"@, "Lua snippets must not contain ', use double quotes"@)]
    } else {
        Seq::<ErrorModel>::empty()
    }) + (if t.condition.contains(';') {
        seq![("condition"@, "Condition"@, "Lua snippets must not contain ;"@)]
    } else {
        Seq::<ErrorModel>::empty()
    })
}

/// The character sequence of an optional string.
pub open spec fn opt_view(o: Option<String>) -> Option<Seq<char>> {
    match o {
        Some(s) => Some(s@),
        None => None,
    }
}

impl Trigger {
    /// The Lua chunks that checking this trigger runs, in order.
    pub fn lua_chunks(&self, mocks: &str) -> (chunks: Vec<String>)
        ensures
            string_views(chunks@) == lua_chunks_of(self@, mocks@),
    {
        let mut chunks: Vec<String> = Vec::new();
        chunks.push(mocks.to_owned());
        let mut cond = "function test()\n   return ".to_owned();
        cond.append(self.condition.as_str());
        cond.append("\nend\n\nassert(type(test()) == 'boolean', \"Must return a boolean result\")\n");
        chunks.push(cond);
        let ghost head = chunks@;
        match &self.action {
            Actions::One(a) => {
                chunks.push(a.clone());
            },
            Actions::Many(v) => {
                let mut i: usize = 0;
                while i < v.len()
                    invariant
                        i <= v@.len(),
                        chunks@.len() == 2 + i,
                        string_views(chunks@) == string_views(head) + string_views(
                            v@.take(i as int),
                        ),
                    decreases v@.len() - i,
                {
                    let ghost before = chunks@;
                    let c = v[i].clone();
                    chunks.push(c);
                    proof {
                        assert(v@.take(i + 1) =~= v@.take(i as int).push(v@[i as int]));
                        assert(string_views(chunks@) =~= string_views(before).push(c@));
                        assert(string_views(v@.take(i + 1)) =~= string_views(
                            v@.take(i as int),
                        ).push(c@));
                        assert(string_views(chunks@) =~= string_views(head) + string_views(
                            v@.take(i + 1),
                        ));
                    }
                    i = i + 1;
                }
                assert(v@.take(v@.len() as int) =~= v@);
            },
        }
        assert(string_views(chunks@) =~= lua_chunks_of(self@, mocks@));
        chunks
    }

    /// The checks of a trigger, given what running its Lua gave: the Lua error
    /// first, then a condition with a single quote, then one with a semicolon.
    pub fn validate_with(&self, lua_error: Option<String>) -> (res: ValidationResult)
        ensures
            outcome_is(res, trigger_errors(self@, opt_view(lua_error))),
    {
        let mut errors: Vec<ValidationError> = Vec::new();
        let ghost e0 = errors@;
        match lua_error {
            Some(e) => {
                let mut msg = "Lua error: ".to_owned();
                msg.append(e.as_str());
                errors.push(ValidationError::new("action", "Action", msg.as_str()));
            },
            None => {},
        }
        let ghost e1 = errors@;
        if contains_char(self.condition.as_str(), '\'') {
            errors.push(
                ValidationError::new(
                    "condition",
                    "Condition",
                    "Lua snippets must not contain ', use double quotes",
                ),
            );
        }
        let ghost e2 = errors@;
        if contains_char(self.condition.as_str(), ';') {
            errors.push(
                ValidationError::new("condition", "Condition", "Lua snippets must not contain ;"),
            );
        }
        assert(errors@.map_values(|e: ValidationError| e@) =~= trigger_errors(
            self@,
            opt_view(lua_error),
        ));
        ValidationResult::from_errors(errors)
    }
}

/// A trigger model built the way `Trigger::new` builds one.
pub open spec fn trigger_model(
    name: Seq<char>,
    condition: Seq<char>,
    actions: Seq<Seq<char>>,
    active: bool,
    once: bool,
) -> TriggerModel {
    TriggerModel { active, once, condition, action: ActionsModel::Many(actions), name }
}

/// The triggers that every new campaign starts with.
pub open spec fn default_trigger_models() -> Seq<TriggerModel> {
    seq![
        trigger_model(
            "Campaign Briefing"@,
            "true"@,
            seq!["Action.Text(\"Welcome to your new campaign\")"@],
            true,
            true,
        ),
        trigger_model(
            "Campaign Victory"@,
            "GroundTarget[\"blue\"].percent < 40"@,
            seq![
                "Action.CampaignEnd(\"win\")"@,
                "Action.Text(\"After heavy losses the enemy is waving the white flag!\")"@,
            ],
            true,
            true,
        ),
        trigger_model(
            "Campaign Loss"@,
            "GroundTarget[\"red\"].percent < 20"@,
            seq![
                "Action.CampaignEnd(\"loss\")"@,
                "Action.Text(\"We have suffered heavy losses, its all over!\")"@,
            ],
            true,
            true,
        ),
        trigger_model(
            "Blue Ground Target Briefing Intel"@,
            "true"@,
            seq!["Action.AddGroundTargetIntel(\"blue\")"@],
            true,
            false,
        ),
        trigger_model(
            "Red Ground Target Briefing Intel"@,
            "true"@,
            seq!["Action.AddGroundTargetIntel(\"red\")"@],
            true,
            false,
        ),
        trigger_model(
            "Ground Unit Repair"@,
            "true"@,
            seq!["Action.GroundUnitRepair()"@],
            true,
            false,
        ),
        trigger_model("Air Unit Repair"@, "true"@, seq!["Action.AirUnitRepair()"@], true, false),
    ]
}

/// A trigger with a single action.
fn trigger_one(name: &str, condition: &str, action: &str, active: bool, once: bool) -> (t: Trigger)
    ensures
        t@ == trigger_model(name@, condition@, seq![action@], active, once),
{
    let mut list: Vec<String> = Vec::new();
    list.push(action.to_owned());
    assert(string_views(list@) =~= seq![action@]);
    Trigger {
        active,
        once,
        condition: condition.to_owned(),
        action: Actions::Many(list),
        _name: name.to_owned(),
    }
}

/// A trigger with two actions.
fn trigger_two(
    name: &str,
    condition: &str,
    first: &str,
    second: &str,
    active: bool,
    once: bool,
) -> (t: Trigger)
    ensures
        t@ == trigger_model(name@, condition@, seq![first@, second@], active, once),
{
    let mut list: Vec<String> = Vec::new();
    list.push(first.to_owned());
    list.push(second.to_owned());
    assert(string_views(list@) =~= seq![first@, second@]);
    Trigger {
        active,
        once,
        condition: condition.to_owned(),
        action: Actions::Many(list),
        _name: name.to_owned(),
    }
}

/// The triggers a new campaign starts with: a briefing, victory at under 40%
/// of blue ground targets left, loss at under 20% of red ones, target intel
/// for both sides and repairs of ground and air units.
pub fn default_triggers() -> (triggers: Triggers)
    ensures
        models_of(triggers.pairs()) == collect_pairs(keyed_models(default_trigger_models())),
{
    let mut flat: Vec<Trigger> = Vec::new();
    flat.push(
        trigger_one(
            "Campaign Briefing",
            "true",
            "Action.Text(\"Welcome to your new campaign\")",
            true,
            true,
        ),
    );
    flat.push(
        trigger_two(
            "Campaign Victory",
            "GroundTarget[\"blue\"].percent < 40",
            "Action.CampaignEnd(\"win\")",
            "Action.Text(\"After heavy losses the enemy is waving the white flag!\")",
            true,
            true,
        ),
    );
    flat.push(
        trigger_two(
            "Campaign Loss",
            "GroundTarget[\"red\"].percent < 20",
            "Action.CampaignEnd(\"loss\")",
            "Action.Text(\"We have suffered heavy losses, its all over!\")",
            true,
            true,
        ),
    );
    flat.push(
        trigger_one(
            "Blue Ground Target Briefing Intel",
            "true",
            "Action.AddGroundTargetIntel(\"blue\")",
            true,
            false,
        ),
    );
    flat.push(
        trigger_one(
            "Red Ground Target Briefing Intel",
            "true",
            "Action.AddGroundTargetIntel(\"red\")",
            true,
            false,
        ),
    );
    flat.push(trigger_one("Ground Unit Repair", "true", "Action.GroundUnitRepair()", true, false));
    flat.push(trigger_one("Air Unit Repair", "true", "Action.AirUnitRepair()", true, false));
    assert(trigger_models(flat@) =~= default_trigger_models());
    flat_to_triggers(&flat)
}

/// Among `names`, the last of those containing "New Action" whose UTF-8
/// length is greatest; `None` when no name contains "New Action".
pub open spec fn longest_new_action(names: Seq<Seq<char>>) -> Option<Seq<char>>
    decreases names.len(),
{
    if names.len() == 0 {
        None
    } else {
        let r = longest_new_action(names.drop_last());
        let x = names.last();
        if contains_spec(x, "New Action"@) {
            match r {
                None => Some(x),
                Some(b) => if utf8_len(x) >= utf8_len(b) {
                    Some(x)
                } else {
                    Some(b)
                },
            }
        } else {
            r
        }
    }
}

/// The name for a new trigger: "New Action", or, when some names already
/// contain it, the longest such name (the last one among equally long) with
/// "_1" added.
pub open spec fn new_trigger_name_spec(names: Seq<Seq<char>>) -> Seq<char> {
    match longest_new_action(names) {
        None => "New Action"@,
        Some(b) => b + "_1"@,
    }
}

/// The names of a list of triggers.
pub open spec fn trigger_names(s: Seq<Trigger>) -> Seq<Seq<char>> {
    s.map_values(|t: Trigger| t._name@)
}

/// The name to give a trigger added to `triggers`.
pub fn new_trigger_name(triggers: &Vec<Trigger>) -> (name: String)
    ensures
        name@ == new_trigger_name_spec(trigger_names(triggers@)),
{
    let mut best: Option<String> = None;
    let mut best_len: u128 = 0;
    let mut i: usize = 0;
    while i < triggers.len()
        invariant
            i <= triggers@.len(),
            opt_view(best) == longest_new_action(trigger_names(triggers@.take(i as int))),
            best matches Some(b) ==> best_len == utf8_len(b@),
        decreases triggers@.len() - i,
    {
        let name = triggers[i]._name.clone();
        proof {
            let ns = trigger_names(triggers@.take(i + 1));
            assert(ns.drop_last() =~= trigger_names(triggers@.take(i as int)));
            assert(ns.last() == name@);
        }
        if contains_str(name.as_str(), "New Action") {
            let len = byte_len(name.as_str());
            match best {
                None => {
                    best = Some(name);
                    best_len = len;
                },
                Some(_) => {
                    if len >= best_len {
                        best = Some(name);
                        best_len = len;
                    }
                },
            }
        }
        i = i + 1;
    }
    assert(triggers@.take(triggers@.len() as int) =~= triggers@);
    match best {
        None => "New Action".to_owned(),
        Some(b) => {
            let mut n = b;
            n.append("_1");
            n
        },
    }
}

/// Adds a new active, repeating trigger with condition "true" and one empty
/// action, named by `new_trigger_name`.
pub fn add_new_trigger(triggers: &mut Vec<Trigger>)
    ensures
        final(triggers)@.len() == old(triggers)@.len() + 1,
        final(triggers)@.drop_last() == old(triggers)@,
        final(triggers)@.last()@ == trigger_model(
            new_trigger_name_spec(trigger_names(old(triggers)@)),
            "true"@,
            seq![""@],
            true,
            false,
        ),
{
    let name = new_trigger_name(triggers);
    let t = trigger_one(name.as_str(), "true", "", true, false);
    triggers.push(t);
    assert(final(triggers)@.drop_last() =~= old(triggers)@);
}

/// Keyed triggers as keyed models.
pub open spec fn models_of(p: Seq<(Seq<char>, Trigger)>) -> Seq<(Seq<char>, TriggerModel)> {
    map_vals(p, |t: Trigger| t@)
}

/// The flat list that keyed trigger models give: each trigger takes its key as name.
pub open spec fn flatten_models(p: Seq<(Seq<char>, TriggerModel)>) -> Seq<TriggerModel> {
    p.map_values(|e: (Seq<char>, TriggerModel)| with_name(e.1, e.0))
}

/// Each trigger model keyed by its own name.
pub open spec fn keyed_models(s: Seq<TriggerModel>) -> Seq<(Seq<char>, TriggerModel)> {
    s.map_values(|t: TriggerModel| (t.name, t))
}

/// The models of a list of triggers.
pub open spec fn trigger_models(s: Seq<Trigger>) -> Seq<TriggerModel> {
    s.map_values(|t: Trigger| t@)
}

/// Lists the triggers of a keyed collection, each renamed to its key.
pub fn triggers_to_flat(triggers: &Triggers) -> (flat: TriggersFlat)
    ensures
        trigger_models(flat@) == flatten_models(models_of(triggers.pairs())),
{
    let entries = triggers.entries();
    let mut flat: Vec<Trigger> = Vec::new();
    let mut i: usize = 0;
    while i < entries.len()
        invariant
            i <= entries@.len(),
            entries@.len() == triggers.pairs().len(),
            forall|j: int|
                0 <= j < entries@.len() ==> (#[trigger] entries@[j]).0@ == triggers.pairs()[j].0
                    && entries@[j].1 == triggers.pairs()[j].1,
            trigger_models(flat@) == flatten_models(models_of(triggers.pairs().take(i as int))),
        decreases entries@.len() - i,
    {
        let ghost before = flat@;
        let mut t = entries[i].1.clone();
        t._name = entries[i].0.clone();
        flat.push(t);
        proof {
            let p = triggers.pairs();
            assert(p.take(i + 1) =~= p.take(i as int).push(p[i as int]));
            assert(models_of(p.take(i + 1)) =~= models_of(p.take(i as int)).push(
                (p[i as int].0, p[i as int].1@),
            ));
            assert(flatten_models(models_of(p.take(i + 1))) =~= flatten_models(
                models_of(p.take(i as int)),
            ).push(with_name(p[i as int].1@, p[i as int].0)));
            assert(trigger_models(flat@) =~= trigger_models(before).push(t@));
        }
        i = i + 1;
    }
    assert(triggers.pairs().take(entries@.len() as int) =~= triggers.pairs());
    flat
}

/// Keys a flat list of triggers by name; a later trigger with a name already
/// seen replaces the earlier one.
pub fn flat_to_triggers(flat: &TriggersFlat) -> (triggers: Triggers)
    ensures
        models_of(triggers.pairs()) == collect_pairs(keyed_models(trigger_models(flat@))),
{
    let mut triggers: Triggers = StrMap::new();
    let mut i: usize = 0;
    assert(models_of(triggers.pairs()) =~= collect_pairs(
        keyed_models(trigger_models(flat@.take(0))),
    ));
    while i < flat.len()
        invariant
            i <= flat@.len(),
            models_of(triggers.pairs()) == collect_pairs(
                keyed_models(trigger_models(flat@.take(i as int))),
            ),
        decreases flat@.len() - i,
    {
        let ghost before = triggers.pairs();
        let t = flat[i].clone();
        let k = flat[i]._name.clone();
        triggers.insert(k, t);
        proof {
            lemma_assoc_insert_map_vals(before, flat@[i as int]._name@, t, |t: Trigger| t@);
            let s = keyed_models(trigger_models(flat@.take(i + 1)));
            assert(s.drop_last() =~= keyed_models(trigger_models(flat@.take(i as int))));
            assert(s.last() == (flat@[i as int]._name@, flat@[i as int]@));
        }
        i = i + 1;
    }
    assert(flat@.take(flat@.len() as int) =~= flat@);
    triggers
}

/// Keyed trigger models, each renamed to its key.
pub open spec fn renamed(p: Seq<(Seq<char>, TriggerModel)>) -> Seq<(Seq<char>, TriggerModel)> {
    p.map_values(|e: (Seq<char>, TriggerModel)| (e.0, with_name(e.1, e.0)))
}

/// Flattening triggers kept by name and keying the list again gives back the
/// same names in the same order, each trigger carrying its key as its name.
pub proof fn lemma_flatten_then_key(p: Seq<(Seq<char>, TriggerModel)>)
    requires
        keys_distinct(p),
    ensures
        collect_pairs(keyed_models(flatten_models(p))) == renamed(p),
{
    assert(keyed_models(flatten_models(p)) =~= renamed(p));
    assert(keys_distinct(renamed(p))) by {
        assert forall|i: int, j: int|
            0 <= i < renamed(p).len() && 0 <= j < renamed(p).len() && i != j implies renamed(
            p,
        )[i].0 != renamed(p)[j].0 by {
            assert(renamed(p)[i].0 == p[i].0);
            assert(renamed(p)[j].0 == p[j].0);
        }
    }
    lemma_collect_distinct(renamed(p));
}

/// Keying a list of triggers whose names are all different and flattening it
/// again gives back the same list.
pub proof fn lemma_key_then_flatten(s: Seq<TriggerModel>)
    requires
        keys_distinct(keyed_models(s)),
    ensures
        flatten_models(collect_pairs(keyed_models(s))) == s,
{
    lemma_collect_distinct(keyed_models(s));
    assert(flatten_models(keyed_models(s)) =~= s);
}

/// Law: turning keyed triggers into the flat list and back keeps every key and
/// its trigger, the trigger now named after its key.
pub proof fn law_flat_round_trip(triggers: Triggers, flat: TriggersFlat, back: Triggers)
    requires
        keys_distinct(triggers.pairs()),
        trigger_models(flat@) == flatten_models(models_of(triggers.pairs())),
        models_of(back.pairs()) == collect_pairs(keyed_models(trigger_models(flat@))),
    ensures
        models_of(back.pairs()) == renamed(models_of(triggers.pairs())),
{
    assert(keys_of(models_of(triggers.pairs())) =~= keys_of(triggers.pairs()));
    lemma_flatten_then_key(models_of(triggers.pairs()));
}

/// Law: keying a flat list of triggers with all-different names and listing
/// them again gives back the list unchanged.
pub proof fn law_keyed_round_trip(flat: TriggersFlat, keyed: Triggers, back: TriggersFlat)
    requires
        keys_distinct(keyed_models(trigger_models(flat@))),
        models_of(keyed.pairs()) == collect_pairs(keyed_models(trigger_models(flat@))),
        trigger_models(back@) == flatten_models(models_of(keyed.pairs())),
    ensures
        trigger_models(back@) == trigger_models(flat@),
{
    lemma_key_then_flatten(trigger_models(flat@));
}

} // verus!
