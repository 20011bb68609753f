//! Squadrons read off the mission: each plane or helicopter group named
//! `<SQUADRON>_...` belongs to the squadron of that name; its units, named
//! `<SQUADRON>_<TASK>_...`, give the squadron its liveries and tasks.
use vstd::prelude::*;
use vstd::string::*;
use crate::oob::{LiveryEnum, LiveryModel, Squadron, SquadronModel, squadron_models};
use crate::strmap::{assoc_insert, StrMap};
use crate::task::{UnsupportedTask, str_to_task, task_dce_name, task_of_lower};
use crate::text::{lemma_split_nonempty, list_contains, lowercase_of, split_on, split_spec, str_eq, views};
use crate::trigger::string_views;

verus! {

/// A unit of a plane or helicopter group: its name, airframe type, skill and
/// livery.
#[derive(Debug, Clone, PartialEq)]
pub struct PlaneUnitRef {
    pub name: String,
    pub airframe: String,
    pub skill: String,
    pub livery: String,
}

/// A plane or helicopter group: its name, the name of its country and its
/// units.
#[derive(Debug, Clone, PartialEq)]
pub struct PlaneGroupRef {
    pub name: String,
    pub country: String,
    pub units: Vec<PlaneUnitRef>,
}

/// The task piece of a unit name: the second piece between underscores.
pub open spec fn unit_task_piece(u: PlaneUnitRef) -> Seq<char> {
    split_spec(u.name@, '_')[1]
}

/// The task a unit's name gives, if it names one, in any letter case.
pub open spec fn unit_task(u: PlaneUnitRef) -> Option<crate::task::Task> {
    task_of_lower(lowercase_of(unit_task_piece(u)))
}

/// The squadron a group belongs to: the first piece of its name.
pub open spec fn group_squadron(g: PlaneGroupRef) -> Seq<char> {
    split_spec(g.name@, '_')[0]
}

/// Groups can be read: each has a unit, and each unit's name has a task piece.
pub open spec fn groups_ok(gs: Seq<PlaneGroupRef>) -> bool {
    forall|i: int|
        0 <= i < gs.len() ==> (#[trigger] gs[i]).units@.len() > 0 && forall|j: int|
            0 <= j < gs[i].units@.len() ==> split_spec(#[trigger] gs[i].units@[j].name@, '_').len()
                >= 2
}

/// Every unit of the groups names a known task.
pub open spec fn tasks_known(gs: Seq<PlaneGroupRef>) -> bool {
    forall|i: int, j: int|
        0 <= i < gs.len() && 0 <= j < gs[i].units@.len() ==> unit_task(#[trigger] gs[i].units@[j])
            is Some
}

/// A livery added to a list of liveries, unless already in it.
pub open spec fn add_livery(l: LiveryModel, x: Seq<char>) -> LiveryModel {
    match l {
        LiveryModel::Many(v) => if v.contains(x) {
            l
        } else {
            LiveryModel::Many(v.push(x))
        },
        LiveryModel::One(_) => l,
    }
}

/// A squadron after taking in unit `u`: its livery, and its task, enabled.
pub open spec fn add_unit(m: SquadronModel, u: PlaneUnitRef) -> SquadronModel {
    SquadronModel {
        livery: add_livery(m.livery, u.livery@),
        tasks: assoc_insert(m.tasks, task_dce_name(unit_task(u)->0), true),
        ..m
    }
}

/// A squadron after taking in units `us` in order.
pub open spec fn add_units(m: SquadronModel, us: Seq<PlaneUnitRef>) -> SquadronModel
    decreases us.len(),
{
    if us.len() == 0 {
        m
    } else {
        add_unit(add_units(m, us.drop_last()), us.last())
    }
}

/// A new squadron named `name` for group `g`, based at `base`: the airframe
/// and skill of the group's first unit, the group's country, no liveries or
/// tasks yet, 12 aircraft and 6 in reserve.
pub open spec fn new_squadron(name: Seq<char>, g: PlaneGroupRef, base: Seq<char>) -> SquadronModel {
    SquadronModel {
        name,
        inactive: false,
        player: false,
        airframe: g.units@[0].airframe@,
        country: g.country@,
        livery: LiveryModel::Many(Seq::empty()),
        base,
        skill: g.units@[0].skill@,
        tasks: Seq::empty(),
        number: 12,
        reserve: 6,
    }
}

/// Some squadron of `s` is called `name`.
pub open spec fn has_squadron(s: Seq<SquadronModel>, name: Seq<char>) -> bool {
    exists|i: int| 0 <= i < s.len() && s[i].name == name
}

/// The squadrons after reading group `g`: its units go to the squadron its
/// name gives, which is added at the end if new.
pub open spec fn group_step(s: Seq<SquadronModel>, g: PlaneGroupRef, base: Seq<char>) -> Seq<SquadronModel> {
    let key = group_squadron(g);
    if has_squadron(s, key) {
        let i = choose|i: int| 0 <= i < s.len() && s[i].name == key;
        s.update(i, add_units(s[i], g.units@))
    } else {
        s.push(add_units(new_squadron(key, g, base), g.units@))
    }
}

/// The squadrons that groups `gs` give, in the order each squadron first
/// appears.
pub open spec fn squadrons_of(gs: Seq<PlaneGroupRef>, base: Seq<char>) -> Seq<SquadronModel>
    decreases gs.len(),
{
    if gs.len() == 0 {
        Seq::empty()
    } else {
        group_step(squadrons_of(gs.drop_last(), base), gs.last(), base)
    }
}

/// No two squadrons share a name.
pub open spec fn names_distinct(s: Seq<SquadronModel>) -> bool {
    forall|i: int, j: int| 0 <= i < s.len() && 0 <= j < s.len() && i != j ==> s[i].name != s[j].name
}

/// Unit `j` of group `i` is the first unit, groups in order and units in
/// order, whose task is unknown.
pub open spec fn first_unknown_task(gs: Seq<PlaneGroupRef>, i: int, j: int) -> bool {
    &&& 0 <= i < gs.len()
    &&& 0 <= j < gs[i].units@.len()
    &&& unit_task(gs[i].units@[j]) is None
    &&& forall|a: int, b: int|
        0 <= a < gs.len() && 0 <= b < gs[a].units@.len() && (a < i || (a == i && b < j))
            ==> unit_task(#[trigger] gs[a].units@[b]) is Some
}

/// A squadron after taking in one unit; fails on an unknown task.
fn take_unit(sq: Squadron, u: &PlaneUnitRef) -> (res: Result<Squadron, UnsupportedTask>)
    requires
        split_spec(u.name@, '_').len() >= 2,
    ensures
        match res {
            Ok(s) => unit_task(*u) is Some && s@ == add_unit(sq@, *u),
            Err(e) => unit_task(*u) is None && e.task@ == unit_task_piece(*u),
        },
{
    let parts = split_on(u.name.as_str(), '_');
    proof {
        assert(views(parts@)[1] == parts@[1]@);
    }
    let task = match str_to_task(parts[1].as_str()) {
        Ok(t) => t,
        Err(e) => {
            return Err(e);
        },
    };
    let Squadron {
        name,
        inactive,
        player,
        _type,
        country,
        livery,
        base,
        skill,
        mut tasks,
        number,
        reserve,
    } = sq;
    let ghost old_livery = livery@;
    let livery = match livery {
        LiveryEnum::Many(mut v) => {
            let ghost before = v@;
            assert(string_views(before) =~= views(before));
            if !list_contains(&v, u.livery.as_str()) {
                v.push(u.livery.clone());
                assert(string_views(v@) =~= string_views(before).push(u.livery@));
            }
            LiveryEnum::Many(v)
        },
        other => other,
    };
    assert(livery@ == add_livery(old_livery, u.livery@));
    tasks.insert(task, true);
    Ok(
        Squadron {
            name,
            inactive,
            player,
            _type,
            country,
            livery,
            base,
            skill,
            tasks,
            number,
            reserve,
        },
    )
}

/// The index of the squadron called `name`, if any.
fn find_squadron(v: &Vec<Squadron>, name: &str) -> (res: Option<usize>)
    ensures
        match res {
            Some(i) => i < v@.len() && v@[i as int].name@ == name@,
            None => !has_squadron(squadron_models(v@), name@),
        },
{
    let mut i: usize = 0;
    while i < v.len()
        invariant
            i <= v@.len(),
            forall|k: int| 0 <= k < i ==> v@[k].name@ != name@,
        decreases v@.len() - i,
    {
        if str_eq(v[i].name.as_str(), name) {
            return Some(i);
        }
        i = i + 1;
    }
    assert(!has_squadron(squadron_models(v@), name@)) by {
        if has_squadron(squadron_models(v@), name@) {
            let k = choose|k: int|
                0 <= k < squadron_models(v@).len() && squadron_models(v@)[k].name == name@;
            assert(v@[k].name@ == name@);
        }
    }
    None
}

/// A squadron after taking in units `us` in order; fails on the first unit
/// whose task is unknown.
fn take_units(sq: Squadron, us: &Vec<PlaneUnitRef>) -> (res: Result<Squadron, UnsupportedTask>)
    requires
        forall|j: int| 0 <= j < us@.len() ==> split_spec(#[trigger] us@[j].name@, '_').len() >= 2,
    ensures
        match res {
            Ok(s) => (forall|j: int| 0 <= j < us@.len() ==> unit_task(#[trigger] us@[j]) is Some)
                && s@ == add_units(sq@, us@),
            Err(e) => exists|j: int|
                0 <= j < us@.len() && unit_task(#[trigger] us@[j]) is None && e.task@
                    == unit_task_piece(us@[j]) && forall|b: int|
                    0 <= b < j ==> unit_task(#[trigger] us@[b]) is Some,
        },
{
    let ghost start = sq@;
    let mut sq = sq;
    let mut j: usize = 0;
    while j < us.len()
        invariant
            j <= us@.len(),
            forall|k: int| 0 <= k < us@.len() ==> split_spec(#[trigger] us@[k].name@, '_').len() >= 2,
            forall|k: int| 0 <= k < j ==> unit_task(#[trigger] us@[k]) is Some,
            sq@ == add_units(start, us@.take(j as int)),
        decreases us@.len() - j,
    {
        assert(split_spec(us@[j as int].name@, '_').len() >= 2);
        match take_unit(sq, &us[j]) {
            Ok(s) => {
                sq = s;
            },
            Err(e) => {
                return Err(e);
            },
        }
        assert(us@.take(j as int + 1).drop_last() =~= us@.take(j as int));
        j = j + 1;
    }
    assert(us@.take(us@.len() as int) =~= us@);
    Ok(sq)
}

/// Taking in units keeps a squadron's name.
proof fn lemma_add_units_name(m: SquadronModel, us: Seq<PlaneUnitRef>)
    ensures
        add_units(m, us).name == m.name,
    decreases us.len(),
{
    if us.len() > 0 {
        lemma_add_units_name(m, us.drop_last());
    }
}

/// Reads one group into the squadrons; fails on its first unit whose task
/// is unknown.
fn apply_group(squadrons: &mut Vec<Squadron>, g: &PlaneGroupRef, base: &str) -> (res: Result<
    (),
    UnsupportedTask,
>)
    requires
        names_distinct(squadron_models(old(squadrons)@)),
        g.units@.len() > 0,
        forall|j: int| 0 <= j < g.units@.len() ==> split_spec(#[trigger] g.units@[j].name@, '_').len() >= 2,
    ensures
        match res {
            Ok(_) => (forall|j: int| 0 <= j < g.units@.len() ==> unit_task(#[trigger] g.units@[j]) is Some)
                && squadron_models(final(squadrons)@) == group_step(
                squadron_models(old(squadrons)@),
                *g,
                base@,
            ) && names_distinct(squadron_models(final(squadrons)@)),
            Err(e) => exists|j: int|
                0 <= j < g.units@.len() && unit_task(#[trigger] g.units@[j]) is None && e.task@
                    == unit_task_piece(g.units@[j]) && forall|b: int|
                    0 <= b < j ==> unit_task(#[trigger] g.units@[b]) is Some,
        },
{
    let ghost before = squadron_models(squadrons@);
    let parts = split_on(g.name.as_str(), '_');
    proof {
        lemma_split_nonempty(g.name@, '_');
        assert(views(parts@)[0] == parts@[0]@);
    }
    let key = parts[0].clone();
    let found = find_squadron(squadrons, key.as_str());
    let start = match found {
        Some(k) => squadrons[k].clone(),
        None => {
            let t = StrMap::new();
            let liveries: Vec<String> = Vec::new();
            assert(string_views(liveries@) =~= Seq::<Seq<char>>::empty());
            let s = Squadron {
                name: key.clone(),
                inactive: false,
                player: false,
                _type: g.units[0].airframe.clone(),
                country: g.country.clone(),
                livery: LiveryEnum::Many(liveries),
                base: base.to_owned(),
                skill: g.units[0].skill.clone(),
                tasks: t,
                number: 12,
                reserve: 6,
            };
            assert(s@ == new_squadron(key@, *g, base@));
            s
        },
    };
    let ghost start_model = start@;
    let sq = match take_units(start, &g.units) {
        Ok(s) => s,
        Err(e) => {
            return Err(e);
        },
    };
    let ghost added = sq@;
    proof {
        lemma_add_units_name(start_model, g.units@);
    }
    match found {
        Some(k) => {
            squadrons.set(k, sq);
            proof {
                let key_v = group_squadron(*g);
                assert(before[k as int].name == key_v);
                assert(has_squadron(before, key_v));
                let c = choose|c: int| 0 <= c < before.len() && before[c].name == key_v;
                assert(c == k);
                assert(squadron_models(squadrons@) =~= before.update(k as int, added));
            }
        },
        None => {
            squadrons.push(sq);
            proof {
                assert(squadron_models(squadrons@) =~= before.push(added));
                assert forall|a: int| 0 <= a < before.len() implies before[a].name != added.name by {
                    if before[a].name == added.name {
                        assert(has_squadron(before, key@));
                    }
                }
            }
        },
    }
    Ok(())
}

/// The squadrons of one side: its plane groups then its helicopter groups,
/// in order, each squadron based at `base`. Fails on the first unit, groups
/// in order and units in order, whose name names no known task.
pub fn side_to_squadrons(groups: &Vec<PlaneGroupRef>, base: &str) -> (res: Result<
    Vec<Squadron>,
    UnsupportedTask,
>)
    requires
        groups_ok(groups@),
    ensures
        match res {
            Ok(v) => tasks_known(groups@) && squadron_models(v@) == squadrons_of(groups@, base@),
            Err(e) => exists|i: int, j: int|
                first_unknown_task(groups@, i, j) && e.task@ == unit_task_piece(
                    groups@[i].units@[j],
                ),
        },
{
    let mut squadrons: Vec<Squadron> = Vec::new();
    let mut i: usize = 0;
    assert(squadron_models(squadrons@) =~= Seq::<SquadronModel>::empty());
    while i < groups.len()
        invariant
            i <= groups@.len(),
            groups_ok(groups@),
            forall|a: int, b: int|
                0 <= a < i && 0 <= b < groups@[a].units@.len() ==> unit_task(
                    #[trigger] groups@[a].units@[b],
                ) is Some,
            squadron_models(squadrons@) == squadrons_of(groups@.take(i as int), base@),
            names_distinct(squadron_models(squadrons@)),
        decreases groups@.len() - i,
    {
        let g = &groups[i];
        proof {
            assert(groups@[i as int].units@.len() > 0);
            assert forall|j: int| 0 <= j < g.units@.len() implies split_spec(
                #[trigger] g.units@[j].name@,
                '_',
            ).len() >= 2 by {
                assert(groups@[i as int].units@[j] == g.units@[j]);
            }
        }
        match apply_group(&mut squadrons, g, base) {
            Ok(_) => {},
            Err(e) => {
                proof {
                    let j = choose|j: int|
                        0 <= j < g.units@.len() && unit_task(#[trigger] g.units@[j]) is None
                            && e.task@ == unit_task_piece(g.units@[j]) && forall|b: int|
                            0 <= b < j ==> unit_task(#[trigger] g.units@[b]) is Some;
                    assert(first_unknown_task(groups@, i as int, j));
                }
                return Err(e);
            },
        }
        proof {
            assert(groups@.take(i as int + 1).drop_last() =~= groups@.take(i as int));
            assert(groups@.take(i as int + 1).last() == groups@[i as int]);
        }
        i = i + 1;
    }
    assert(groups@.take(groups@.len() as int) =~= groups@);
    Ok(squadrons)
}


/// The squadron flies task `name`: its tasks hold that task, enabled.
pub open spec fn has_task(m: SquadronModel, name: Seq<char>) -> bool {
    exists|j: int| 0 <= j < m.tasks.len() && m.tasks[j] == (name, true)
}

/// Setting a task keeps every enabled task and enables the one set.
proof fn lemma_assoc_insert_tasks(p: Seq<(Seq<char>, bool)>, k: Seq<char>, other: Seq<char>)
    ensures
        exists|j: int| 0 <= j < assoc_insert(p, k, true).len() && assoc_insert(p, k, true)[j] == (k, true),
        (exists|j: int| 0 <= j < p.len() && p[j] == (other, true)) ==> exists|j: int|
            0 <= j < assoc_insert(p, k, true).len() && assoc_insert(p, k, true)[j] == (other, true),
{
    let q = assoc_insert(p, k, true);
    let ks = crate::strmap::keys_of(p);
    if ks.contains(k) {
        let i = ks.index_of(k);
        assert(q[i] == (k, true));
        if exists|j: int| 0 <= j < p.len() && p[j] == (other, true) {
            let j = choose|j: int| 0 <= j < p.len() && p[j] == (other, true);
            if j == i {
                assert(ks[i] == k);
                assert(p[j].0 == other);
                assert(q[j] == (other, true));
            } else {
                assert(q[j] == p[j]);
            }
        }
    } else {
        assert(q[p.len() as int] == (k, true));
        if exists|j: int| 0 <= j < p.len() && p[j] == (other, true) {
            let j = choose|j: int| 0 <= j < p.len() && p[j] == (other, true);
            assert(q[j] == p[j]);
        }
    }
}

/// Taking in units keeps the squadron's tasks and adds each unit's task.
proof fn lemma_add_units_tasks(m: SquadronModel, us: Seq<PlaneUnitRef>, name: Seq<char>)
    requires
        forall|j: int| 0 <= j < us.len() ==> unit_task(#[trigger] us[j]) is Some,
    ensures
        has_task(m, name) ==> has_task(add_units(m, us), name),
        (exists|j: int|
            0 <= j < us.len() && task_dce_name(unit_task(#[trigger] us[j])->0) == name) ==> has_task(
            add_units(m, us),
            name,
        ),
    decreases us.len(),
{
    if us.len() > 0 {
        let q = us.drop_last();
        assert forall|j: int| 0 <= j < q.len() implies unit_task(#[trigger] q[j]) is Some by {
            assert(q[j] == us[j]);
        }
        lemma_add_units_tasks(m, q, name);
        let prev = add_units(m, q);
        let u = us.last();
        let k = task_dce_name(unit_task(u)->0);
        assert(add_units(m, us) == add_unit(prev, u));
        assert(add_units(m, us).tasks == assoc_insert(prev.tasks, k, true));
        lemma_assoc_insert_tasks(prev.tasks, k, name);
        if has_task(prev, name) {
            assert(exists|j: int| 0 <= j < prev.tasks.len() && prev.tasks[j] == (name, true));
        }
        if exists|j: int| 0 <= j < us.len() && task_dce_name(unit_task(#[trigger] us[j])->0) == name {
            let j = choose|j: int|
                0 <= j < us.len() && task_dce_name(unit_task(#[trigger] us[j])->0) == name;
            if j < us.len() - 1 {
                assert(q[j] == us[j]);
                assert(exists|j2: int|
                    0 <= j2 < q.len() && task_dce_name(unit_task(#[trigger] q[j2])->0) == name);
            } else {
                assert(k == name);
            }
        }
    }
}

/// The squadrons of the groups with a squadron called `key` flying `name`.
pub open spec fn flies(s: Seq<SquadronModel>, key: Seq<char>, name: Seq<char>) -> bool {
    exists|k: int| 0 <= k < s.len() && s[k].name == key && has_task(s[k], name)
}

/// Reading one more group keeps every squadron flying its tasks.
proof fn lemma_group_step_keeps(s: Seq<SquadronModel>, g: PlaneGroupRef, base: Seq<char>, key: Seq<char>, name: Seq<char>)
    requires
        flies(s, key, name),
        forall|j: int| 0 <= j < g.units@.len() ==> unit_task(#[trigger] g.units@[j]) is Some,
    ensures
        flies(group_step(s, g, base), key, name),
{
    let k = choose|k: int| 0 <= k < s.len() && s[k].name == key && has_task(s[k], name);
    let gk = group_squadron(g);
    if has_squadron(s, gk) {
        let i = choose|i: int| 0 <= i < s.len() && s[i].name == gk;
        if i == k {
            lemma_add_units_tasks(s[i], g.units@, name);
            lemma_add_units_name(s[i], g.units@);
            assert(group_step(s, g, base)[k].name == key);
        } else {
            assert(group_step(s, g, base)[k] == s[k]);
        }
    } else {
        assert(group_step(s, g, base)[k] == s[k]);
    }
}

/// Reading a group makes its squadron fly the task of each of its units.
proof fn lemma_group_step_adds(s: Seq<SquadronModel>, g: PlaneGroupRef, base: Seq<char>, j: int)
    requires
        0 <= j < g.units@.len(),
        forall|a: int| 0 <= a < g.units@.len() ==> unit_task(#[trigger] g.units@[a]) is Some,
    ensures
        flies(
            group_step(s, g, base),
            group_squadron(g),
            task_dce_name(unit_task(g.units@[j])->0),
        ),
{
    let gk = group_squadron(g);
    let name = task_dce_name(unit_task(g.units@[j])->0);
    assert(task_dce_name(unit_task(g.units@[j])->0) == name);
    if has_squadron(s, gk) {
        let i = choose|i: int| 0 <= i < s.len() && s[i].name == gk;
        lemma_add_units_tasks(s[i], g.units@, name);
        lemma_add_units_name(s[i], g.units@);
        assert(group_step(s, g, base)[i].name == gk);
    } else {
        let n = new_squadron(gk, g, base);
        lemma_add_units_tasks(n, g.units@, name);
        lemma_add_units_name(n, g.units@);
        assert(group_step(s, g, base)[s.len() as int].name == gk);
    }
}

/// Each unit's task is a task of its squadron: for every group and every
/// unit of it, the squadron the group's name gives flies the task the unit's
/// name gives.
pub proof fn law_unit_tasks_reach_squadron(gs: Seq<PlaneGroupRef>, base: Seq<char>, i: int, j: int)
    requires
        tasks_known(gs),
        0 <= i < gs.len(),
        0 <= j < gs[i].units@.len(),
    ensures
        flies(
            squadrons_of(gs, base),
            group_squadron(gs[i]),
            task_dce_name(unit_task(gs[i].units@[j])->0),
        ),
    decreases gs.len(),
{
    let prev = squadrons_of(gs.drop_last(), base);
    let g = gs.last();
    assert forall|a: int| 0 <= a < g.units@.len() implies unit_task(#[trigger] g.units@[a]) is Some by {
        assert(unit_task(gs[gs.len() - 1].units@[a]) is Some);
    }
    if i < gs.len() - 1 {
        let q = gs.drop_last();
        assert forall|a: int, b: int|
            0 <= a < q.len() && 0 <= b < q[a].units@.len() implies unit_task(
            #[trigger] q[a].units@[b],
        ) is Some by {
            assert(q[a] == gs[a]);
            assert(unit_task(gs[a].units@[b]) is Some);
        }
        assert(q[i] == gs[i]);
        law_unit_tasks_reach_squadron(q, base, i, j);
        lemma_group_step_keeps(
            prev,
            g,
            base,
            group_squadron(gs[i]),
            task_dce_name(unit_task(gs[i].units@[j])->0),
        );
    } else {
        lemma_group_step_adds(prev, g, base, j);
    }
}

} // verus!
