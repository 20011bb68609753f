//! FARPs from trigger zones: zones named `<SIDE>_FARP_<NAME>_<N>` become
//! invisible heliports, the zones of one name (one after another in the
//! mission) making one static group. Groups and units get fresh ids, each
//! group a callsign and a radio frequency of its own.
use vstd::prelude::*;
use vstd::string::*;
use crate::target_list::MissionZone;
use crate::text::{
    contains_spec, contains_str, split_on, split_spec, starts_with_spec, starts_with_str, str_eq,
    views,
};

verus! {

/// The largest id of a list, or 0 for an empty list.
pub open spec fn max_of(ids: Seq<u64>) -> u64
    decreases ids.len(),
{
    if ids.len() == 0 {
        0
    } else {
        let m = max_of(ids.drop_last());
        if ids.last() > m {
            ids.last()
        } else {
            m
        }
    }
}

/// The largest of the ids, 0 when there are none: the highest unit or group
/// id in use in a mission.
pub fn max_id(ids: &Vec<u64>) -> (m: u64)
    ensures
        m == max_of(ids@),
        forall|i: int| 0 <= i < ids@.len() ==> ids@[i] <= m,
        ids@.len() == 0 ==> m == 0,
        ids@.len() > 0 ==> ids@.contains(m),
{
    let mut m: u64 = 0;
    let mut i: usize = 0;
    while i < ids.len()
        invariant
            i <= ids@.len(),
            m == max_of(ids@.take(i as int)),
            forall|j: int| 0 <= j < i ==> ids@[j] <= m,
            i == 0 ==> m == 0,
            i > 0 ==> ids@.take(i as int).contains(m),
        decreases ids@.len() - i,
    {
        assert(ids@.take(i as int + 1).drop_last() =~= ids@.take(i as int));
        if ids[i] > m {
            m = ids[i];
            assert(ids@.take(i as int + 1)[i as int] == m);
        } else {
            proof {
                if i > 0 {
                    let k = choose|k: int| 0 <= k < i && ids@.take(i as int)[k] == m;
                    assert(ids@.take(i as int + 1)[k] == m);
                } else {
                    assert(ids@.take(1)[0] == m);
                }
            }
        }
        i = i + 1;
    }
    assert(ids@.take(ids@.len() as int) =~= ids@);
    m
}

/// A heliport unit of a new FARP group; `F` holds its position.
#[derive(Debug, Clone, PartialEq)]
pub struct FarpUnit<F> {
    pub name: String,
    pub unit_id: u64,
    pub x: F,
    pub y: F,
}

/// A new FARP static group: its name, ids, position (that of its first zone),
/// callsign id, its place among the new groups (the `freq_index`-th group
/// takes the base frequency raised `freq_index` times by 0.2 MHz), whether it
/// goes to the blue side, and its units.
#[derive(Debug)]
pub struct FarpGroup<F> {
    pub name: String,
    pub group_id: u64,
    pub x: F,
    pub y: F,
    pub callsign_id: u64,
    pub freq_index: u64,
    pub blue: bool,
    pub units: Vec<FarpUnit<F>>,
}

/// A FARP unit with its name as a character sequence.
pub struct FarpUnitModel<F> {
    pub name: Seq<char>,
    pub unit_id: u64,
    pub x: F,
    pub y: F,
}

/// A FARP group as a model.
pub struct FarpGroupModel<F> {
    pub name: Seq<char>,
    pub group_id: u64,
    pub x: F,
    pub y: F,
    pub callsign_id: u64,
    pub freq_index: u64,
    pub blue: bool,
    pub units: Seq<FarpUnitModel<F>>,
}

impl<F> View for FarpUnit<F> {
    type V = FarpUnitModel<F>;

    open spec fn view(&self) -> FarpUnitModel<F> {
        FarpUnitModel { name: self.name@, unit_id: self.unit_id, x: self.x, y: self.y }
    }
}

impl<F> View for FarpGroup<F> {
    type V = FarpGroupModel<F>;

    open spec fn view(&self) -> FarpGroupModel<F> {
        FarpGroupModel {
            name: self.name@,
            group_id: self.group_id,
            x: self.x,
            y: self.y,
            callsign_id: self.callsign_id,
            freq_index: self.freq_index,
            blue: self.blue,
            units: self.units@.map_values(|u: FarpUnit<F>| u@),
        }
    }
}

/// A zone is a FARP zone when its name holds "_FARP_".
pub open spec fn is_farp_zone(name: Seq<char>) -> bool {
    contains_spec(name, "_FARP_"@)
}

/// The FARP a zone belongs to: the third piece of its name.
pub open spec fn farp_key(name: Seq<char>) -> Seq<char> {
    split_spec(name, '_')[2]
}

/// The number of FARP zones among `zs`.
pub open spec fn farp_count<F>(zs: Seq<MissionZone<F>>) -> nat
    decreases zs.len(),
{
    if zs.len() == 0 {
        0
    } else {
        farp_count(zs.drop_last()) + if is_farp_zone(zs.last().name@) {
            1nat
        } else {
            0nat
        }
    }
}

/// The FARP groups that zones `zs` give, with unit ids from `u0` and group ids
/// from `g0`: the FARP zones in order, each run of zones with the same key
/// making one group named by that key; the n-th FARP zone is unit `u0 + n`,
/// the k-th group has id `g0 + k`, callsign `k + 1` and frequency index `k`,
/// and goes to blue when its first zone's name starts with "BLUE".
pub open spec fn farp_plan<F>(zs: Seq<MissionZone<F>>, u0: u64, g0: u64) -> Seq<FarpGroupModel<F>>
    decreases zs.len(),
{
    if zs.len() == 0 {
        Seq::empty()
    } else {
        let prev = farp_plan(zs.drop_last(), u0, g0);
        let z = zs.last();
        if !is_farp_zone(z.name@) {
            prev
        } else {
            let unit = FarpUnitModel {
                name: z.name@,
                unit_id: (u0 + farp_count(zs.drop_last())) as u64,
                x: z.x,
                y: z.y,
            };
            let key = farp_key(z.name@);
            if prev.len() > 0 && prev.last().name == key {
                prev.update(
                    prev.len() - 1,
                    FarpGroupModel { units: prev.last().units.push(unit), ..prev.last() },
                )
            } else {
                prev.push(
                    FarpGroupModel {
                        name: key,
                        group_id: (g0 + prev.len()) as u64,
                        x: z.x,
                        y: z.y,
                        callsign_id: (prev.len() + 1) as u64,
                        freq_index: prev.len() as u64,
                        blue: starts_with_spec(z.name@, "BLUE"@),
                        units: seq![unit],
                    },
                )
            }
        }
    }
}

/// There are no more groups than FARP zones.
proof fn lemma_plan_len<F>(zs: Seq<MissionZone<F>>, u0: u64, g0: u64)
    ensures
        farp_plan(zs, u0, g0).len() <= farp_count(zs),
        farp_count(zs) <= zs.len(),
    decreases zs.len(),
{
    if zs.len() > 0 {
        lemma_plan_len(zs.drop_last(), u0, g0);
    }
}

/// The model of a list of groups.
pub open spec fn group_models<F>(v: Seq<FarpGroup<F>>) -> Seq<FarpGroupModel<F>> {
    v.map_values(|g: FarpGroup<F>| g@)
}

/// The new FARP groups for the zones of a mission, unit ids counting up from
/// `next_unit_id` and group ids from `next_group_id`.
pub fn plan_farps<F: Copy>(zones: &Vec<MissionZone<F>>, next_unit_id: u64, next_group_id: u64) -> (res:
    Vec<FarpGroup<F>>)
    requires
        next_unit_id + zones@.len() <= u64::MAX,
        next_group_id + zones@.len() <= u64::MAX,
    ensures
        group_models(res@) == farp_plan(zones@, next_unit_id, next_group_id),
{
    let mut groups: Vec<FarpGroup<F>> = Vec::new();
    let mut unit_id = next_unit_id;
    let mut i: usize = 0;
    while i < zones.len()
        invariant
            i <= zones@.len(),
            next_unit_id + zones@.len() <= u64::MAX,
            next_group_id + zones@.len() <= u64::MAX,
            unit_id == next_unit_id + farp_count(zones@.take(i as int)),
            group_models(groups@) == farp_plan(zones@.take(i as int), next_unit_id, next_group_id),
        decreases zones@.len() - i,
    {
        let z = &zones[i];
        let ghost t = zones@.take(i as int + 1);
        proof {
            assert(t.drop_last() =~= zones@.take(i as int));
            assert(t.last() == zones@[i as int]);
            lemma_plan_len(zones@.take(i as int), next_unit_id, next_group_id);
            lemma_plan_len(t, next_unit_id, next_group_id);
        }
        if contains_str(z.name.as_str(), "_FARP_") {
            let parts = split_on(z.name.as_str(), '_');
            proof {
                lemma_farp_name_pieces(z.name@);
                assert(views(parts@)[2] == parts@[2]@);
            }
            let key = parts[2].clone();
            let unit = FarpUnit { name: z.name.clone(), unit_id, x: z.x, y: z.y };
            let n = groups.len();
            let same = n > 0 && str_eq(groups[n - 1].name.as_str(), key.as_str());
            if same {
                let ghost before = group_models(groups@);
                let mut last = groups.pop().unwrap();
                let ghost lm = last@;
                assert(lm == before.last());
                last.units.push(unit);
                assert(last.units@.map_values(|u: FarpUnit<F>| u@) =~= lm.units.push(unit@));
                groups.push(last);
                assert(group_models(groups@) =~= before.update(
                    before.len() - 1,
                    FarpGroupModel { units: lm.units.push(unit@), ..lm },
                ));
            } else {
                let ghost before = group_models(groups@);
                let blue = starts_with_str(z.name.as_str(), "BLUE");
                let mut units: Vec<FarpUnit<F>> = Vec::new();
                units.push(unit);
                let g = FarpGroup {
                    name: key,
                    group_id: next_group_id + n as u64,
                    x: z.x,
                    y: z.y,
                    callsign_id: n as u64 + 1,
                    freq_index: n as u64,
                    blue,
                    units,
                };
                assert(g@.units =~= seq![unit@]);
                groups.push(g);
                assert(group_models(groups@) =~= before.push(g@));
            }
            unit_id = unit_id + 1;
        }
        i = i + 1;
    }
    assert(zones@.take(zones@.len() as int) =~= zones@);
    groups
}

/// A name holding "_FARP_" has three pieces or more between underscores.
proof fn lemma_farp_name_pieces(name: Seq<char>)
    requires
        contains_spec(name, "_FARP_"@),
    ensures
        split_spec(name, '_').len() >= 3,
{
    reveal_strlit("_FARP_");
    let i = choose|i: int| crate::text::occurs_at(name, "_FARP_"@, i);
    assert("_FARP_"@.len() == 6);
    assert(name.subrange(i, i + 6)[0] == name[i]);
    assert(name.subrange(i, i + 6)[5] == name[i + 5]);
    assert("_FARP_"@[0] == '_');
    assert("_FARP_"@[5] == '_');
    lemma_pieces_count(name, i, i + 5);
}

/// A sequence with separators at two positions splits into three pieces or more.
proof fn lemma_pieces_count(s: Seq<char>, a: int, b: int)
    requires
        0 <= a < b < s.len(),
        s[a] == '_',
        s[b] == '_',
    ensures
        split_spec(s, '_').len() >= 3,
    decreases s.len(),
{
    if b < s.len() - 1 {
        assert(s.drop_last()[a] == '_');
        assert(s.drop_last()[b] == '_');
        lemma_pieces_count(s.drop_last(), a, b);
        lemma_split_len_grows(s);
    } else {
        lemma_pieces_count_one(s.drop_last(), a);
    }
}

/// Splitting never loses pieces as characters are added.
proof fn lemma_split_len_grows(s: Seq<char>)
    requires
        s.len() > 0,
    ensures
        split_spec(s, '_').len() >= split_spec(s.drop_last(), '_').len(),
{
}

/// A sequence with a separator splits into two pieces or more, and one
/// more separator at the end adds a piece.
proof fn lemma_pieces_count_one(s: Seq<char>, a: int)
    requires
        0 <= a < s.len(),
        s[a] == '_',
    ensures
        split_spec(s, '_').len() >= 2,
    decreases s.len(),
{
    crate::text::lemma_split_nonempty(s.drop_last(), '_');
    if a < s.len() - 1 {
        assert(s.drop_last()[a] == '_');
        lemma_pieces_count_one(s.drop_last(), a);
    }
}


/// The number of units over a list of groups.
pub open spec fn units_total<F>(gs: Seq<FarpGroupModel<F>>) -> nat
    decreases gs.len(),
{
    if gs.len() == 0 {
        0
    } else {
        units_total(gs.drop_last()) + gs.last().units.len()
    }
}

/// Adding one unit to the last group adds one to the total.
proof fn lemma_units_total_update<F>(gs: Seq<FarpGroupModel<F>>, g: FarpGroupModel<F>)
    requires
        gs.len() > 0,
        g.units.len() == gs.last().units.len() + 1,
    ensures
        units_total(gs.update(gs.len() - 1, g)) == units_total(gs) + 1,
{
    assert(gs.update(gs.len() - 1, g).drop_last() =~= gs.drop_last());
}

/// Every FARP zone becomes exactly one heliport unit: the groups hold as many
/// units as there are FARP zones.
pub proof fn law_one_unit_per_farp_zone<F>(zs: Seq<MissionZone<F>>, u0: u64, g0: u64)
    ensures
        units_total(farp_plan(zs, u0, g0)) == farp_count(zs),
    decreases zs.len(),
{
    if zs.len() > 0 {
        law_one_unit_per_farp_zone(zs.drop_last(), u0, g0);
        let prev = farp_plan(zs.drop_last(), u0, g0);
        let z = zs.last();
        if is_farp_zone(z.name@) {
            let key = farp_key(z.name@);
            if prev.len() > 0 && prev.last().name == key {
                let unit = FarpUnitModel {
                    name: z.name@,
                    unit_id: (u0 + farp_count(zs.drop_last())) as u64,
                    x: z.x,
                    y: z.y,
                };
                lemma_units_total_update(
                    prev,
                    FarpGroupModel { units: prev.last().units.push(unit), ..prev.last() },
                );
            } else {
                let p2 = farp_plan(zs, u0, g0);
                assert(p2.drop_last() =~= prev);
            }
        }
    }
}

/// The k-th new FARP group is numbered k: group id, callsign and frequency
/// step all count up with the groups, so no two groups share a frequency.
pub proof fn law_groups_numbered_in_order<F>(zs: Seq<MissionZone<F>>, u0: u64, g0: u64, k: int)
    requires
        0 <= k < farp_plan(zs, u0, g0).len(),
        g0 + zs.len() <= u64::MAX,
    ensures
        farp_plan(zs, u0, g0)[k].freq_index == k,
        farp_plan(zs, u0, g0)[k].callsign_id == k + 1,
        farp_plan(zs, u0, g0)[k].group_id == g0 + k,
    decreases zs.len(),
{
    lemma_plan_len(zs, u0, g0);
    let prev = farp_plan(zs.drop_last(), u0, g0);
    lemma_plan_len(zs.drop_last(), u0, g0);
    if k < prev.len() {
        law_groups_numbered_in_order(zs.drop_last(), u0, g0, k);
    }
}

/// Unit `u` of the FARP group named `key` is the heliport of a FARP zone
/// of `zs`: it carries the zone's name, sits at the zone's position, and the
/// zone belongs to that FARP.
pub open spec fn unit_from_zone<F>(zs: Seq<MissionZone<F>>, u: FarpUnitModel<F>, key: Seq<char>) -> bool {
    exists|j: int|
        0 <= j < zs.len() && is_farp_zone(zs[j].name@) && #[trigger] zs[j].name@ == u.name && u.x
            == zs[j].x && u.y == zs[j].y && farp_key(zs[j].name@) == key
}

/// A unit of a planned FARP group comes from a FARP zone.
proof fn lemma_unit_from_zone<F>(zs: Seq<MissionZone<F>>, u0: u64, g0: u64, k: int, m: int)
    requires
        0 <= k < farp_plan(zs, u0, g0).len(),
        0 <= m < farp_plan(zs, u0, g0)[k].units.len(),
    ensures
        unit_from_zone(zs, farp_plan(zs, u0, g0)[k].units[m], farp_plan(zs, u0, g0)[k].name),
    decreases zs.len(),
{
    let q = zs.drop_last();
    let prev = farp_plan(q, u0, g0);
    let plan = farp_plan(zs, u0, g0);
    let z = zs.last();
    assert(zs[zs.len() - 1] == z);
    if !is_farp_zone(z.name@) {
        lemma_unit_from_zone(q, u0, g0, k, m);
        let j = choose|j: int|
            0 <= j < q.len() && is_farp_zone(q[j].name@) && #[trigger] q[j].name@ == plan[k].units[m].name
                && plan[k].units[m].x == q[j].x && plan[k].units[m].y == q[j].y && farp_key(q[j].name@)
                == plan[k].name;
        assert(q[j] == zs[j]);
    } else {
        let key = farp_key(z.name@);
        if prev.len() > 0 && prev.last().name == key {
            if k < prev.len() - 1 || m < prev[k].units.len() {
                assert(k < prev.len());
                if k == prev.len() - 1 {
                    assert(plan[k].units[m] == prev[k].units[m]);
                } else {
                    assert(plan[k] == prev[k]);
                }
                assert(plan[k].name == prev[k].name);
                lemma_unit_from_zone(q, u0, g0, k, m);
                let j = choose|j: int|
                    0 <= j < q.len() && is_farp_zone(q[j].name@) && #[trigger] q[j].name@
                        == prev[k].units[m].name && prev[k].units[m].x == q[j].x && prev[k].units[m].y
                        == q[j].y && farp_key(q[j].name@) == prev[k].name;
                assert(q[j] == zs[j]);
            } else {
                assert(zs[zs.len() - 1].name@ == plan[k].units[m].name);
            }
        } else {
            if k < prev.len() {
                assert(plan[k] == prev[k]);
                lemma_unit_from_zone(q, u0, g0, k, m);
                let j = choose|j: int|
                    0 <= j < q.len() && is_farp_zone(q[j].name@) && #[trigger] q[j].name@
                        == prev[k].units[m].name && prev[k].units[m].x == q[j].x && prev[k].units[m].y
                        == q[j].y && farp_key(q[j].name@) == prev[k].name;
                assert(q[j] == zs[j]);
            } else {
                assert(zs[zs.len() - 1].name@ == plan[k].units[m].name);
            }
        }
    }
}

/// Each heliport unit of a planned FARP group sits at the position of the
/// FARP zone it is named after, and that zone belongs to the group's FARP.
pub proof fn law_farp_units_at_their_zones<F>(zs: Seq<MissionZone<F>>, u0: u64, g0: u64)
    ensures
        forall|k: int, m: int|
            0 <= k < farp_plan(zs, u0, g0).len() && 0 <= m < farp_plan(zs, u0, g0)[k].units.len()
                ==> #[trigger] unit_from_zone(
                zs,
                farp_plan(zs, u0, g0)[k].units[m],
                farp_plan(zs, u0, g0)[k].name,
            ),
{
    assert forall|k: int, m: int|
        0 <= k < farp_plan(zs, u0, g0).len() && 0 <= m < farp_plan(zs, u0, g0)[k].units.len()
            implies #[trigger] unit_from_zone(
            zs,
            farp_plan(zs, u0, g0)[k].units[m],
            farp_plan(zs, u0, g0)[k].name,
        ) by {
        lemma_unit_from_zone(zs, u0, g0, k, m);
    }
}

/// Every planned FARP group has units, and sits where its first unit does.
pub proof fn law_farp_group_at_first_unit<F>(zs: Seq<MissionZone<F>>, u0: u64, g0: u64, k: int)
    requires
        0 <= k < farp_plan(zs, u0, g0).len(),
    ensures
        farp_plan(zs, u0, g0)[k].units.len() > 0,
        farp_plan(zs, u0, g0)[k].x == farp_plan(zs, u0, g0)[k].units[0].x,
        farp_plan(zs, u0, g0)[k].y == farp_plan(zs, u0, g0)[k].units[0].y,
    decreases zs.len(),
{
    let q = zs.drop_last();
    let prev = farp_plan(q, u0, g0);
    let z = zs.last();
    if !is_farp_zone(z.name@) {
        law_farp_group_at_first_unit(q, u0, g0, k);
    } else if prev.len() > 0 && prev.last().name == farp_key(z.name@) {
        law_farp_group_at_first_unit(q, u0, g0, k);
        if k == prev.len() - 1 {
            assert(prev.last().units.push(farp_plan(zs, u0, g0)[k].units.last())[0] == prev.last().units[0]);
        }
    } else if k < prev.len() {
        law_farp_group_at_first_unit(q, u0, g0, k);
    }
}

} // verus!
