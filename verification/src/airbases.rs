//! Airbases as the campaign rules see them: their names and sides, the
//! coalition each airfield belongs to in the mission, radio frequencies and
//! TACAN channels.
use vstd::prelude::*;
use std::collections::HashMap;
use crate::text::{decimal, decimal_string, list_contains, lowercase_of, str_eq, to_lowercase, views};
use crate::validation::{ErrorModel, ValidationError, ValidationResult, outcome_is};

verus! {

broadcast use vstd::std_specs::hash::group_hash_axioms;

/// An airbase known by its name and the side that holds it.
#[derive(Debug, Clone, PartialEq)]
pub struct BaseRef {
    pub name: String,
    pub side: String,
}

/// The names of a list of airbases.
pub open spec fn base_names(v: Seq<BaseRef>) -> Seq<Seq<char>> {
    v.map_values(|b: BaseRef| b.name@)
}

/// Every airbase of the campaign by kind, by name and side.
pub struct AirbaseNames {
    pub fixed: Vec<BaseRef>,
    pub ship: Vec<BaseRef>,
    pub farp: Vec<BaseRef>,
    pub reserve: Vec<BaseRef>,
    pub air_start: Vec<BaseRef>,
}

/// Whether some airbase of the list is called `name`.
fn has_base(v: &Vec<BaseRef>, name: &str) -> (res: bool)
    ensures
        res == base_names(v@).contains(name@),
{
    let mut i: usize = 0;
    while i < v.len()
        invariant
            i <= v@.len(),
            forall|j: int| 0 <= j < i ==> v@[j].name@ != name@,
        decreases v@.len() - i,
    {
        if str_eq(v[i].name.as_str(), name) {
            assert(base_names(v@)[i as int] == name@);
            return true;
        }
        i = i + 1;
    }
    assert(!base_names(v@).contains(name@)) by {
        if base_names(v@).contains(name@) {
            let j = choose|j: int| 0 <= j < base_names(v@).len() && base_names(v@)[j] == name@;
            assert(v@[j].name@ == name@);
        }
    }
    false
}

impl AirbaseNames {
    /// Some airbase of any kind (fixed, ship, air start, reserve, FARP) is called `name`.
    pub open spec fn exists_spec(&self, name: Seq<char>) -> bool {
        base_names(self.fixed@).contains(name) || base_names(self.ship@).contains(name)
            || base_names(self.air_start@).contains(name) || base_names(
            self.reserve@,
        ).contains(name) || base_names(self.farp@).contains(name)
    }

    /// Whether an airbase of any kind is called `name`.
    pub fn airbase_exists(&self, name: &str) -> (res: bool)
        ensures
            res == self.exists_spec(name@),
    {
        if has_base(&self.fixed, name) {
            return true;
        }
        if has_base(&self.ship, name) {
            return true;
        }
        if has_base(&self.air_start, name) {
            return true;
        }
        if has_base(&self.reserve, name) {
            return true;
        }
        if has_base(&self.farp, name) {
            return true;
        }
        false
    }
}

/// The errors of an airbase whose side is `side`: it must be blue, red or neutral.
pub open spec fn airbase_side_errors(side: Seq<char>) -> Seq<ErrorModel> {
    if side != "blue"@ && side != "red"@ && side != "neutral"@ {
        seq![("side"@, "Airbase Side"@, "Side must be blue/red/neutral"@)]
    } else {
        Seq::empty()
    }
}

/// Checks the side of an airbase (fixed, FARP, ship or air start).
pub fn validate_airbase_side(side: &str) -> (res: ValidationResult)
    ensures
        outcome_is(res, airbase_side_errors(side@)),
{
    let mut errors: Vec<ValidationError> = Vec::new();
    if !str_eq(side, "blue") && !str_eq(side, "red") && !str_eq(side, "neutral") {
        errors.push(ValidationError::new("side", "Airbase Side", "Side must be blue/red/neutral"));
    }
    assert(errors@.map_values(|e: ValidationError| e@) =~= airbase_side_errors(side@));
    ValidationResult::from_errors(errors)
}

/// The coalition that holds an airfield, as the mission's warehouses record it.
#[derive(Debug, Clone, PartialEq)]
pub struct Warehouse {
    pub coalition: String,
}

/// The warehouses of a mission, by airfield number.
#[derive(Debug, Clone)]
pub struct Warehouses {
    pub airports: HashMap<u32, Warehouse>,
}

impl Warehouses {
    /// The side that holds airfield `airdrome_id`: its warehouse's coalition in
    /// lower case, or `None` when the mission has no warehouse for it.
    pub fn side_of_airdrome(&self, airdrome_id: u32) -> (res: Option<String>)
        ensures
            match res {
                Some(s) => self.airports@.contains_key(airdrome_id) && s@ == lowercase_of(
                    self.airports@[airdrome_id].coalition@,
                ),
                None => !self.airports@.contains_key(airdrome_id),
            },
    {
        match self.airports.get(&airdrome_id) {
            Some(w) => Some(to_lowercase(w.coalition.as_str())),
            None => None,
        }
    }
}

/// One entry of an airfield's frequency list: one frequency in Hz, or several.
#[derive(Debug, Clone, PartialEq)]
pub enum FrequencyItem {
    One(u64),
    Many(Vec<u64>),
}

/// The frequencies of a list, in order, the lists of several flattened.
pub open spec fn all_freqs(items: Seq<FrequencyItem>) -> Seq<u64>
    decreases items.len(),
{
    if items.len() == 0 {
        Seq::empty()
    } else {
        all_freqs(items.drop_last()) + match items.last() {
            FrequencyItem::One(f) => seq![f],
            FrequencyItem::Many(v) => v@,
        }
    }
}

/// A frequency in the UHF band, 225 to 400 MHz inclusive.
pub open spec fn is_uhf(f: u64) -> bool {
    225000000 <= f <= 400000000
}

/// The first UHF frequency of a sequence, if any.
pub open spec fn first_uhf(s: Seq<u64>) -> Option<u64>
    decreases s.len(),
{
    if s.len() == 0 {
        None
    } else if is_uhf(s[0]) {
        Some(s[0])
    } else {
        first_uhf(s.drop_first())
    }
}

/// The first frequency of an airfield's list, if the list is not empty.
pub fn get_first_freq(items: &Vec<FrequencyItem>) -> (res: Option<u64>)
    requires
        items@.len() > 0 ==> (items@[0] matches FrequencyItem::Many(v) ==> v@.len() > 0),
    ensures
        items@.len() == 0 ==> res is None,
        items@.len() > 0 ==> res == Some(
            match items@[0] {
                FrequencyItem::One(f) => f,
                FrequencyItem::Many(v) => v@[0],
            },
        ),
{
    if items.len() == 0 {
        return None;
    }
    match &items[0] {
        FrequencyItem::One(f) => Some(*f),
        FrequencyItem::Many(v) => Some(v[0]),
    }
}

/// `first_uhf` of a concatenation looks in the second part only when the
/// first has no UHF frequency.
proof fn lemma_first_uhf_concat(a: Seq<u64>, b: Seq<u64>)
    ensures
        first_uhf(a + b) == match first_uhf(a) {
            Some(f) => Some(f),
            None => first_uhf(b),
        },
    decreases a.len(),
{
    if a.len() > 0 {
        assert((a + b).drop_first() =~= a.drop_first() + b);
        assert((a + b)[0] == a[0]);
        lemma_first_uhf_concat(a.drop_first(), b);
    } else {
        assert(a + b =~= b);
    }
}

/// The first frequency of a list that lies in the UHF band.
fn first_uhf_of(v: &Vec<u64>) -> (res: Option<u64>)
    ensures
        res == first_uhf(v@),
{
    let mut i: usize = 0;
    assert(v@.subrange(0, v@.len() as int) =~= v@);
    while i < v.len()
        invariant
            i <= v@.len(),
            first_uhf(v@) == first_uhf(v@.subrange(i as int, v@.len() as int)),
        decreases v@.len() - i,
    {
        let ghost rest = v@.subrange(i as int, v@.len() as int);
        assert(rest.drop_first() =~= v@.subrange(i + 1, v@.len() as int));
        if v[i] >= 225000000 && v[i] <= 400000000 {
            return Some(v[i]);
        }
        i = i + 1;
    }
    assert(v@.subrange(i as int, v@.len() as int) =~= Seq::<u64>::empty());
    None
}

/// The first UHF frequency of an airfield's list, looking through the
/// entries in order and through each list of several in order.
pub fn get_first_uhf_freq(items: &Vec<FrequencyItem>) -> (res: Option<u64>)
    ensures
        res == first_uhf(all_freqs(items@)),
{
    let mut i: usize = 0;
    assert(items@.take(0) =~= Seq::<FrequencyItem>::empty());
    while i < items.len()
        invariant
            i <= items@.len(),
            first_uhf(all_freqs(items@.take(i as int))) is None,
        decreases items@.len() - i,
    {
        let ghost part = match items@[i as int] {
            FrequencyItem::One(f) => seq![f],
            FrequencyItem::Many(v) => v@,
        };
        let found = match &items[i] {
            FrequencyItem::One(f) => {
                proof {
                    assert(part =~= seq![*f]);
                    assert(part.drop_first() =~= Seq::<u64>::empty());
                    assert(first_uhf(part.drop_first()) is None);
                    assert(part[0] == *f);
                }
                if *f >= 225000000 && *f <= 400000000 {
                    Some(*f)
                } else {
                    None
                }
            },
            FrequencyItem::Many(v) => first_uhf_of(v),
        };
        proof {
            assert(items@.take(i + 1).drop_last() =~= items@.take(i as int));
            assert(all_freqs(items@.take(i + 1)) == all_freqs(items@.take(i as int)) + part);
            lemma_first_uhf_concat(all_freqs(items@.take(i as int)), part);
            assert(found == first_uhf(part));
        }
        if found.is_some() {
            proof {
                lemma_first_uhf_concat(all_freqs(items@.take(i + 1)), all_freqs_rest(items@, i + 1));
                lemma_all_freqs_split(items@, i + 1);
            }
            return found;
        }
        i = i + 1;
    }
    assert(items@.take(items@.len() as int) =~= items@);
    None
}

/// The frequencies of the entries from `i` on.
pub open spec fn all_freqs_rest(items: Seq<FrequencyItem>, i: int) -> Seq<u64> {
    all_freqs(items.subrange(i, items.len() as int))
}

/// The frequencies of a list are those of its first `i` entries followed by those of the rest.
proof fn lemma_all_freqs_split(items: Seq<FrequencyItem>, i: int)
    requires
        0 <= i <= items.len(),
    ensures
        all_freqs(items) == all_freqs(items.take(i)) + all_freqs_rest(items, i),
    decreases items.len() - i,
{
    if i < items.len() {
        lemma_all_freqs_split(items, i + 1);
        let rest = items.subrange(i, items.len() as int);
        lemma_all_freqs_prepend(rest);
        assert(rest.drop_first() =~= items.subrange(i + 1, items.len() as int));
        assert(items.take(i + 1).drop_last() =~= items.take(i));
        assert(items.take(i + 1).last() == rest[0]);
    } else {
        assert(items.take(i) =~= items);
        assert(items.subrange(i, items.len() as int) =~= Seq::<FrequencyItem>::empty());
    }
}

/// The frequencies of a non-empty list are those of its first entry followed by the rest's.
proof fn lemma_all_freqs_prepend(items: Seq<FrequencyItem>)
    requires
        items.len() > 0,
    ensures
        all_freqs(items) == (match items[0] {
            FrequencyItem::One(f) => seq![f],
            FrequencyItem::Many(v) => v@,
        }) + all_freqs(items.drop_first()),
    decreases items.len(),
{
    if items.len() == 1 {
        assert(items.drop_last() =~= Seq::<FrequencyItem>::empty());
        assert(items.drop_first() =~= Seq::<FrequencyItem>::empty());
    } else {
        lemma_all_freqs_prepend(items.drop_last());
        assert(items.drop_last().drop_first() =~= items.drop_first().drop_last());
        assert(items.drop_first().last() == items.last());
        assert(items.drop_last()[0] == items[0]);
    }
}

/// A navigation beacon as the TACAN lookup sees it.
#[derive(Debug, Clone, PartialEq)]
pub struct BeaconRef {
    pub id: String,
    pub beacon_type: u32,
    pub channel: Option<u32>,
}

/// A beacon that is a TACAN (type 4 or 5) of the airport, with a channel.
pub open spec fn is_airport_tacan(b: BeaconRef, airport_ids: Seq<Seq<char>>) -> bool {
    airport_ids.contains(b.id@) && (b.beacon_type == 4 || b.beacon_type == 5) && b.channel is Some
}

/// The first beacon of the list that is a TACAN of the airport, if any.
pub open spec fn first_tacan(beacons: Seq<BeaconRef>, airport_ids: Seq<Seq<char>>) -> Option<
    BeaconRef,
>
    decreases beacons.len(),
{
    if beacons.len() == 0 {
        None
    } else if is_airport_tacan(beacons[0], airport_ids) {
        Some(beacons[0])
    } else {
        first_tacan(beacons.drop_first(), airport_ids)
    }
}

/// The TACAN of an airport written as the campaign files want it ("<channel>X"):
/// the first beacon of `beacons` that belongs to the airport (its id is in
/// `airport_ids`), is a TACAN (type 4 or 5) and has a channel.
pub fn tacan_for_airport(beacons: &Vec<BeaconRef>, airport_ids: &Vec<String>) -> (res: Option<
    String,
>)
    ensures
        match first_tacan(beacons@, views(airport_ids@)) {
            Some(b) => res matches Some(s) && s@ == decimal(b.channel->0 as nat) + "X"@,
            None => res is None,
        },
{
    let ghost ids = views(airport_ids@);
    let mut i: usize = 0;
    assert(beacons@.subrange(0, beacons@.len() as int) =~= beacons@);
    while i < beacons.len()
        invariant
            i <= beacons@.len(),
            ids == views(airport_ids@),
            first_tacan(beacons@, ids) == first_tacan(
                beacons@.subrange(i as int, beacons@.len() as int),
                ids,
            ),
        decreases beacons@.len() - i,
    {
        let ghost rest = beacons@.subrange(i as int, beacons@.len() as int);
        assert(rest.drop_first() =~= beacons@.subrange(i + 1, beacons@.len() as int));
        let b = &beacons[i];
        if list_contains(airport_ids, b.id.as_str()) && (b.beacon_type == 4 || b.beacon_type
            == 5) {
            match b.channel {
                Some(c) => {
                    let mut s = decimal_string(c as u64);
                    s.append("X");
                    return Some(s);
                },
                None => {},
            }
        }
        i = i + 1;
    }
    assert(beacons@.subrange(i as int, beacons@.len() as int) =~= Seq::<BeaconRef>::empty());
    None
}

} // verus!
