//! The airbase database of a campaign: every place aircraft can start from,
//! by name. A new database is read off the mission: the theatre's airfields,
//! carriers (ship units named `CV_...`), air start zones
//! (`<SIDE>_AIRSTART_<NAME>`) and heliport statics (FARPs).
use vstd::prelude::*;
use vstd::string::*;
use crate::airbases::Warehouses;
use crate::strmap::StrMap;
use crate::target_list::MissionZone;
use crate::text::{lemma_split_nonempty, lowercase_of, split_on, split_spec, str_eq, to_lowercase, views};

verus! {

broadcast use vstd::std_specs::hash::group_hash_axioms;

/// An airfield of the theatre; `F` holds coordinates and height.
#[derive(Debug, Clone, PartialEq)]
pub struct FixedAirBase<F> {
    pub x: F,
    pub y: F,
    pub elevation: F,
    pub airdrome_id: u32,
    pub atc_frequency: String,
    pub startup: u32,
    pub side: String,
    pub divert: bool,
    pub vor: Option<String>,
    pub ndb: Option<String>,
    pub tacan: Option<String>,
    pub ils: Option<String>,
    pub limited_park_number: u16,
    pub _name: String,
    pub inactive: bool,
}

/// A ship that aircraft operate from; `F` holds its startup time.
#[derive(Debug, Clone, PartialEq)]
pub struct ShipBase<F> {
    pub unitname: String,
    pub startup: Option<F>,
    pub atc_frequency: Option<String>,
    pub side: String,
    pub limited_park_number: u32,
    pub _name: String,
    pub inactive: bool,
}

/// A forward arming and refuelling point; `F` holds coordinates and height.
#[derive(Debug, Clone, PartialEq)]
pub struct FarpBase<F> {
    pub x: F,
    pub y: F,
    pub elevation: F,
    pub airdrome_id: u64,
    pub helipad_id: u64,
    pub atc_frequency: String,
    pub side: String,
    pub divert: bool,
    pub _name: String,
    pub inactive: bool,
    pub limited_park_number: Option<u16>,
}

/// A point in the air where flights start; `F` holds coordinates and height.
#[derive(Debug, Clone, PartialEq)]
pub struct AirStartBase<F> {
    pub inactive: bool,
    pub x: F,
    pub y: F,
    pub elevation: F,
    pub atc_frequency: String,
    pub base_air_start: bool,
    pub side: String,
    pub _name: String,
}

/// A reserve base, kept off the map; `F` holds coordinates and height.
#[derive(Debug, Clone, PartialEq)]
pub struct ReserveBase<F> {
    pub inactive: bool,
    pub x: F,
    pub y: F,
    pub elevation: F,
    pub atc_frequency: String,
    pub side: String,
    pub _name: String,
}

/// An airbase of the database.
#[derive(Debug)]
pub enum AirBase<F> {
    Fixed(FixedAirBase<F>),
    Ship(ShipBase<F>),
    Farp(FarpBase<F>),
    Reserve(ReserveBase<F>),
    AirStart(AirStartBase<F>),
}

/// The character sequence of an optional string.
pub open spec fn opt_view(o: Option<String>) -> Option<Seq<char>> {
    match o {
        Some(s) => Some(s@),
        None => None,
    }
}

/// An airfield with its strings as character sequences.
pub struct FixedModel<F> {
    pub x: F,
    pub y: F,
    pub elevation: F,
    pub airdrome_id: u32,
    pub atc_frequency: Seq<char>,
    pub startup: u32,
    pub side: Seq<char>,
    pub divert: bool,
    pub vor: Option<Seq<char>>,
    pub ndb: Option<Seq<char>>,
    pub tacan: Option<Seq<char>>,
    pub ils: Option<Seq<char>>,
    pub limited_park_number: u16,
    pub name: Seq<char>,
    pub inactive: bool,
}

/// A ship base with its strings as character sequences.
pub struct ShipModel<F> {
    pub unitname: Seq<char>,
    pub startup: Option<F>,
    pub atc_frequency: Option<Seq<char>>,
    pub side: Seq<char>,
    pub limited_park_number: u32,
    pub name: Seq<char>,
    pub inactive: bool,
}

/// A FARP with its strings as character sequences.
pub struct FarpModel<F> {
    pub x: F,
    pub y: F,
    pub elevation: F,
    pub airdrome_id: u64,
    pub helipad_id: u64,
    pub atc_frequency: Seq<char>,
    pub side: Seq<char>,
    pub divert: bool,
    pub name: Seq<char>,
    pub inactive: bool,
    pub limited_park_number: Option<u16>,
}

/// An air start with its strings as character sequences.
pub struct AirStartModel<F> {
    pub inactive: bool,
    pub x: F,
    pub y: F,
    pub elevation: F,
    pub atc_frequency: Seq<char>,
    pub base_air_start: bool,
    pub side: Seq<char>,
    pub name: Seq<char>,
}

/// A reserve base with its strings as character sequences.
pub struct ReserveModel<F> {
    pub inactive: bool,
    pub x: F,
    pub y: F,
    pub elevation: F,
    pub atc_frequency: Seq<char>,
    pub side: Seq<char>,
    pub name: Seq<char>,
}

/// An airbase as a model.
pub enum BaseModel<F> {
    Fixed(FixedModel<F>),
    Ship(ShipModel<F>),
    Farp(FarpModel<F>),
    Reserve(ReserveModel<F>),
    AirStart(AirStartModel<F>),
}

impl<F> View for FixedAirBase<F> {
    type V = FixedModel<F>;

    open spec fn view(&self) -> FixedModel<F> {
        FixedModel {
            x: self.x,
            y: self.y,
            elevation: self.elevation,
            airdrome_id: self.airdrome_id,
            atc_frequency: self.atc_frequency@,
            startup: self.startup,
            side: self.side@,
            divert: self.divert,
            vor: opt_view(self.vor),
            ndb: opt_view(self.ndb),
            tacan: opt_view(self.tacan),
            ils: opt_view(self.ils),
            limited_park_number: self.limited_park_number,
            name: self._name@,
            inactive: self.inactive,
        }
    }
}

impl<F> View for ShipBase<F> {
    type V = ShipModel<F>;

    open spec fn view(&self) -> ShipModel<F> {
        ShipModel {
            unitname: self.unitname@,
            startup: self.startup,
            atc_frequency: opt_view(self.atc_frequency),
            side: self.side@,
            limited_park_number: self.limited_park_number,
            name: self._name@,
            inactive: self.inactive,
        }
    }
}

impl<F> View for FarpBase<F> {
    type V = FarpModel<F>;

    open spec fn view(&self) -> FarpModel<F> {
        FarpModel {
            x: self.x,
            y: self.y,
            elevation: self.elevation,
            airdrome_id: self.airdrome_id,
            helipad_id: self.helipad_id,
            atc_frequency: self.atc_frequency@,
            side: self.side@,
            divert: self.divert,
            name: self._name@,
            inactive: self.inactive,
            limited_park_number: self.limited_park_number,
        }
    }
}

impl<F> View for AirStartBase<F> {
    type V = AirStartModel<F>;

    open spec fn view(&self) -> AirStartModel<F> {
        AirStartModel {
            inactive: self.inactive,
            x: self.x,
            y: self.y,
            elevation: self.elevation,
            atc_frequency: self.atc_frequency@,
            base_air_start: self.base_air_start,
            side: self.side@,
            name: self._name@,
        }
    }
}

impl<F> View for ReserveBase<F> {
    type V = ReserveModel<F>;

    open spec fn view(&self) -> ReserveModel<F> {
        ReserveModel {
            inactive: self.inactive,
            x: self.x,
            y: self.y,
            elevation: self.elevation,
            atc_frequency: self.atc_frequency@,
            side: self.side@,
            name: self._name@,
        }
    }
}

impl<F> View for AirBase<F> {
    type V = BaseModel<F>;

    open spec fn view(&self) -> BaseModel<F> {
        match self {
            AirBase::Fixed(a) => BaseModel::Fixed(a@),
            AirBase::Ship(a) => BaseModel::Ship(a@),
            AirBase::Farp(a) => BaseModel::Farp(a@),
            AirBase::Reserve(a) => BaseModel::Reserve(a@),
            AirBase::AirStart(a) => BaseModel::AirStart(a@),
        }
    }
}

impl<F> AirBase<F> {
    /// The side of the airbase.
    pub fn get_side(&self) -> (s: String)
        ensures
            s@ == match self@ {
                BaseModel::Fixed(a) => a.side,
                BaseModel::Ship(a) => a.side,
                BaseModel::Farp(a) => a.side,
                BaseModel::Reserve(a) => a.side,
                BaseModel::AirStart(a) => a.side,
            },
    {
        match self {
            AirBase::Fixed(a) => a.side.clone(),
            AirBase::Ship(a) => a.side.clone(),
            AirBase::Farp(a) => a.side.clone(),
            AirBase::Reserve(a) => a.side.clone(),
            AirBase::AirStart(a) => a.side.clone(),
        }
    }
}

/// An airfield of the theatre as the database reads it: its name, its
/// airfield number, position and height, its first UHF frequency written in
/// MHz (empty when it has none) and its number of parking stands.
#[derive(Debug, Clone)]
pub struct DcsAirfield<F> {
    pub name: String,
    pub airdrome_id: u32,
    pub x: F,
    pub y: F,
    pub height: F,
    pub uhf_frequency: String,
    pub stands: usize,
}

/// A ship unit of the mission: its name, the side of its country and its
/// radio frequency written in MHz.
#[derive(Debug, Clone)]
pub struct ShipUnit {
    pub name: String,
    pub side: String,
    pub frequency: String,
}

/// A unit of a static group: its type, category and id, and, for a heliport,
/// its radio frequency.
#[derive(Debug, Clone)]
pub struct StaticUnit {
    pub unit_type: String,
    pub category: String,
    pub unit_id: u64,
    pub heliport_frequency: Option<String>,
}

/// A static group of the mission: its name, the side of its country, its
/// position and its units.
#[derive(Debug, Clone)]
pub struct StaticGroup<F> {
    pub name: String,
    pub side: String,
    pub x: F,
    pub y: F,
    pub units: Vec<StaticUnit>,
}

/// The numbers that new bases get: a carrier's startup time, a FARP's
/// elevation and an air start's altitude.
#[derive(Debug, Clone, Copy)]
pub struct BaseDefaults<F> {
    pub ship_startup: F,
    pub farp_elevation: F,
    pub air_start_elevation: F,
}

/// Sets `key` to `v` for each entry of `s`, in order, starting from `m`.
pub open spec fn fold_insert<F>(
    m: Map<Seq<char>, BaseModel<F>>,
    s: Seq<(Seq<char>, BaseModel<F>)>,
) -> Map<Seq<char>, BaseModel<F>>
    decreases s.len(),
{
    if s.len() == 0 {
        m
    } else {
        fold_insert(m, s.drop_last()).insert(s.last().0, s.last().1)
    }
}

/// The database entry of an airfield held by side `side`.
pub open spec fn fixed_entry<F>(a: DcsAirfield<F>, side: Seq<char>) -> (Seq<char>, BaseModel<F>) {
    (
        a.name@,
        BaseModel::Fixed(
            FixedModel {
                x: a.x,
                y: a.y,
                elevation: a.height,
                airdrome_id: a.airdrome_id,
                atc_frequency: a.uhf_frequency@,
                startup: 600,
                side,
                divert: false,
                vor: None,
                ndb: None,
                tacan: None,
                ils: None,
                limited_park_number: (a.stands as int % 65536) as u16,
                name: a.name@,
                inactive: false,
            },
        ),
    )
}

/// The entries of the airfields; each is held by the coalition, lower-cased,
/// of its warehouse in the mission.
pub open spec fn fixed_entries<F>(s: Seq<DcsAirfield<F>>, w: Warehouses) -> Seq<(Seq<char>, BaseModel<F>)>
    decreases s.len(),
{
    if s.len() == 0 {
        Seq::empty()
    } else {
        fixed_entries(s.drop_last(), w).push(
            fixed_entry(s.last(), lowercase_of(w.airports@[s.last().airdrome_id].coalition@)),
        )
    }
}

/// A ship unit is a carrier when its name has two pieces or more and the first
/// is "cv" in any case.
pub open spec fn is_carrier(name: Seq<char>) -> bool {
    let parts = split_spec(name, '_');
    parts.len() >= 2 && lowercase_of(parts[0]) == "cv"@
}

/// The entries of the carriers among ship units `s`.
pub open spec fn ship_entries<F>(s: Seq<ShipUnit>, d: BaseDefaults<F>) -> Seq<(Seq<char>, BaseModel<F>)>
    decreases s.len(),
{
    if s.len() == 0 {
        Seq::empty()
    } else {
        let u = s.last();
        let prev = ship_entries(s.drop_last(), d);
        if is_carrier(u.name@) {
            prev.push(
                (
                    u.name@,
                    BaseModel::Ship(
                        ShipModel {
                            unitname: u.name@,
                            startup: Some(d.ship_startup),
                            atc_frequency: Some(u.frequency@),
                            side: u.side@,
                            limited_park_number: 4,
                            name: u.name@,
                            inactive: false,
                        },
                    ),
                ),
            )
        } else {
            prev
        }
    }
}

/// A zone is an air start when its name has three pieces or more and the
/// second is "airstart" in any case.
pub open spec fn is_air_start(name: Seq<char>) -> bool {
    let parts = split_spec(name, '_');
    parts.len() >= 3 && lowercase_of(parts[1]) == "airstart"@
}

/// The entries of the air start zones among `s`: named by the third piece of
/// the zone name, held by the side its first piece names.
pub open spec fn air_start_entries<F>(s: Seq<MissionZone<F>>, d: BaseDefaults<F>) -> Seq<
    (Seq<char>, BaseModel<F>),
>
    decreases s.len(),
{
    if s.len() == 0 {
        Seq::empty()
    } else {
        let z = s.last();
        let parts = split_spec(z.name@, '_');
        let prev = air_start_entries(s.drop_last(), d);
        if is_air_start(z.name@) {
            prev.push(
                (
                    parts[2],
                    BaseModel::AirStart(
                        AirStartModel {
                            inactive: false,
                            x: z.x,
                            y: z.y,
                            elevation: d.air_start_elevation,
                            atc_frequency: Seq::empty(),
                            base_air_start: true,
                            side: lowercase_of(parts[0]),
                            name: parts[2],
                        },
                    ),
                ),
            )
        } else {
            prev
        }
    }
}

/// The parking places of a FARP: 4 when its first unit is of type "FARP",
/// else one per unit.
pub open spec fn farp_parking<F>(g: StaticGroup<F>) -> u16 {
    if g.units@[0].unit_type@ == "FARP"@ {
        4
    } else {
        (g.units@.len() as int % 65536) as u16
    }
}

/// The entries of the static groups among `s` whose first unit is a heliport.
pub open spec fn farp_entries<F>(s: Seq<StaticGroup<F>>, d: BaseDefaults<F>) -> Seq<
    (Seq<char>, BaseModel<F>),
>
    decreases s.len(),
{
    if s.len() == 0 {
        Seq::empty()
    } else {
        let g = s.last();
        let u = g.units@[0];
        let prev = farp_entries(s.drop_last(), d);
        if u.category@ == "Heliports"@ {
            prev.push(
                (
                    g.name@,
                    BaseModel::Farp(
                        FarpModel {
                            x: g.x,
                            y: g.y,
                            elevation: d.farp_elevation,
                            airdrome_id: u.unit_id,
                            helipad_id: u.unit_id,
                            atc_frequency: u.heliport_frequency->0@,
                            side: g.side@,
                            divert: false,
                            name: g.name@,
                            inactive: false,
                            limited_park_number: Some(farp_parking(g)),
                        },
                    ),
                ),
            )
        } else {
            prev
        }
    }
}

/// Every airfield has a warehouse in the mission, every static group has a
/// unit, and a heliport has a frequency.
pub open spec fn mission_bases_ok<F>(
    airfields: Seq<DcsAirfield<F>>,
    w: Warehouses,
    statics: Seq<StaticGroup<F>>,
) -> bool {
    &&& forall|i: int|
        0 <= i < airfields.len() ==> w.airports@.contains_key(#[trigger] airfields[i].airdrome_id)
    &&& forall|i: int|
        0 <= i < statics.len() ==> (#[trigger] statics[i]).units@.len() > 0 && (
        statics[i].units@[0].category@ == "Heliports"@ ==> statics[i].units@[0].heliport_frequency
            is Some)
}

/// The database a mission gives: airfields, then carriers, then air starts,
/// then FARPs, a later base taking the name of an earlier one.
pub open spec fn mission_bases<F>(
    airfields: Seq<DcsAirfield<F>>,
    w: Warehouses,
    ships: Seq<ShipUnit>,
    zones: Seq<MissionZone<F>>,
    statics: Seq<StaticGroup<F>>,
    d: BaseDefaults<F>,
) -> Map<Seq<char>, BaseModel<F>> {
    fold_insert(
        fold_insert(
            fold_insert(fold_insert(Map::empty(), fixed_entries(airfields, w)), ship_entries(ships, d)),
            air_start_entries(zones, d),
        ),
        farp_entries(statics, d),
    )
}

/// The airbase database: bases by name.
#[derive(Debug)]
pub struct DBAirbases<F> {
    pub bases: StrMap<AirBase<F>>,
}

/// The bases of a map as models.
pub open spec fn bases_model<F>(m: Map<Seq<char>, AirBase<F>>) -> Map<Seq<char>, BaseModel<F>> {
    m.map_values(|b: AirBase<F>| b@)
}

impl<F> View for DBAirbases<F> {
    type V = Map<Seq<char>, BaseModel<F>>;

    open spec fn view(&self) -> Map<Seq<char>, BaseModel<F>> {
        bases_model(self.bases.view())
    }
}

/// A string equals a literal.
fn same_text(s: &String, lit: &str) -> (res: bool)
    ensures
        res == (s@ == lit@),
{
    str_eq(s.as_str(), lit)
}

impl<F: Copy> DBAirbases<F> {
    /// Sets `key` to `b`.
    fn put(&mut self, key: String, b: AirBase<F>)
        ensures
            final(self)@ == old(self)@.insert(key@, b@),
    {
        let ghost k = key@;
        let ghost bm = b@;
        self.bases.insert(key, b);
        assert(self@ =~= old(self)@.insert(k, bm));
    }

    /// Adds the airfields of the theatre.
    fn add_airfields(&mut self, airfields: &Vec<DcsAirfield<F>>, w: &Warehouses)
        requires
            forall|i: int|
                0 <= i < airfields@.len() ==> w.airports@.contains_key(
                    #[trigger] airfields@[i].airdrome_id,
                ),
        ensures
            final(self)@ == fold_insert(old(self)@, fixed_entries(airfields@, *w)),
    {
        let ghost start = self@;
        let mut i: usize = 0;
        while i < airfields.len()
            invariant
                i <= airfields@.len(),
                forall|j: int|
                    0 <= j < airfields@.len() ==> w.airports@.contains_key(
                        #[trigger] airfields@[j].airdrome_id,
                    ),
                self@ == fold_insert(start, fixed_entries(airfields@.take(i as int), *w)),
            decreases airfields@.len() - i,
        {
            let a = &airfields[i];
            assert(w.airports@.contains_key(airfields@[i as int].airdrome_id));
            let side = match w.side_of_airdrome(a.airdrome_id) {
                Some(s) => s,
                None => {
                    assert(false);
                    String::new()
                },
            };
            let b = FixedAirBase {
                x: a.x,
                y: a.y,
                elevation: a.height,
                airdrome_id: a.airdrome_id,
                atc_frequency: a.uhf_frequency.clone(),
                startup: 600,
                side,
                divert: false,
                vor: None,
                ndb: None,
                tacan: None,
                ils: None,
                limited_park_number: (a.stands % 65536) as u16,
                _name: a.name.clone(),
                inactive: false,
            };
            self.put(a.name.clone(), AirBase::Fixed(b));
            proof {
                let t = airfields@.take(i as int + 1);
                assert(t.drop_last() =~= airfields@.take(i as int));
                assert(t.last() == airfields@[i as int]);
                let cur = fixed_entries(t, *w);
                assert(cur.drop_last() =~= fixed_entries(airfields@.take(i as int), *w));
            }
            i = i + 1;
        }
        assert(airfields@.take(airfields@.len() as int) =~= airfields@);
    }

    /// Adds the carriers among ship units.
    fn add_carriers(&mut self, ships: &Vec<ShipUnit>, d: BaseDefaults<F>)
        ensures
            final(self)@ == fold_insert(old(self)@, ship_entries(ships@, d)),
    {
        let ghost start = self@;
        let mut i: usize = 0;
        while i < ships.len()
            invariant
                i <= ships@.len(),
                self@ == fold_insert(start, ship_entries(ships@.take(i as int), d)),
            decreases ships@.len() - i,
        {
            let u = &ships[i];
            let ghost prev = ship_entries(ships@.take(i as int), d);
            proof {
                let t = ships@.take(i as int + 1);
                assert(t.drop_last() =~= ships@.take(i as int));
                assert(t.last() == ships@[i as int]);
            }
            let parts = split_on(u.name.as_str(), '_');
            if parts.len() >= 2 {
                proof {
                    assert(views(parts@)[0] == parts@[0]@);
                }
                let first = to_lowercase(parts[0].as_str());
                if same_text(&first, "cv") {
                    let b = ShipBase {
                        unitname: u.name.clone(),
                        startup: Some(d.ship_startup),
                        atc_frequency: Some(u.frequency.clone()),
                        side: u.side.clone(),
                        limited_park_number: 4,
                        _name: u.name.clone(),
                        inactive: false,
                    };
                    self.put(u.name.clone(), AirBase::Ship(b));
                    assert(ship_entries(ships@.take(i as int + 1), d).drop_last() =~= prev);
                }
            }
            i = i + 1;
        }
        assert(ships@.take(ships@.len() as int) =~= ships@);
    }

    /// Adds the air start zones.
    fn add_air_starts(&mut self, zones: &Vec<MissionZone<F>>, d: BaseDefaults<F>)
        ensures
            final(self)@ == fold_insert(old(self)@, air_start_entries(zones@, d)),
    {
        let ghost start = self@;
        let mut i: usize = 0;
        while i < zones.len()
            invariant
                i <= zones@.len(),
                self@ == fold_insert(start, air_start_entries(zones@.take(i as int), d)),
            decreases zones@.len() - i,
        {
            let z = &zones[i];
            let ghost prev = air_start_entries(zones@.take(i as int), d);
            proof {
                let t = zones@.take(i as int + 1);
                assert(t.drop_last() =~= zones@.take(i as int));
                assert(t.last() == zones@[i as int]);
            }
            let parts = split_on(z.name.as_str(), '_');
            if parts.len() >= 3 {
                proof {
                    assert(views(parts@)[0] == parts@[0]@);
                    assert(views(parts@)[1] == parts@[1]@);
                    assert(views(parts@)[2] == parts@[2]@);
                }
                let kind = to_lowercase(parts[1].as_str());
                if same_text(&kind, "airstart") {
                    let b = AirStartBase {
                        inactive: false,
                        x: z.x,
                        y: z.y,
                        elevation: d.air_start_elevation,
                        atc_frequency: String::new(),
                        base_air_start: true,
                        side: to_lowercase(parts[0].as_str()),
                        _name: parts[2].clone(),
                    };
                    self.put(parts[2].clone(), AirBase::AirStart(b));
                    assert(air_start_entries(zones@.take(i as int + 1), d).drop_last() =~= prev);
                }
            }
            i = i + 1;
        }
        assert(zones@.take(zones@.len() as int) =~= zones@);
    }

    /// Adds the heliport static groups.
    fn add_farps(&mut self, statics: &Vec<StaticGroup<F>>, d: BaseDefaults<F>)
        requires
            forall|i: int|
                0 <= i < statics@.len() ==> (#[trigger] statics@[i]).units@.len() > 0 && (
                statics@[i].units@[0].category@ == "Heliports"@
                    ==> statics@[i].units@[0].heliport_frequency is Some),
        ensures
            final(self)@ == fold_insert(old(self)@, farp_entries(statics@, d)),
    {
        let ghost start = self@;
        let mut i: usize = 0;
        while i < statics.len()
            invariant
                i <= statics@.len(),
                forall|j: int|
                    0 <= j < statics@.len() ==> (#[trigger] statics@[j]).units@.len() > 0 && (
                    statics@[j].units@[0].category@ == "Heliports"@
                        ==> statics@[j].units@[0].heliport_frequency is Some),
                self@ == fold_insert(start, farp_entries(statics@.take(i as int), d)),
            decreases statics@.len() - i,
        {
            let g = &statics[i];
            let ghost prev = farp_entries(statics@.take(i as int), d);
            proof {
                let t = statics@.take(i as int + 1);
                assert(t.drop_last() =~= statics@.take(i as int));
                assert(t.last() == statics@[i as int]);
            }
            assert(statics@[i as int].units@.len() > 0);
            let u = &g.units[0];
            if same_text(&u.category, "Heliports") {
                let parking: u16 = if same_text(&u.unit_type, "FARP") {
                    4
                } else {
                    (g.units.len() % 65536) as u16
                };
                let freq = match &u.heliport_frequency {
                    Some(f) => f.clone(),
                    None => {
                        assert(false);
                        String::new()
                    },
                };
                let b = FarpBase {
                    x: g.x,
                    y: g.y,
                    elevation: d.farp_elevation,
                    airdrome_id: u.unit_id,
                    helipad_id: u.unit_id,
                    atc_frequency: freq,
                    side: g.side.clone(),
                    divert: false,
                    _name: g.name.clone(),
                    inactive: false,
                    limited_park_number: Some(parking),
                };
                self.put(g.name.clone(), AirBase::Farp(b));
                assert(farp_entries(statics@.take(i as int + 1), d).drop_last() =~= prev);
            }
            i = i + 1;
        }
        assert(statics@.take(statics@.len() as int) =~= statics@);
    }

    /// The airbase database of a mission: the theatre's airfields, each held by
    /// the coalition of its warehouse; the carriers; the air start zones; and
    /// the heliport statics, a later base replacing an earlier one of the same
    /// name.
    pub fn new_from_mission(
        airfields: &Vec<DcsAirfield<F>>,
        warehouses: &Warehouses,
        ships: &Vec<ShipUnit>,
        zones: &Vec<MissionZone<F>>,
        statics: &Vec<StaticGroup<F>>,
        defaults: BaseDefaults<F>,
    ) -> (db: Self)
        requires
            mission_bases_ok(airfields@, *warehouses, statics@),
        ensures
            db@ == mission_bases(airfields@, *warehouses, ships@, zones@, statics@, defaults),
    {
        let mut db = DBAirbases { bases: StrMap::new() };
        assert(db@ =~= Map::<Seq<char>, BaseModel<F>>::empty());
        db.add_airfields(airfields, warehouses);
        db.add_carriers(ships, defaults);
        db.add_air_starts(zones, defaults);
        db.add_farps(statics, defaults);
        db
    }
}


/// The airbases in one list per kind, each carrying its name.
#[derive(Debug)]
pub struct DBAirbasesInternal<F> {
    pub fixed: Vec<FixedAirBase<F>>,
    pub ship: Vec<ShipBase<F>>,
    pub farp: Vec<FarpBase<F>>,
    pub reserve: Vec<ReserveBase<F>>,
    pub air_start: Vec<AirStartBase<F>>,
}

/// The kind of a base, as the list it goes to: fixed, ship, FARP, reserve,
/// air start.
pub open spec fn base_kind<F>(b: BaseModel<F>) -> int {
    match b {
        BaseModel::Fixed(_) => 0,
        BaseModel::Ship(_) => 1,
        BaseModel::Farp(_) => 2,
        BaseModel::Reserve(_) => 3,
        BaseModel::AirStart(_) => 4,
    }
}

/// A base renamed `name`; an airfield also takes the side `fixed_side`.
pub open spec fn renamed<F>(b: BaseModel<F>, name: Seq<char>, fixed_side: Seq<char>) -> BaseModel<F> {
    match b {
        BaseModel::Fixed(a) => BaseModel::Fixed(FixedModel { name, side: fixed_side, ..a }),
        BaseModel::Ship(a) => BaseModel::Ship(ShipModel { name, ..a }),
        BaseModel::Farp(a) => BaseModel::Farp(FarpModel { name, ..a }),
        BaseModel::Reserve(a) => BaseModel::Reserve(ReserveModel { name, ..a }),
        BaseModel::AirStart(a) => BaseModel::AirStart(AirStartModel { name, ..a }),
    }
}

/// The side the warehouses give an airfield base, lower-cased; any other
/// base keeps its own.
pub open spec fn warehouse_side<F>(b: BaseModel<F>, w: Warehouses) -> Seq<char> {
    match b {
        BaseModel::Fixed(a) => lowercase_of(w.airports@[a.airdrome_id].coalition@),
        _ => Seq::empty(),
    }
}

/// The bases of kind `k` among pairs `p`, in order, each renamed to its key
/// (an airfield also taking its warehouse's side).
pub open spec fn bases_of_kind<F>(p: Seq<(Seq<char>, AirBase<F>)>, w: Warehouses, k: int) -> Seq<BaseModel<F>>
    decreases p.len(),
{
    if p.len() == 0 {
        Seq::empty()
    } else {
        let prev = bases_of_kind(p.drop_last(), w, k);
        let b = p.last().1@;
        if base_kind(b) == k {
            prev.push(renamed(b, p.last().0, warehouse_side(b, w)))
        } else {
            prev
        }
    }
}

/// The models of the list of kind `k`.
pub open spec fn base_list<F>(x: DBAirbasesInternal<F>, k: int) -> Seq<BaseModel<F>> {
    if k == 0 {
        x.fixed@.map_values(|b: FixedAirBase<F>| AirBase::Fixed(b)@)
    } else if k == 1 {
        x.ship@.map_values(|b: ShipBase<F>| AirBase::Ship(b)@)
    } else if k == 2 {
        x.farp@.map_values(|b: FarpBase<F>| AirBase::Farp(b)@)
    } else if k == 3 {
        x.reserve@.map_values(|b: ReserveBase<F>| AirBase::Reserve(b)@)
    } else {
        x.air_start@.map_values(|b: AirStartBase<F>| AirBase::AirStart(b)@)
    }
}

/// Every airfield of the pairs has a warehouse.
pub open spec fn airfields_in_warehouses<F>(p: Seq<(Seq<char>, AirBase<F>)>, w: Warehouses) -> bool {
    forall|i: int|
        0 <= i < p.len() ==> ((#[trigger] p[i]).1 matches AirBase::Fixed(a)
            ==> w.airports@.contains_key(a.airdrome_id))
}

/// Files base `b`, under name `name`, in the list of its kind; an airfield
/// takes the side its warehouse gives.
fn file_base<F>(acc: &mut DBAirbasesInternal<F>, name: String, b: AirBase<F>, w: &Warehouses)
    requires
        b matches AirBase::Fixed(a) ==> w.airports@.contains_key(a.airdrome_id),
    ensures
        forall|k: int|
            0 <= k < 5 ==> #[trigger] base_list(*final(acc), k) == if k == base_kind(b@) {
                base_list(*old(acc), k).push(renamed(b@, name@, warehouse_side(b@, *w)))
            } else {
                base_list(*old(acc), k)
            },
{
    let ghost before = *acc;
    let ghost n = name@;
    let ghost bm = b@;
    match b {
        AirBase::Fixed(mut a) => {
            let side = match w.side_of_airdrome(a.airdrome_id) {
                Some(s) => s,
                None => {
                    assert(false);
                    String::new()
                },
            };
            a.side = side;
            a._name = name;
            acc.fixed.push(a);
        },
        AirBase::Ship(mut a) => {
            a._name = name;
            acc.ship.push(a);
        },
        AirBase::Farp(mut a) => {
            a._name = name;
            acc.farp.push(a);
        },
        AirBase::Reserve(mut a) => {
            a._name = name;
            acc.reserve.push(a);
        },
        AirBase::AirStart(mut a) => {
            a._name = name;
            acc.air_start.push(a);
        },
    }
    assert forall|k: int| 0 <= k < 5 implies #[trigger] base_list(*acc, k) == if k == base_kind(bm) {
        base_list(before, k).push(renamed(bm, n, warehouse_side(bm, *w)))
    } else {
        base_list(before, k)
    } by {
        if k == 0 {
            assert(base_list(*acc, k) =~= if k == base_kind(bm) {
                base_list(before, k).push(renamed(bm, n, warehouse_side(bm, *w)))
            } else {
                base_list(before, k)
            });
        } else if k == 1 {
            assert(base_list(*acc, k) =~= if k == base_kind(bm) {
                base_list(before, k).push(renamed(bm, n, warehouse_side(bm, *w)))
            } else {
                base_list(before, k)
            });
        } else if k == 2 {
            assert(base_list(*acc, k) =~= if k == base_kind(bm) {
                base_list(before, k).push(renamed(bm, n, warehouse_side(bm, *w)))
            } else {
                base_list(before, k)
            });
        } else if k == 3 {
            assert(base_list(*acc, k) =~= if k == base_kind(bm) {
                base_list(before, k).push(renamed(bm, n, warehouse_side(bm, *w)))
            } else {
                base_list(before, k)
            });
        } else {
            assert(base_list(*acc, k) =~= if k == base_kind(bm) {
                base_list(before, k).push(renamed(bm, n, warehouse_side(bm, *w)))
            } else {
                base_list(before, k)
            });
        }
    }
}

/// The (name, base) pairs of a list of entries.
pub open spec fn base_pairs<F>(v: Seq<(String, AirBase<F>)>) -> Seq<(Seq<char>, AirBase<F>)> {
    v.map_values(|e: (String, AirBase<F>)| (e.0@, e.1))
}

impl<F> DBAirbasesInternal<F> {
    /// The bases of a database in one list per kind, in the database's
    /// order, each renamed to its key; each airfield takes the side, lower-
    /// cased, of its warehouse in the mission.
    pub fn from_db_airbases(db: DBAirbases<F>, w: &Warehouses) -> (res: Self)
        requires
            airfields_in_warehouses(db.bases.pairs(), *w),
        ensures
            forall|k: int|
                0 <= k < 5 ==> #[trigger] base_list(res, k) == bases_of_kind(db.bases.pairs(), *w, k),
    {
        let ghost p = db.bases.pairs();
        let mut acc = DBAirbasesInternal {
            fixed: Vec::new(),
            ship: Vec::new(),
            farp: Vec::new(),
            reserve: Vec::new(),
            air_start: Vec::new(),
        };
        let ghost empty = acc;
        let entries = db.bases.into_entries();
        assert(base_pairs(entries@) =~= p);
        let n = entries.len();
        let mut rest = crate::target_list::into_reversed(entries);
        let mut done: usize = 0;
        while rest.len() > 0
            invariant
                rest@.len() + done == n,
                n == p.len(),
                airfields_in_warehouses(p, *w),
                forall|i: int|
                    0 <= i < rest@.len() ==> ((#[trigger] rest@[i]).0@, rest@[i].1) == p[n - 1 - i],
                forall|k: int|
                    0 <= k < 5 ==> #[trigger] base_list(acc, k) == bases_of_kind(p.take(done as int), *w, k),
            decreases rest@.len(),
        {
            let (name, b) = rest.pop().unwrap();
            let ghost before = acc;
            let ghost e = p[done as int];
            assert(e == (name@, b));
            assert(b matches AirBase::Fixed(a) ==> w.airports@.contains_key(a.airdrome_id)) by {
                assert(p[done as int] == e);
            }
            file_base(&mut acc, name, b, w);
            proof {
                let q = p.take(done + 1);
                assert(q.drop_last() =~= p.take(done as int));
                assert(q.last() == e);
                assert forall|k: int| 0 <= k < 5 implies #[trigger] base_list(acc, k) == bases_of_kind(
                    q,
                    *w,
                    k,
                ) by {
                    assert(base_list(before, k) == bases_of_kind(p.take(done as int), *w, k));
                }
            }
            done = done + 1;
        }
        assert(p.take(n as int) =~= p);
        acc
    }
}


/// The name a base carries.
pub open spec fn base_name<F>(b: BaseModel<F>) -> Seq<char> {
    match b {
        BaseModel::Fixed(a) => a.name,
        BaseModel::Ship(a) => a.name,
        BaseModel::Farp(a) => a.name,
        BaseModel::Reserve(a) => a.name,
        BaseModel::AirStart(a) => a.name,
    }
}

/// All bases of the lists, in the order fixed, ship, FARP, reserve, air start.
pub open spec fn all_bases<F>(x: DBAirbasesInternal<F>) -> Seq<BaseModel<F>> {
    base_list(x, 0) + base_list(x, 1) + base_list(x, 2) + base_list(x, 3) + base_list(x, 4)
}

/// Each base keyed by its own name.
pub open spec fn keyed_bases<F>(s: Seq<BaseModel<F>>) -> Seq<(Seq<char>, BaseModel<F>)> {
    s.map_values(|b: BaseModel<F>| (base_name(b), b))
}

/// The name of a base.
fn name_of_base<F>(b: &AirBase<F>) -> (res: String)
    ensures
        res@ == base_name(b@),
{
    match b {
        AirBase::Fixed(a) => a._name.clone(),
        AirBase::Ship(a) => a._name.clone(),
        AirBase::Farp(a) => a._name.clone(),
        AirBase::Reserve(a) => a._name.clone(),
        AirBase::AirStart(a) => a._name.clone(),
    }
}

/// The fixed bases wrapped as bases.
fn wrap_fixed<F>(v: Vec<FixedAirBase<F>>) -> (res: Vec<AirBase<F>>)
    ensures
        res@.map_values(|b: AirBase<F>| b@) == v@.map_values(|x: FixedAirBase<F>| AirBase::Fixed(x)@),
{
    let ghost orig = v@;
    let n = v.len();
    let mut rest = crate::target_list::into_reversed(v);
    let mut res: Vec<AirBase<F>> = Vec::new();
    while rest.len() > 0
        invariant
            rest@.len() + res@.len() == n,
            n == orig.len(),
            forall|i: int| 0 <= i < rest@.len() ==> #[trigger] rest@[i] == orig[n - 1 - i],
            res@.map_values(|b: AirBase<F>| b@) == orig.take(res@.len() as int).map_values(
                |x: FixedAirBase<F>| AirBase::Fixed(x)@,
            ),
        decreases rest@.len(),
    {
        let k = res.len();
        let x = rest.pop().unwrap();
        let ghost before = res@;
        res.push(AirBase::Fixed(x));
        assert(orig.take(k + 1) =~= orig.take(k as int).push(orig[k as int]));
        assert(res@.map_values(|b: AirBase<F>| b@) =~= before.map_values(|b: AirBase<F>| b@).push(
            AirBase::Fixed(orig[k as int])@,
        ));
    }
    assert(orig.take(n as int) =~= orig);
    res
}

/// The ship bases wrapped as bases.
fn wrap_ship<F>(v: Vec<ShipBase<F>>) -> (res: Vec<AirBase<F>>)
    ensures
        res@.map_values(|b: AirBase<F>| b@) == v@.map_values(|x: ShipBase<F>| AirBase::Ship(x)@),
{
    let ghost orig = v@;
    let n = v.len();
    let mut rest = crate::target_list::into_reversed(v);
    let mut res: Vec<AirBase<F>> = Vec::new();
    while rest.len() > 0
        invariant
            rest@.len() + res@.len() == n,
            n == orig.len(),
            forall|i: int| 0 <= i < rest@.len() ==> #[trigger] rest@[i] == orig[n - 1 - i],
            res@.map_values(|b: AirBase<F>| b@) == orig.take(res@.len() as int).map_values(
                |x: ShipBase<F>| AirBase::Ship(x)@,
            ),
        decreases rest@.len(),
    {
        let k = res.len();
        let x = rest.pop().unwrap();
        let ghost before = res@;
        res.push(AirBase::Ship(x));
        assert(orig.take(k + 1) =~= orig.take(k as int).push(orig[k as int]));
        assert(res@.map_values(|b: AirBase<F>| b@) =~= before.map_values(|b: AirBase<F>| b@).push(
            AirBase::Ship(orig[k as int])@,
        ));
    }
    assert(orig.take(n as int) =~= orig);
    res
}

/// The farp bases wrapped as bases.
fn wrap_farp<F>(v: Vec<FarpBase<F>>) -> (res: Vec<AirBase<F>>)
    ensures
        res@.map_values(|b: AirBase<F>| b@) == v@.map_values(|x: FarpBase<F>| AirBase::Farp(x)@),
{
    let ghost orig = v@;
    let n = v.len();
    let mut rest = crate::target_list::into_reversed(v);
    let mut res: Vec<AirBase<F>> = Vec::new();
    while rest.len() > 0
        invariant
            rest@.len() + res@.len() == n,
            n == orig.len(),
            forall|i: int| 0 <= i < rest@.len() ==> #[trigger] rest@[i] == orig[n - 1 - i],
            res@.map_values(|b: AirBase<F>| b@) == orig.take(res@.len() as int).map_values(
                |x: FarpBase<F>| AirBase::Farp(x)@,
            ),
        decreases rest@.len(),
    {
        let k = res.len();
        let x = rest.pop().unwrap();
        let ghost before = res@;
        res.push(AirBase::Farp(x));
        assert(orig.take(k + 1) =~= orig.take(k as int).push(orig[k as int]));
        assert(res@.map_values(|b: AirBase<F>| b@) =~= before.map_values(|b: AirBase<F>| b@).push(
            AirBase::Farp(orig[k as int])@,
        ));
    }
    assert(orig.take(n as int) =~= orig);
    res
}

/// The reserve bases wrapped as bases.
fn wrap_reserve<F>(v: Vec<ReserveBase<F>>) -> (res: Vec<AirBase<F>>)
    ensures
        res@.map_values(|b: AirBase<F>| b@) == v@.map_values(|x: ReserveBase<F>| AirBase::Reserve(x)@),
{
    let ghost orig = v@;
    let n = v.len();
    let mut rest = crate::target_list::into_reversed(v);
    let mut res: Vec<AirBase<F>> = Vec::new();
    while rest.len() > 0
        invariant
            rest@.len() + res@.len() == n,
            n == orig.len(),
            forall|i: int| 0 <= i < rest@.len() ==> #[trigger] rest@[i] == orig[n - 1 - i],
            res@.map_values(|b: AirBase<F>| b@) == orig.take(res@.len() as int).map_values(
                |x: ReserveBase<F>| AirBase::Reserve(x)@,
            ),
        decreases rest@.len(),
    {
        let k = res.len();
        let x = rest.pop().unwrap();
        let ghost before = res@;
        res.push(AirBase::Reserve(x));
        assert(orig.take(k + 1) =~= orig.take(k as int).push(orig[k as int]));
        assert(res@.map_values(|b: AirBase<F>| b@) =~= before.map_values(|b: AirBase<F>| b@).push(
            AirBase::Reserve(orig[k as int])@,
        ));
    }
    assert(orig.take(n as int) =~= orig);
    res
}

/// The air_start bases wrapped as bases.
fn wrap_air_start<F>(v: Vec<AirStartBase<F>>) -> (res: Vec<AirBase<F>>)
    ensures
        res@.map_values(|b: AirBase<F>| b@) == v@.map_values(|x: AirStartBase<F>| AirBase::AirStart(x)@),
{
    let ghost orig = v@;
    let n = v.len();
    let mut rest = crate::target_list::into_reversed(v);
    let mut res: Vec<AirBase<F>> = Vec::new();
    while rest.len() > 0
        invariant
            rest@.len() + res@.len() == n,
            n == orig.len(),
            forall|i: int| 0 <= i < rest@.len() ==> #[trigger] rest@[i] == orig[n - 1 - i],
            res@.map_values(|b: AirBase<F>| b@) == orig.take(res@.len() as int).map_values(
                |x: AirStartBase<F>| AirBase::AirStart(x)@,
            ),
        decreases rest@.len(),
    {
        let k = res.len();
        let x = rest.pop().unwrap();
        let ghost before = res@;
        res.push(AirBase::AirStart(x));
        assert(orig.take(k + 1) =~= orig.take(k as int).push(orig[k as int]));
        assert(res@.map_values(|b: AirBase<F>| b@) =~= before.map_values(|b: AirBase<F>| b@).push(
            AirBase::AirStart(orig[k as int])@,
        ));
    }
    assert(orig.take(n as int) =~= orig);
    res
}

impl<F: Copy> DBAirbasesInternal<F> {
    /// All bases, wrapped, in the order fixed, ship, FARP, reserve, air start.
    fn into_bases(self) -> (res: Vec<AirBase<F>>)
        ensures
            res@.map_values(|b: AirBase<F>| b@) == all_bases(self),
    {
        let ghost k0 = base_list(self, 0);
        let ghost k1 = base_list(self, 1);
        let ghost k2 = base_list(self, 2);
        let ghost k3 = base_list(self, 3);
        let ghost k4 = base_list(self, 4);
        let DBAirbasesInternal { fixed, ship, farp, reserve, air_start } = self;
        let mut items = wrap_fixed(fixed);
        let mut more = wrap_ship(ship);
        items.append(&mut more);
        assert(items@.map_values(|b: AirBase<F>| b@) =~= k0 + k1);
        let mut more = wrap_farp(farp);
        items.append(&mut more);
        assert(items@.map_values(|b: AirBase<F>| b@) =~= k0 + k1 + k2);
        let mut more = wrap_reserve(reserve);
        items.append(&mut more);
        assert(items@.map_values(|b: AirBase<F>| b@) =~= k0 + k1 + k2 + k3);
        let mut more = wrap_air_start(air_start);
        items.append(&mut more);
        assert(items@.map_values(|b: AirBase<F>| b@) =~= k0 + k1 + k2 + k3 + k4);
        items
    }

    /// The database these lists make: each base under its name, in the order
    /// fixed, ship, FARP, reserve, air start, a later base replacing an
    /// earlier one of the same name.
    pub fn to_db_airbases(self) -> (db: DBAirbases<F>)
        ensures
            db@ == fold_insert(Map::empty(), keyed_bases(all_bases(self))),
    {
        let items = self.into_bases();
        let ghost s = keyed_bases(items@.map_values(|b: AirBase<F>| b@));
        let n = items.len();
        let mut rest = crate::target_list::into_reversed(items);
        let mut db = DBAirbases { bases: StrMap::new() };
        assert(db@ =~= Map::<Seq<char>, BaseModel<F>>::empty());
        let mut done: usize = 0;
        while rest.len() > 0
            invariant
                rest@.len() + done == n,
                n == s.len(),
                forall|i: int|
                    0 <= i < rest@.len() ==> ((#[trigger] rest@[i]).view() == s[n - 1 - i].1
                        && base_name(rest@[i]@) == s[n - 1 - i].0),
                db@ == fold_insert(Map::empty(), s.take(done as int)),
            decreases rest@.len(),
        {
            let b = rest.pop().unwrap();
            let name = name_of_base(&b);
            db.put(name, b);
            assert(s.take(done + 1).drop_last() =~= s.take(done as int));
            assert(s.take(done + 1).last() == s[done as int]);
            done = done + 1;
        }
        assert(s.take(n as int) =~= s);
        db
    }
}

/// The bases of kinds `0` to `n - 1`, kind by kind.
pub open spec fn bases_up_to<F>(p: Seq<(Seq<char>, AirBase<F>)>, w: Warehouses, n: nat) -> Seq<BaseModel<F>>
    decreases n,
{
    if n == 0 {
        Seq::empty()
    } else {
        bases_up_to(p, w, (n - 1) as nat) + bases_of_kind(p, w, n - 1)
    }
}

/// A pair's base renamed to its key, an airfield taking its warehouse's side.
pub open spec fn renamed_pair<F>(e: (Seq<char>, AirBase<F>), w: Warehouses) -> BaseModel<F> {
    renamed(e.1@, e.0, warehouse_side(e.1@, w))
}

/// A renamed base carries the name it was given.
proof fn lemma_renamed_name<F>(b: BaseModel<F>, name: Seq<char>, side: Seq<char>)
    ensures
        base_name(renamed(b, name, side)) == name,
        base_kind(renamed(b, name, side)) == base_kind(b),
{
}

/// Each base of kind `k` is a renamed pair.
proof fn lemma_bases_of_kind_members<F>(p: Seq<(Seq<char>, AirBase<F>)>, w: Warehouses, k: int, i: int)
    requires
        0 <= i < bases_of_kind(p, w, k).len(),
    ensures
        exists|j: int| 0 <= j < p.len() && bases_of_kind(p, w, k)[i] == renamed_pair(#[trigger] p[j], w),
    decreases p.len(),
{
    let prev = bases_of_kind(p.drop_last(), w, k);
    if i < prev.len() {
        lemma_bases_of_kind_members(p.drop_last(), w, k, i);
        let j = choose|j: int| 0 <= j < p.drop_last().len() && prev[i] == renamed_pair(#[trigger] p.drop_last()[j], w);
        assert(p.drop_last()[j] == p[j]);
    } else {
        assert(bases_of_kind(p, w, k)[i] == renamed_pair(p[p.len() - 1], w));
    }
}

/// Each pair of kind `k` is, renamed, a base of that kind.
proof fn lemma_bases_of_kind_covers<F>(p: Seq<(Seq<char>, AirBase<F>)>, w: Warehouses, j: int)
    requires
        0 <= j < p.len(),
    ensures
        bases_of_kind(p, w, base_kind(p[j].1@)).contains(renamed_pair(p[j], w)),
    decreases p.len(),
{
    let k = base_kind(p[j].1@);
    let prev = bases_of_kind(p.drop_last(), w, k);
    if j < p.len() - 1 {
        assert(p.drop_last()[j] == p[j]);
        lemma_bases_of_kind_covers(p.drop_last(), w, j);
        let i = choose|i: int| 0 <= i < prev.len() && prev[i] == renamed_pair(p[j], w);
        assert(bases_of_kind(p, w, k)[i] == prev[i]);
    } else {
        assert(bases_of_kind(p, w, k)[prev.len() as int] == renamed_pair(p[j], w));
    }
}

/// Each base of the kinds up to `n` is a renamed pair.
proof fn lemma_bases_up_to_members<F>(p: Seq<(Seq<char>, AirBase<F>)>, w: Warehouses, n: nat, i: int)
    requires
        0 <= i < bases_up_to(p, w, n).len(),
    ensures
        exists|j: int| 0 <= j < p.len() && bases_up_to(p, w, n)[i] == renamed_pair(#[trigger] p[j], w),
    decreases n,
{
    let prev = bases_up_to(p, w, (n - 1) as nat);
    if i < prev.len() {
        lemma_bases_up_to_members(p, w, (n - 1) as nat, i);
        assert(bases_up_to(p, w, n)[i] == prev[i]);
    } else {
        assert(bases_up_to(p, w, n)[i] == bases_of_kind(p, w, n - 1)[i - prev.len()]);
        lemma_bases_of_kind_members(p, w, n - 1, i - prev.len());
    }
}

/// Each pair whose kind is below `n` is, renamed, a base of the kinds up to `n`.
proof fn lemma_bases_up_to_covers<F>(p: Seq<(Seq<char>, AirBase<F>)>, w: Warehouses, n: nat, j: int)
    requires
        0 <= j < p.len(),
        base_kind(p[j].1@) < n,
    ensures
        bases_up_to(p, w, n).contains(renamed_pair(p[j], w)),
    decreases n,
{
    let prev = bases_up_to(p, w, (n - 1) as nat);
    let b = bases_of_kind(p, w, n - 1);
    let all = bases_up_to(p, w, n);
    let t = renamed_pair(p[j], w);
    if base_kind(p[j].1@) < n - 1 {
        lemma_bases_up_to_covers(p, w, (n - 1) as nat, j);
        let i = choose|i: int| 0 <= i < prev.len() && prev[i] == t;
        assert(all[i] == t);
    } else {
        lemma_bases_of_kind_covers(p, w, j);
        let i = choose|i: int| 0 <= i < b.len() && b[i] == t;
        assert(all[prev.len() + i] == t);
    }
}

/// Inserting bases by name, where every base named `k` is `e` and one is,
/// leaves `e` under `k`.
proof fn lemma_fold_value<F>(m: Map<Seq<char>, BaseModel<F>>, s: Seq<BaseModel<F>>, k: Seq<char>, e: BaseModel<F>)
    requires
        forall|i: int| 0 <= i < s.len() && base_name(#[trigger] s[i]) == k ==> s[i] == e,
        exists|i: int| 0 <= i < s.len() && base_name(#[trigger] s[i]) == k,
    ensures
        fold_insert(m, keyed_bases(s)).dom().contains(k),
        fold_insert(m, keyed_bases(s))[k] == e,
    decreases s.len(),
{
    let q = s.drop_last();
    assert(keyed_bases(s).drop_last() =~= keyed_bases(q));
    if base_name(s.last()) == k {
        assert(s[s.len() - 1] == e);
    } else {
        let i = choose|i: int| 0 <= i < s.len() && base_name(#[trigger] s[i]) == k;
        assert(i < s.len() - 1);
        assert(q[i] == s[i]);
        assert forall|a: int| 0 <= a < q.len() && base_name(#[trigger] q[a]) == k implies q[a] == e by {
            assert(q[a] == s[a]);
        }
        lemma_fold_value(m, q, k, e);
    }
}

/// Inserting bases by name, none of them named `k`, leaves `k` as it was.
proof fn lemma_fold_absent<F>(m: Map<Seq<char>, BaseModel<F>>, s: Seq<BaseModel<F>>, k: Seq<char>)
    requires
        forall|i: int| 0 <= i < s.len() ==> base_name(#[trigger] s[i]) != k,
    ensures
        fold_insert(m, keyed_bases(s)).dom().contains(k) == m.dom().contains(k),
    decreases s.len(),
{
    if s.len() > 0 {
        let q = s.drop_last();
        assert(keyed_bases(s).drop_last() =~= keyed_bases(q));
        assert forall|i: int| 0 <= i < q.len() implies base_name(#[trigger] q[i]) != k by {
            assert(q[i] == s[i]);
        }
        lemma_fold_absent(m, q, k);
        assert(base_name(s[s.len() - 1]) != k);
    }
}

/// The database with each base renamed to its key, each airfield taking
/// its warehouse's side.
pub open spec fn renamed_db<F>(m: Map<Seq<char>, AirBase<F>>, w: Warehouses) -> Map<Seq<char>, BaseModel<F>> {
    Map::new(|k: Seq<char>| m.dom().contains(k), |k: Seq<char>| renamed(m[k]@, k, warehouse_side(m[k]@, w)))
}

/// One key of the round trip.
proof fn lemma_db_round_trip_key<F>(p: Seq<(Seq<char>, AirBase<F>)>, w: Warehouses, k: Seq<char>)
    requires
        crate::strmap::keys_distinct(p),
    ensures
        fold_insert(Map::empty(), keyed_bases(bases_up_to(p, w, 5))).dom().contains(k)
            == renamed_db(crate::strmap::map_of_pairs(p), w).dom().contains(k),
        renamed_db(crate::strmap::map_of_pairs(p), w).dom().contains(k) ==> fold_insert(
            Map::empty(),
            keyed_bases(bases_up_to(p, w, 5)),
        )[k] == renamed_db(crate::strmap::map_of_pairs(p), w)[k],
{
    let s = bases_up_to(p, w, 5);
    crate::strmap::lemma_map_of_pairs_dom(p, k);
    if exists|j: int| 0 <= j < p.len() && p[j].0 == k {
        let j = choose|j: int| 0 <= j < p.len() && p[j].0 == k;
        crate::strmap::lemma_map_of_pairs_index(p, j);
        let e = renamed_pair(p[j], w);
        lemma_renamed_name(p[j].1@, k, warehouse_side(p[j].1@, w));
        lemma_bases_up_to_covers(p, w, 5, j);
        let i = choose|i: int| 0 <= i < s.len() && s[i] == e;
        assert(base_name(s[i]) == k);
        assert forall|a: int| 0 <= a < s.len() && base_name(#[trigger] s[a]) == k implies s[a] == e by {
            lemma_bases_up_to_members(p, w, 5, a);
            let j2 = choose|j2: int| 0 <= j2 < p.len() && s[a] == renamed_pair(#[trigger] p[j2], w);
            lemma_renamed_name(p[j2].1@, p[j2].0, warehouse_side(p[j2].1@, w));
            assert(j2 == j);
        }
        lemma_fold_value(Map::empty(), s, k, e);
    } else {
        assert forall|a: int| 0 <= a < s.len() implies base_name(#[trigger] s[a]) != k by {
            lemma_bases_up_to_members(p, w, 5, a);
            let j2 = choose|j2: int| 0 <= j2 < p.len() && s[a] == renamed_pair(#[trigger] p[j2], w);
            lemma_renamed_name(p[j2].1@, p[j2].0, warehouse_side(p[j2].1@, w));
        }
        lemma_fold_absent(Map::empty(), s, k);
    }
}

/// Splitting a database of bases into one list per kind and putting the
/// lists together again gives the database back: the same names, each with
/// its base renamed to that name, an airfield taking its warehouse's side.
pub proof fn law_db_round_trip<F>(db: DBAirbases<F>, w: Warehouses, x: DBAirbasesInternal<F>)
    requires
        crate::strmap::keys_distinct(db.bases.pairs()),
        forall|k: int| 0 <= k < 5 ==> #[trigger] base_list(x, k) == bases_of_kind(db.bases.pairs(), w, k),
    ensures
        fold_insert(Map::empty(), keyed_bases(all_bases(x))) == renamed_db(db.bases.view(), w),
{
    let p = db.bases.pairs();
    reveal_with_fuel(bases_up_to, 6);
    assert(base_list(x, 0) == bases_of_kind(p, w, 0));
    assert(base_list(x, 1) == bases_of_kind(p, w, 1));
    assert(base_list(x, 2) == bases_of_kind(p, w, 2));
    assert(base_list(x, 3) == bases_of_kind(p, w, 3));
    assert(base_list(x, 4) == bases_of_kind(p, w, 4));
    assert(all_bases(x) =~= bases_up_to(p, w, 5));
    let result = fold_insert(Map::empty(), keyed_bases(all_bases(x)));
    let target = renamed_db(db.bases.view(), w);
    assert forall|k: Seq<char>| #[trigger] result.dom().contains(k) == target.dom().contains(k) by {
        lemma_db_round_trip_key(p, w, k);
    }
    assert forall|k: Seq<char>| #[trigger] result.dom().contains(k) implies result[k] == target[k] by {
        lemma_db_round_trip_key(p, w, k);
    }
    assert(result =~= target);
}

/// Base `b` is the air start base that zone `z` gives: named by the zone
/// name's third piece, held by the side of its first piece, at the zone's
/// position.
pub open spec fn air_start_from<F>(b: BaseModel<F>, z: MissionZone<F>) -> bool {
    let parts = split_spec(z.name@, '_');
    match b {
        BaseModel::AirStart(a) => a.x == z.x && a.y == z.y && a.name == parts[2] && a.side
            == lowercase_of(parts[0]),
        _ => false,
    }
}

/// Entry `i` of the air start entries comes from an air start zone.
proof fn lemma_air_start_entry_from<F>(zs: Seq<MissionZone<F>>, d: BaseDefaults<F>, i: int)
    requires
        0 <= i < air_start_entries(zs, d).len(),
    ensures
        exists|j: int|
            0 <= j < zs.len() && is_air_start(zs[j].name@) && air_start_entries(zs, d)[i].0
                == split_spec(#[trigger] zs[j].name@, '_')[2] && air_start_from(
                air_start_entries(zs, d)[i].1,
                zs[j],
            ),
    decreases zs.len(),
{
    let q = zs.drop_last();
    let prev = air_start_entries(q, d);
    if i < prev.len() {
        lemma_air_start_entry_from(q, d, i);
        let j = choose|j: int|
            0 <= j < q.len() && is_air_start(q[j].name@) && prev[i].0 == split_spec(
                #[trigger] q[j].name@,
                '_',
            )[2] && air_start_from(prev[i].1, q[j]);
        assert(q[j] == zs[j]);
    } else {
        assert(zs[zs.len() - 1] == zs.last());
    }
}

/// Air start zone `j` gives an air start entry.
proof fn lemma_air_start_zone_gives<F>(zs: Seq<MissionZone<F>>, d: BaseDefaults<F>, j: int)
    requires
        0 <= j < zs.len(),
        is_air_start(zs[j].name@),
    ensures
        exists|i: int|
            0 <= i < air_start_entries(zs, d).len() && (#[trigger] air_start_entries(zs, d)[i]).0
                == split_spec(zs[j].name@, '_')[2] && air_start_from(air_start_entries(zs, d)[i].1, zs[j]),
    decreases zs.len(),
{
    let q = zs.drop_last();
    let prev = air_start_entries(q, d);
    if j < zs.len() - 1 {
        assert(q[j] == zs[j]);
        lemma_air_start_zone_gives(q, d, j);
        let i = choose|i: int|
            0 <= i < prev.len() && (#[trigger] prev[i]).0 == split_spec(q[j].name@, '_')[2]
                && air_start_from(prev[i].1, q[j]);
        assert(air_start_entries(zs, d)[i] == prev[i]);
    } else {
        assert(zs[j] == zs.last());
        assert(air_start_entries(zs, d)[prev.len() as int].0 == split_spec(zs[j].name@, '_')[2]);
    }
}

/// Entry `i` of the air start entries of `zs` is the base of an air start
/// zone of `zs`, under that zone's base name.
pub open spec fn entry_from_zone<F>(zs: Seq<MissionZone<F>>, d: BaseDefaults<F>, i: int) -> bool {
    exists|j: int|
        0 <= j < zs.len() && is_air_start(zs[j].name@) && air_start_entries(zs, d)[i].0
            == split_spec(#[trigger] zs[j].name@, '_')[2] && air_start_from(
            air_start_entries(zs, d)[i].1,
            zs[j],
        )
}

/// Air start zone `j` of `zs` gives an entry under its base name.
pub open spec fn zone_gives_entry<F>(zs: Seq<MissionZone<F>>, d: BaseDefaults<F>, j: int) -> bool {
    exists|i: int|
        0 <= i < air_start_entries(zs, d).len() && (#[trigger] air_start_entries(zs, d)[i]).0
            == split_spec(zs[j].name@, '_')[2] && air_start_from(air_start_entries(zs, d)[i].1, zs[j])
}

/// Every air start base read from the zones sits at the position of an air
/// start zone it is named after (with that zone's side), and every air
/// start zone gives one.
pub proof fn law_air_starts_at_their_zones<F>(zs: Seq<MissionZone<F>>, d: BaseDefaults<F>)
    ensures
        forall|i: int| 0 <= i < air_start_entries(zs, d).len() ==> #[trigger] entry_from_zone(zs, d, i),
        forall|j: int|
            0 <= j < zs.len() && is_air_start(zs[j].name@) ==> #[trigger] zone_gives_entry(zs, d, j),
{
    assert forall|i: int| 0 <= i < air_start_entries(zs, d).len() implies #[trigger] entry_from_zone(
        zs,
        d,
        i,
    ) by {
        lemma_air_start_entry_from(zs, d, i);
    }
    assert forall|j: int| 0 <= j < zs.len() && is_air_start(zs[j].name@) implies #[trigger] zone_gives_entry(
        zs,
        d,
        j,
    ) by {
        lemma_air_start_zone_gives(zs, d, j);
    }
}

/// Base `b` is the airfield `a` of the theatre: at the airfield's position
/// and height, under its name and id, with its UHF frequency, held by
/// `side`.
pub open spec fn airfield_base<F>(b: BaseModel<F>, a: DcsAirfield<F>, side: Seq<char>) -> bool {
    match b {
        BaseModel::Fixed(f) => f.x == a.x && f.y == a.y && f.elevation == a.height && f.name == a.name@
            && f.airdrome_id == a.airdrome_id && f.atc_frequency == a.uhf_frequency@ && f.side == side,
        _ => false,
    }
}

/// Each airfield of the theatre gives one airfield base, in order: entry
/// `i` is airfield `i`, under its name, at its position, held by the side,
/// lower-cased, of its warehouse.
pub proof fn law_airfields_at_their_positions<F>(s: Seq<DcsAirfield<F>>, w: Warehouses, i: int)
    requires
        0 <= i < s.len(),
    ensures
        fixed_entries(s, w).len() == s.len(),
        fixed_entries(s, w)[i].0 == s[i].name@,
        airfield_base(
            fixed_entries(s, w)[i].1,
            s[i],
            lowercase_of(w.airports@[s[i].airdrome_id].coalition@),
        ),
    decreases s.len(),
{
    let q = s.drop_last();
    if i < s.len() - 1 {
        law_airfields_at_their_positions(q, w, i);
        assert(q[i] == s[i]);
    } else {
        if q.len() > 0 {
            law_airfields_at_their_positions(q, w, 0);
        }
        assert(s[i] == s.last());
    }
}

/// Base `b` is the FARP that static group `g` gives: at the group's
/// position, under its name, with the id and radio frequency of its first
/// unit, held by the group's side.
pub open spec fn farp_base_of<F>(b: BaseModel<F>, g: StaticGroup<F>) -> bool {
    match b {
        BaseModel::Farp(f) => f.x == g.x && f.y == g.y && f.name == g.name@ && f.side == g.side@
            && f.airdrome_id == g.units@[0].unit_id && f.helipad_id == g.units@[0].unit_id
            && Some(f.atc_frequency) == (match g.units@[0].heliport_frequency {
            Some(q) => Some(q@),
            None => None,
        }),
        _ => false,
    }
}

/// Entry `i` of the FARP entries of `gs` is the FARP of a heliport group of
/// `gs`, under the group's name.
pub open spec fn farp_entry_from_group<F>(gs: Seq<StaticGroup<F>>, d: BaseDefaults<F>, i: int) -> bool {
    exists|j: int|
        0 <= j < gs.len() && gs[j].units@[0].category@ == "Heliports"@ && farp_entries(gs, d)[i].0
            == (#[trigger] gs[j]).name@ && farp_base_of(farp_entries(gs, d)[i].1, gs[j])
}

proof fn lemma_farp_entry_from<F>(gs: Seq<StaticGroup<F>>, d: BaseDefaults<F>, i: int)
    requires
        0 <= i < farp_entries(gs, d).len(),
        forall|j: int| 0 <= j < gs.len() ==> (#[trigger] gs[j]).units@[0].category@ == "Heliports"@
            ==> gs[j].units@[0].heliport_frequency is Some,
    ensures
        farp_entry_from_group(gs, d, i),
    decreases gs.len(),
{
    let q = gs.drop_last();
    let prev = farp_entries(q, d);
    assert forall|j: int| 0 <= j < q.len() implies (#[trigger] q[j]).units@[0].category@ == "Heliports"@
        ==> q[j].units@[0].heliport_frequency is Some by {
        assert(q[j] == gs[j]);
    }
    if i < prev.len() {
        lemma_farp_entry_from(q, d, i);
        let j = choose|j: int|
            0 <= j < q.len() && q[j].units@[0].category@ == "Heliports"@ && prev[i].0 == (
            #[trigger] q[j]).name@ && farp_base_of(prev[i].1, q[j]);
        assert(q[j] == gs[j]);
        assert(farp_entries(gs, d)[i] == prev[i]);
    } else {
        assert(gs[gs.len() - 1] == gs.last());
    }
}

/// Every FARP base read from the static groups sits at the position of a
/// heliport group it is named after, with that group's first unit's id and
/// radio frequency.
pub proof fn law_farps_at_their_groups<F>(gs: Seq<StaticGroup<F>>, d: BaseDefaults<F>)
    requires
        forall|j: int| 0 <= j < gs.len() ==> (#[trigger] gs[j]).units@[0].category@ == "Heliports"@
            ==> gs[j].units@[0].heliport_frequency is Some,
    ensures
        forall|i: int| 0 <= i < farp_entries(gs, d).len() ==> #[trigger] farp_entry_from_group(gs, d, i),
{
    assert forall|i: int| 0 <= i < farp_entries(gs, d).len() implies #[trigger] farp_entry_from_group(
        gs,
        d,
        i,
    ) by {
        lemma_farp_entry_from(gs, d, i);
    }
}

} // verus!
