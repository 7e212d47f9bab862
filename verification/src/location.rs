//! The gazetteer: places by place code, and the names under which a place
//! is found in free text.

use vstd::prelude::*;
use crate::fields::{join, join_rows};
use crate::table::{accepted, csv_records, first_rejected, read_records, readable, tables,
    tolerated, LoadError, Source, COMMA, SEMICOLON};
use crate::text::{append, decimal, decimal_chars, digit, digit_char, lowercase, occurs, occurs_in,
    rows, same, slice, texts, to_chars, to_text, trim, trimmed, CharSet};
use crate::textmap::TextMap;

verus! {

/// What is known of a place. Coordinates are in millionths of a degree.
#[derive(Debug, Clone)]
pub struct LocationInfo {
    pub place: String,
    pub province: String,
    pub region: String,
    pub latitude: Option<i64>,
    pub longitude: Option<i64>,
}

/// The texts and numbers of a place.
pub struct PlaceView {
    pub place: Seq<char>,
    pub province: Seq<char>,
    pub region: Seq<char>,
    pub latitude: Option<i64>,
    pub longitude: Option<i64>,
}

impl View for LocationInfo {
    type V = PlaceView;

    open spec fn view(&self) -> PlaceView {
        PlaceView {
            place: self.place@,
            province: self.province@,
            region: self.region@,
            latitude: self.latitude,
            longitude: self.longitude,
        }
    }
}

/// The place of which nothing is known.
pub open spec fn unknown_place() -> PlaceView {
    PlaceView {
        place: Seq::empty(),
        province: Seq::empty(),
        region: Seq::empty(),
        latitude: None,
        longitude: None,
    }
}

impl Default for LocationInfo {
    fn default() -> (info: LocationInfo)
        ensures
            info@ == unknown_place(),
    {
        LocationInfo {
            place: String::new(),
            province: String::new(),
            region: String::new(),
            latitude: None,
            longitude: None,
        }
    }
}

impl LocationInfo {
    /// A copy of the place.
    pub fn copy(&self) -> (info: LocationInfo)
        ensures
            info@ == self@,
    {
        LocationInfo {
            place: self.place.clone(),
            province: self.province.clone(),
            region: self.region.clone(),
            latitude: self.latitude,
            longitude: self.longitude,
        }
    }
}

/// A name found in a text, and the place that it names.
#[derive(Debug, Clone)]
pub struct FoundLocation {
    pub found_place: String,
    pub info: LocationInfo,
}

/// The texts of a found location.
pub struct FoundView {
    pub found_place: Seq<char>,
    pub info: PlaceView,
}

impl View for FoundLocation {
    type V = FoundView;

    open spec fn view(&self) -> FoundView {
        FoundView { found_place: self.found_place@, info: self.info@ }
    }
}

/// The coordinates of a place name, in millionths of a degree.
#[derive(Debug, Clone)]
pub struct PlaceCoordinates {
    pub place: String,
    pub latitude: i64,
    pub longitude: i64,
}

/// A record of the table of coordinates: the place name and the two
/// coordinates as the table writes them.
#[derive(Debug, Clone)]
pub struct CoordinateRow {
    pub place: String,
    pub latitude: String,
    pub longitude: String,
}

/// What a gazetteer holds: the places by place code, and the names with the
/// place code of each, in the order in which a text is searched for them.
pub struct GazetteerView {
    pub places: Map<Seq<char>, PlaceView>,
    pub names: Seq<(Seq<char>, Seq<char>)>,
}

/// The gazetteer without places and names.
pub open spec fn empty_gazetteer() -> GazetteerView {
    GazetteerView { places: Map::empty(), names: Seq::empty() }
}

/// Whether `name` is among `names`.
pub open spec fn known(names: Seq<(Seq<char>, Seq<char>)>, name: Seq<char>) -> bool {
    exists|i: int| 0 <= i < names.len() && (#[trigger] names[i]).0 == name
}

/// The names after `name` was presented for the place `code`: a name of
/// fewer than three characters is not taken, and a name that is known keeps
/// the place that it has.
pub open spec fn register(names: Seq<(Seq<char>, Seq<char>)>, name: Seq<char>, code: Seq<char>)
    -> Seq<(Seq<char>, Seq<char>)> {
    if name.len() >= 3 && !known(names, name) {
        names.push((name, code))
    } else {
        names
    }
}

/// What is known of the place `code`, if only that nothing is.
pub open spec fn place_at(places: Map<Seq<char>, PlaceView>, code: Seq<char>) -> PlaceView {
    if places.contains_key(code) {
        places[code]
    } else {
        unknown_place()
    }
}

/// The coordinates by place name that a list gives: of two entries for one
/// name the later one stays.
pub open spec fn coordinate_index(table: Seq<PlaceCoordinates>) -> Map<Seq<char>, (i64, i64)>
    decreases table.len(),
{
    if table.len() == 0 {
        Map::empty()
    } else {
        coordinate_index(table.drop_last()).insert(
            table.last().place@,
            (table.last().latitude, table.last().longitude),
        )
    }
}

/// The place with the coordinates of `name`, where the index has them.
pub open spec fn located(place: PlaceView, index: Map<Seq<char>, (i64, i64)>, name: Seq<char>)
    -> PlaceView {
    if index.contains_key(name) {
        PlaceView { latitude: Some(index[name].0), longitude: Some(index[name].1), ..place }
    } else {
        place
    }
}

/// The gazetteer after one record of the table of measures. A record of
/// fewer than six fields counts for nothing. Any other record makes its
/// place known; the measure `GM000C` gives the place its name, with the
/// coordinates of that name, and presents the name as one to search for;
/// `PV0002` gives the province and `LD0002` the region.
pub open spec fn observe(
    state: GazetteerView,
    record: Seq<Seq<char>>,
    index: Map<Seq<char>, (i64, i64)>,
) -> GazetteerView {
    if record.len() < 6 {
        state
    } else {
        let measure = trim(record[1], CharSet::Whitespace);
        let code = trim(record[2], CharSet::Whitespace);
        let value = trim(record[4], CharSet::Whitespace);
        let place = place_at(state.places, code);
        if measure == "GM000C"@ {
            GazetteerView {
                places: state.places.insert(
                    code,
                    located(PlaceView { place: value, ..place }, index, value),
                ),
                names: register(state.names, value, code),
            }
        } else if measure == "PV0002"@ {
            GazetteerView {
                places: state.places.insert(code, PlaceView { province: value, ..place }),
                ..state
            }
        } else if measure == "LD0002"@ {
            GazetteerView {
                places: state.places.insert(code, PlaceView { region: value, ..place }),
                ..state
            }
        } else {
            GazetteerView { places: state.places.insert(code, place), ..state }
        }
    }
}

/// The gazetteer after the records of the table of measures, in order.
pub open spec fn observe_all(
    state: GazetteerView,
    records: Seq<Seq<Seq<char>>>,
    index: Map<Seq<char>, (i64, i64)>,
) -> GazetteerView
    decreases records.len(),
{
    if records.len() == 0 {
        state
    } else {
        observe(observe_all(state, records.drop_last(), index), records.last(), index)
    }
}

/// A field of the table of place codes without its quotes and the white
/// space around it.
pub open spec fn bare(field: Seq<char>) -> Seq<char> {
    trim(trim(field, CharSet::Only('"')), CharSet::Whitespace)
}

/// The gazetteer after one record of the table of place codes. A record of
/// fewer than five fields, or with an empty place code or title, counts for
/// nothing, and so does a title that is known or has fewer than three
/// characters. Any other title becomes a name of its place, and where the
/// place is known it gets the coordinates of the title.
pub open spec fn entitle(
    state: GazetteerView,
    record: Seq<Seq<char>>,
    index: Map<Seq<char>, (i64, i64)>,
) -> GazetteerView {
    if record.len() < 5 {
        state
    } else {
        let code = bare(record[0]);
        let title = bare(record[4]);
        if code.len() > 0 && title.len() >= 3 && !known(state.names, title) {
            GazetteerView {
                places: if state.places.contains_key(code) {
                    state.places.insert(code, located(state.places[code], index, title))
                } else {
                    state.places
                },
                names: state.names.push((title, code)),
            }
        } else {
            state
        }
    }
}

/// The gazetteer after the records of the table of place codes, in order.
pub open spec fn entitle_all(
    state: GazetteerView,
    records: Seq<Seq<Seq<char>>>,
    index: Map<Seq<char>, (i64, i64)>,
) -> GazetteerView
    decreases records.len(),
{
    if records.len() == 0 {
        state
    } else {
        entitle(entitle_all(state, records.drop_last(), index), records.last(), index)
    }
}

/// Where a name of `len` characters goes into names ordered from long to
/// short: behind the last name that is at least as long.
pub open spec fn slot(names: Seq<(Seq<char>, Seq<char>)>, len: nat) -> int
    decreases names.len(),
{
    if names.len() == 0 || names.last().0.len() >= len {
        names.len() as int
    } else {
        slot(names.drop_last(), len)
    }
}

/// The names ordered from long to short; names of one length stay in the
/// order in which they came.
pub open spec fn by_length(names: Seq<(Seq<char>, Seq<char>)>) -> Seq<(Seq<char>, Seq<char>)>
    decreases names.len(),
{
    if names.len() == 0 {
        Seq::empty()
    } else {
        let sorted = by_length(names.drop_last());
        sorted.insert(slot(sorted, names.last().0.len()), names.last())
    }
}

/// The gazetteer that the two tables and the coordinates give.
pub open spec fn gazetteer(
    observations: Seq<Seq<Seq<char>>>,
    codes: Seq<Seq<Seq<char>>>,
    index: Map<Seq<char>, (i64, i64)>,
) -> GazetteerView {
    let merged = entitle_all(observe_all(empty_gazetteer(), observations, index), codes, index);
    GazetteerView { places: merged.places, names: by_length(merged.names) }
}

/// Whether the names run from long to short.
pub open spec fn ordered(names: Seq<(Seq<char>, Seq<char>)>) -> bool {
    forall|i: int, j: int|
        0 <= i <= j < names.len() ==> (#[trigger] names[i]).0.len() >= (#[trigger] names[j]).0.len()
}

/// Whether no name stands twice.
pub open spec fn unique(names: Seq<(Seq<char>, Seq<char>)>) -> bool {
    forall|i: int, j: int|
        0 <= i < names.len() && 0 <= j < names.len() && (#[trigger] names[i]).0 == (
        #[trigger] names[j]).0 ==> i == j
}

/// Whether every name has at least three characters.
pub open spec fn long_enough(names: Seq<(Seq<char>, Seq<char>)>) -> bool {
    forall|i: int| 0 <= i < names.len() ==> (#[trigger] names[i]).0.len() >= 3
}

/// Whether the name at position `i` occurs in `text`, letter case aside, and
/// its place is known.
pub open spec fn hit(view: GazetteerView, text: Seq<char>, i: int) -> bool {
    &&& 0 <= i < view.names.len()
    &&& occurs_in(lowercase(view.names[i].0), lowercase(text))
    &&& view.places.contains_key(view.names[i].1)
}

/// Whether position `i` is the first hit.
pub open spec fn first_hit(view: GazetteerView, text: Seq<char>, i: int) -> bool {
    &&& hit(view, text, i)
    &&& forall|j: int| 0 <= j < i ==> !hit(view, text, j)
}

/// The name at position `i` with its place.
pub open spec fn found_at(view: GazetteerView, i: int) -> FoundView {
    FoundView { found_place: view.names[i].0, info: view.places[view.names[i].1] }
}

/// Whether the names are those of a gazetteer in use: ordered from long to
/// short, none twice, none shorter than three characters.
pub open spec fn well_formed(names: Seq<(Seq<char>, Seq<char>)>) -> bool {
    ordered(names) && unique(names) && long_enough(names)
}

/// The slot lies behind every name at least as long and before every
/// shorter name, where the names are ordered.
pub proof fn lemma_slot(names: Seq<(Seq<char>, Seq<char>)>, len: nat)
    ensures
        0 <= slot(names, len) <= names.len(),
        forall|j: int| slot(names, len) <= j < names.len() ==> (#[trigger] names[j]).0.len() < len,
        slot(names, len) > 0 ==> names[slot(names, len) - 1].0.len() >= len,
    decreases names.len(),
{
    if names.len() == 0 || names.last().0.len() >= len {
    } else {
        lemma_slot(names.drop_last(), len);
        let at = slot(names.drop_last(), len);
        assert forall|j: int| at <= j < names.len() implies (#[trigger] names[j]).0.len() < len by {
            if j < names.len() - 1 {
                assert(names.drop_last()[j] == names[j]);
            }
        }
        if at > 0 {
            assert(names.drop_last()[at - 1] == names[at - 1]);
        }
    }
}

/// Putting a new name into its slot keeps well-formed names well-formed,
/// and adds that name and no other.
pub proof fn lemma_insert_keeps(names: Seq<(Seq<char>, Seq<char>)>, item: (Seq<char>, Seq<char>))
    requires
        well_formed(names),
        item.0.len() >= 3,
        !known(names, item.0),
    ensures
        well_formed(names.insert(slot(names, item.0.len()), item)),
        forall|other: (Seq<char>, Seq<char>)|
            names.insert(slot(names, item.0.len()), item).contains(other) <==> (names.contains(
                other,
            ) || other == item),
{
    let at = slot(names, item.0.len());
    let grown = names.insert(at, item);
    lemma_slot(names, item.0.len());
    assert forall|i: int, j: int| 0 <= i <= j < grown.len() implies (#[trigger] grown[i]).0.len()
        >= (#[trigger] grown[j]).0.len() by {
        let a = if i < at { i } else { i - 1 };
        let b = if j < at { j } else { j - 1 };
        if i != at && j != at {
            assert(grown[i] == names[a]);
            assert(grown[j] == names[b]);
        } else if i == at && j != at {
            assert(grown[j] == names[b]);
        } else if j == at && i != at {
            assert(grown[i] == names[a]);
            if at > 0 {
                assert(names[a].0.len() >= names[at - 1].0.len());
            }
        }
    }
    assert forall|i: int, j: int|
        0 <= i < grown.len() && 0 <= j < grown.len() && (#[trigger] grown[i]).0 == (
        #[trigger] grown[j]).0 implies i == j by {
        let a = if i < at { i } else { i - 1 };
        let b = if j < at { j } else { j - 1 };
        if i != at && j != at {
            assert(grown[i] == names[a]);
            assert(grown[j] == names[b]);
        } else if i == at && j != at {
            assert(grown[j] == names[b]);
        } else if j == at && i != at {
            assert(grown[i] == names[a]);
        }
    }
    assert forall|i: int| 0 <= i < grown.len() implies (#[trigger] grown[i]).0.len() >= 3 by {
        if i != at {
            let a = if i < at { i } else { i - 1 };
            assert(grown[i] == names[a]);
        }
    }
    assert forall|other: (Seq<char>, Seq<char>)|
        grown.contains(other) <==> (names.contains(other) || other == item) by {
        if grown.contains(other) {
            let i = choose|i: int| 0 <= i < grown.len() && grown[i] == other;
            if i != at {
                let a = if i < at { i } else { i - 1 };
                assert(grown[i] == names[a]);
            }
        }
        if names.contains(other) {
            let a = choose|a: int| 0 <= a < names.len() && names[a] == other;
            let i = if a < at { a } else { a + 1 };
            assert(grown[i] == other);
        }
        if other == item {
            assert(grown[at] == other);
        }
    }
}

/// Ordering names that are unique and long enough gives well-formed names,
/// with the same names for the same places.
pub proof fn lemma_by_length(names: Seq<(Seq<char>, Seq<char>)>)
    requires
        unique(names),
        long_enough(names),
    ensures
        well_formed(by_length(names)),
        by_length(names).len() == names.len(),
        forall|other: (Seq<char>, Seq<char>)|
            by_length(names).contains(other) <==> names.contains(other),
    decreases names.len(),
{
    if names.len() > 0 {
        let shorter = names.drop_last();
        let item = names.last();
        assert forall|i: int, j: int|
            0 <= i < shorter.len() && 0 <= j < shorter.len() && (#[trigger] shorter[i]).0 == (
            #[trigger] shorter[j]).0 implies i == j by {
            assert(shorter[i] == names[i]);
            assert(shorter[j] == names[j]);
        }
        assert forall|i: int| 0 <= i < shorter.len() implies (#[trigger] shorter[i]).0.len()
            >= 3 by {
            assert(shorter[i] == names[i]);
        }
        lemma_by_length(shorter);
        let sorted = by_length(shorter);
        if known(sorted, item.0) {
            let i = choose|i: int| 0 <= i < sorted.len() && (#[trigger] sorted[i]).0 == item.0;
            assert(sorted.contains(sorted[i]));
            assert(shorter.contains(sorted[i]));
            let k = choose|k: int| 0 <= k < shorter.len() && shorter[k] == sorted[i];
            assert(names[k] == shorter[k]);
            assert(names[k].0 == names[names.len() - 1].0);
            assert(false);
        }
        lemma_slot(sorted, item.0.len());
        lemma_insert_keeps(sorted, item);
        assert forall|other: (Seq<char>, Seq<char>)|
            by_length(names).contains(other) <==> names.contains(other) by {
            if names.contains(other) {
                let k = choose|k: int| 0 <= k < names.len() && names[k] == other;
                if k < names.len() - 1 {
                    assert(shorter[k] == other);
                    assert(shorter.contains(other));
                }
            }
            if shorter.contains(other) {
                let k = choose|k: int| 0 <= k < shorter.len() && shorter[k] == other;
                assert(names[k] == other);
            }
            if other == item {
                assert(names[names.len() - 1] == other);
            }
        }
    }
}

/// The coordinates by place name that `table` gives.
pub fn index_coordinates(table: &Vec<PlaceCoordinates>) -> (index: TextMap<(i64, i64)>)
    ensures
        index@ == coordinate_index(table@),
{
    let mut index: TextMap<(i64, i64)> = TextMap::new();
    let mut i: usize = 0;
    assert(table@.take(0) == Seq::<PlaceCoordinates>::empty());
    while i < table.len()
        invariant
            i <= table.len(),
            index@ == coordinate_index(table@.take(i as int)),
        decreases table.len() - i,
    {
        assert(table@.take(i + 1).drop_last() == table@.take(i as int));
        let key = to_chars(table[i].place.as_str());
        index = index.insert(key, (table[i].latitude, table[i].longitude));
        i = i + 1;
    }
    assert(table@.take(table.len() as int) == table@);
    index
}

/// The names with the place code of each.
pub open spec fn pairs(names: Seq<Vec<char>>, codes: Seq<Vec<char>>) -> Seq<
    (Seq<char>, Seq<char>),
> {
    Seq::new(names.len(), |i: int| (names[i]@, codes[i]@))
}

/// What a map of places says of each place.
pub open spec fn places_of(map: Map<Seq<char>, LocationInfo>) -> Map<Seq<char>, PlaceView> {
    map.map_values(|info: LocationInfo| info@)
}

/// A gazetteer while the tables are read: the names stand in the order in
/// which they were taken.
struct Draft {
    places: TextMap<LocationInfo>,
    names: Vec<Vec<char>>,
    codes: Vec<Vec<char>>,
}

impl Draft {
    spec fn view(&self) -> GazetteerView {
        GazetteerView {
            places: places_of(self.places@),
            names: pairs(self.names@, self.codes@),
        }
    }

    spec fn sound(&self) -> bool {
        &&& self.names@.len() == self.codes@.len()
        &&& unique(self.view().names)
        &&& long_enough(self.view().names)
    }

    /// Whether `name` was taken.
    fn knows(&self, name: &Vec<char>) -> (found: bool)
        requires
            self.sound(),
        ensures
            found == known(self.view().names, name@),
    {
        let mut i: usize = 0;
        while i < self.names.len()
            invariant
                i <= self.names.len(),
                self.names@.len() == self.codes@.len(),
                forall|k: int| 0 <= k < i ==> (#[trigger] self.view().names[k]).0 != name@,
            decreases self.names.len() - i,
        {
            if same(&self.names[i], name) {
                assert(self.view().names[i as int].0 == name@);
                return true;
            }
            i = i + 1;
        }
        false
    }

    /// Takes `name` as a name of the place `code`. The name must be new and
    /// of three characters or more.
    fn take(self, name: Vec<char>, code: Vec<char>) -> (draft: Draft)
        requires
            self.sound(),
            name@.len() >= 3,
            !known(self.view().names, name@),
        ensures
            draft.sound(),
            draft.view().places == self.view().places,
            draft.view().names == self.view().names.push((name@, code@)),
    {
        let ghost before = self.view().names;
        let Draft { places, mut names, mut codes } = self;
        names.push(name);
        codes.push(code);
        let draft = Draft { places, names, codes };
        proof {
            assert(draft.view().names =~= before.push((name@, code@)));
            lemma_push_keeps(before, (name@, code@));
        }
        draft
    }

    /// Files `info` under the place `code`.
    fn file(self, code: Vec<char>, info: LocationInfo) -> (draft: Draft)
        requires
            self.sound(),
        ensures
            draft.sound(),
            draft.view().places == self.view().places.insert(code@, info@),
            draft.view().names == self.view().names,
    {
        let ghost before = self.places@;
        let Draft { places, names, codes } = self;
        let places = places.insert(code, info);
        assert(places_of(places@) =~= places_of(before).insert(code@, info@));
        Draft { places, names, codes }
    }

    /// What is known of the place `code`, if only that nothing is.
    fn place(&self, code: &Vec<char>) -> (info: LocationInfo)
        ensures
            info@ == place_at(self.view().places, code@),
    {
        match self.places.get(code) {
            Some(found) => found.copy(),
            None => LocationInfo::default(),
        }
    }
}

/// The place with the coordinates of `name`, where the index has them.
fn locate(info: LocationInfo, index: &TextMap<(i64, i64)>, name: &Vec<char>) -> (placed:
    LocationInfo)
    ensures
        placed@ == located(info@, index@, name@),
{
    match index.get(name) {
        Some(found) => LocationInfo {
            place: info.place,
            province: info.province,
            region: info.region,
            latitude: Some(found.0),
            longitude: Some(found.1),
        },
        None => info,
    }
}

/// The draft after one record of the table of measures.
fn observe_record(draft: Draft, record: &Vec<String>, index: &TextMap<(i64, i64)>) -> (next: Draft)
    requires
        draft.sound(),
    ensures
        next.sound(),
        next.view() == observe(draft.view(), texts(record@), index@),
{
    if record.len() < 6 {
        return draft;
    }
    let measure = trimmed(&to_chars(record[1].as_str()), CharSet::Whitespace);
    let code = trimmed(&to_chars(record[2].as_str()), CharSet::Whitespace);
    let value = trimmed(&to_chars(record[4].as_str()), CharSet::Whitespace);
    let place = draft.place(&code);
    if same(&measure, &to_chars("GM000C")) {
        let named = LocationInfo {
            place: to_text(&value),
            province: place.province,
            region: place.region,
            latitude: place.latitude,
            longitude: place.longitude,
        };
        let placed = locate(named, index, &value);
        let fresh = value.len() >= 3 && !draft.knows(&value);
        let filed = draft.file(slice(&code, 0, code.len()), placed);
        assert(code@.subrange(0, code@.len() as int) == code@);
        if fresh {
            filed.take(value, code)
        } else {
            filed
        }
    } else if same(&measure, &to_chars("PV0002")) {
        let changed = LocationInfo {
            place: place.place,
            province: to_text(&value),
            region: place.region,
            latitude: place.latitude,
            longitude: place.longitude,
        };
        draft.file(code, changed)
    } else if same(&measure, &to_chars("LD0002")) {
        let changed = LocationInfo {
            place: place.place,
            province: place.province,
            region: to_text(&value),
            latitude: place.latitude,
            longitude: place.longitude,
        };
        draft.file(code, changed)
    } else {
        draft.file(code, place)
    }
}

/// A field of the table of place codes without its quotes and the white
/// space around it.
fn strip(field: &String) -> (inner: Vec<char>)
    ensures
        inner@ == bare(field@),
{
    let unquoted = trimmed(&to_chars(field.as_str()), CharSet::Only('"'));
    trimmed(&unquoted, CharSet::Whitespace)
}

/// The draft after one record of the table of place codes.
fn entitle_record(draft: Draft, record: &Vec<String>, index: &TextMap<(i64, i64)>) -> (next: Draft)
    requires
        draft.sound(),
    ensures
        next.sound(),
        next.view() == entitle(draft.view(), texts(record@), index@),
{
    if record.len() < 5 {
        return draft;
    }
    let code = strip(&record[0]);
    let title = strip(&record[4]);
    if code.len() > 0 && title.len() >= 3 && !draft.knows(&title) {
        let known_place = match draft.places.get(&code) {
            Some(found) => Some(found.copy()),
            None => None,
        };
        let filed = match known_place {
            Some(info) => {
                let placed = locate(info, index, &title);
                let copy = slice(&code, 0, code.len());
                assert(copy@ == code@);
                draft.file(copy, placed)
            },
            None => draft,
        };
        filed.take(title, code)
    } else {
        draft
    }
}

/// The names ordered from long to short, each with its place code.
fn order_names(names: &Vec<Vec<char>>, codes: &Vec<Vec<char>>) -> (sorted: (
    Vec<Vec<char>>,
    Vec<Vec<char>>,
))
    requires
        names.len() == codes.len(),
    ensures
        sorted.0.len() == sorted.1.len(),
        pairs(sorted.0@, sorted.1@) == by_length(pairs(names@, codes@)),
{
    let ghost all = pairs(names@, codes@);
    let mut out_names: Vec<Vec<char>> = Vec::new();
    let mut out_codes: Vec<Vec<char>> = Vec::new();
    let mut i: usize = 0;
    assert(all.take(0) == Seq::<(Seq<char>, Seq<char>)>::empty());
    assert(pairs(out_names@, out_codes@) == Seq::<(Seq<char>, Seq<char>)>::empty());
    while i < names.len()
        invariant
            i <= names.len(),
            names.len() == codes.len(),
            all == pairs(names@, codes@),
            out_names.len() == out_codes.len(),
            pairs(out_names@, out_codes@) == by_length(all.take(i as int)),
        decreases names.len() - i,
    {
        let ghost sorted = pairs(out_names@, out_codes@);
        let len = names[i].len();
        let mut at: usize = out_names.len();
        assert(sorted.take(at as int) == sorted);
        while at > 0 && out_names[at - 1].len() < len
            invariant
                at <= out_names.len(),
                out_names.len() == out_codes.len(),
                sorted == pairs(out_names@, out_codes@),
                slot(sorted, len as nat) == slot(sorted.take(at as int), len as nat),
            decreases at,
        {
            assert(sorted.take(at as int).last() == sorted[at - 1]);
            assert(sorted.take(at as int).drop_last() == sorted.take(at - 1));
            at = at - 1;
        }
        proof {
            if at > 0 {
                assert(sorted.take(at as int).last() == sorted[at - 1]);
            }
            assert(slot(sorted, len as nat) == at);
            assert(all.take(i + 1).drop_last() == all.take(i as int));
            assert(all.take(i + 1).last() == (names@[i as int]@, codes@[i as int]@));
        }
        let name = slice(&names[i], 0, names[i].len());
        let code = slice(&codes[i], 0, codes[i].len());
        assert(name@ == names@[i as int]@);
        assert(code@ == codes@[i as int]@);
        out_names.insert(at, name);
        out_codes.insert(at, code);
        assert(pairs(out_names@, out_codes@) == sorted.insert(at as int, (name@, code@)));
        i = i + 1;
    }
    assert(all.take(names.len() as int) == all);
    (out_names, out_codes)
}

/// The lower-case form of each name.
fn lower_all(names: &Vec<Vec<char>>) -> (lowered: Vec<Vec<char>>)
    ensures
        lowered.len() == names.len(),
        forall|i: int| 0 <= i < names.len() ==> (#[trigger] lowered@[i])@ == lowercase(names@[i]@),
        forall|i: int|
            0 <= i < names.len() && names@[i]@.len() > 0 ==> (#[trigger] lowered@[i])@.len() > 0,
{
    let mut lowered: Vec<Vec<char>> = Vec::new();
    let mut i: usize = 0;
    while i < names.len()
        invariant
            i <= names.len(),
            lowered.len() == i,
            forall|k: int| 0 <= k < i ==> (#[trigger] lowered@[k])@ == lowercase(names@[k]@),
            forall|k: int|
                0 <= k < i && names@[k]@.len() > 0 ==> (#[trigger] lowered@[k])@.len() > 0,
        decreases names.len() - i,
    {
        let text = to_text(&names[i]);
        let lower = text.as_str().to_lowercase();
        lowered.push(to_chars(lower.as_str()));
        i = i + 1;
    }
    lowered
}

/// The records of the table of coordinates that have six fields or more:
/// of each the place name, bare, and the two coordinates as written.
pub open spec fn candidates(records: Seq<Seq<Seq<char>>>) -> Seq<(Seq<char>, Seq<char>, Seq<char>)>
    decreases records.len(),
{
    if records.len() == 0 {
        Seq::empty()
    } else if records.last().len() < 6 {
        candidates(records.drop_last())
    } else {
        candidates(records.drop_last()).push(
            (bare(records.last()[1]), records.last()[4], records.last()[5]),
        )
    }
}

/// The texts of a list of candidate rows.
pub open spec fn candidate_views(found: Seq<CoordinateRow>) -> Seq<
    (Seq<char>, Seq<char>, Seq<char>),
> {
    Seq::new(found.len(), |i: int| (found[i].place@, found[i].latitude@, found[i].longitude@))
}

/// The candidate rows among the records of the table of coordinates.
pub fn candidate_rows(records: &Vec<Vec<String>>) -> (found: Vec<CoordinateRow>)
    ensures
        candidate_views(found@) == candidates(tables(records@)),
{
    let mut found: Vec<CoordinateRow> = Vec::new();
    let mut i: usize = 0;
    assert(tables(records@).take(0) == Seq::<Seq<Seq<char>>>::empty());
    assert(candidate_views(found@) == Seq::<(Seq<char>, Seq<char>, Seq<char>)>::empty());
    while i < records.len()
        invariant
            i <= records.len(),
            candidate_views(found@) == candidates(tables(records@).take(i as int)),
        decreases records.len() - i,
    {
        let record = &records[i];
        proof {
            let upto = tables(records@).take(i + 1);
            assert(upto.drop_last() == tables(records@).take(i as int));
            assert(upto.last() == texts(record@));
        }
        if record.len() >= 6 {
            let ghost before = candidate_views(found@);
            let row = CoordinateRow {
                place: to_text(&strip(&record[1])),
                latitude: record[4].clone(),
                longitude: record[5].clone(),
            };
            found.push(row);
            assert(candidate_views(found@) == before.push(
                (row.place@, row.latitude@, row.longitude@),
            ));
        }
        i = i + 1;
    }
    assert(tables(records@).take(records.len() as int) == tables(records@));
    found
}

/// Reads the table of coordinates, records delimited by `,` under a header,
/// and gives its candidate rows. Records that the reader rejects are
/// passed over.
pub fn coordinate_rows(data: &[u8]) -> (found: Vec<CoordinateRow>)
    ensures
        candidate_views(found@) == candidates(readable(csv_records(data@, COMMA, true, false))),
{
    let records = read_records(data, COMMA, true, false);
    let rows = tolerated(&records);
    candidate_rows(&rows)
}

/// The gazetteer.
pub struct LocationLookup {
    places: TextMap<LocationInfo>,
    names: Vec<Vec<char>>,
    codes: Vec<Vec<char>>,
    lowered: Vec<Vec<char>>,
}

impl View for LocationLookup {
    type V = GazetteerView;

    closed spec fn view(&self) -> GazetteerView {
        GazetteerView {
            places: places_of(self.places@),
            names: pairs(self.names@, self.codes@),
        }
    }
}

impl Default for LocationLookup {
    fn default() -> (lookup: LocationLookup)
        ensures
            lookup@ == gazetteer(Seq::empty(), Seq::empty(), Map::empty()),
    {
        let records: Vec<Vec<String>> = Vec::new();
        let coordinates: Vec<PlaceCoordinates> = Vec::new();
        assert(tables(records@) == Seq::<Seq<Seq<char>>>::empty());
        LocationLookup::from_records(&records, &records, &coordinates)
    }
}

impl LocationLookup {
    #[verifier::type_invariant]
    spec fn sound(&self) -> bool {
        &&& self.names@.len() == self.codes@.len()
        &&& self.names@.len() == self.lowered@.len()
        &&& forall|i: int|
            0 <= i < self.names@.len() ==> (#[trigger] self.lowered@[i])@ == lowercase(
                self.names@[i]@,
            )
        &&& forall|i: int| 0 <= i < self.names@.len() ==> (#[trigger] self.lowered@[i])@.len() > 0
        &&& well_formed(pairs(self.names@, self.codes@))
    }

    /// The gazetteer that the records of the two tables and the coordinates
    /// give.
    pub fn from_records(
        observations: &Vec<Vec<String>>,
        codes: &Vec<Vec<String>>,
        coordinates: &Vec<PlaceCoordinates>,
    ) -> (lookup: LocationLookup)
        ensures
            lookup@ == gazetteer(
                tables(observations@),
                tables(codes@),
                coordinate_index(coordinates@),
            ),
            well_formed(lookup@.names),
    {
        let index = index_coordinates(coordinates);
        let mut draft = Draft { places: TextMap::new(), names: Vec::new(), codes: Vec::new() };
        assert(draft.view().names == Seq::<(Seq<char>, Seq<char>)>::empty());
        assert(draft.view().places =~= Map::<Seq<char>, PlaceView>::empty());
        assert(draft.view() == empty_gazetteer());
        let mut i: usize = 0;
        assert(tables(observations@).take(0) == Seq::<Seq<Seq<char>>>::empty());
        while i < observations.len()
            invariant
                i <= observations.len(),
                draft.sound(),
                draft.view() == observe_all(
                    empty_gazetteer(),
                    tables(observations@).take(i as int),
                    index@,
                ),
            decreases observations.len() - i,
        {
            proof {
                let upto = tables(observations@).take(i + 1);
                assert(upto.drop_last() == tables(observations@).take(i as int));
                assert(upto.last() == texts(observations@[i as int]@));
            }
            draft = observe_record(draft, &observations[i], &index);
            i = i + 1;
        }
        assert(tables(observations@).take(observations.len() as int) == tables(observations@));
        let ghost observed = draft.view();
        let mut k: usize = 0;
        assert(tables(codes@).take(0) == Seq::<Seq<Seq<char>>>::empty());
        while k < codes.len()
            invariant
                k <= codes.len(),
                draft.sound(),
                draft.view() == entitle_all(observed, tables(codes@).take(k as int), index@),
            decreases codes.len() - k,
        {
            proof {
                let upto = tables(codes@).take(k + 1);
                assert(upto.drop_last() == tables(codes@).take(k as int));
                assert(upto.last() == texts(codes@[k as int]@));
            }
            draft = entitle_record(draft, &codes[k], &index);
            k = k + 1;
        }
        assert(tables(codes@).take(codes.len() as int) == tables(codes@));
        proof {
            lemma_by_length(draft.view().names);
        }
        let (names, place_codes) = order_names(&draft.names, &draft.codes);
        let lowered = lower_all(&names);
        proof {
            assert forall|i: int| 0 <= i < names@.len() implies (#[trigger] lowered@[i])@.len()
                > 0 by {
                assert(pairs(names@, place_codes@)[i].0 == names@[i]@);
            }
        }
        let Draft { places, names: _, codes: _ } = draft;
        LocationLookup { places, names, codes: place_codes, lowered }
    }

    /// Reads the table of measures and the table of place codes, both of
    /// records delimited by `;` under a header, and builds the gazetteer
    /// with the coordinates given. Fails where the reader rejects a record,
    /// with the first such record of the first such table.
    pub fn load(observations: &[u8], regios_codes: &[u8], coordinates: &Vec<PlaceCoordinates>) -> (result:
        Result<LocationLookup, LoadError>)
        ensures
            match result {
                Ok(lookup) => {
                    &&& first_rejected(csv_records(observations@, SEMICOLON, true, false)) is None
                    &&& first_rejected(csv_records(regios_codes@, SEMICOLON, true, false)) is None
                    &&& lookup@ == gazetteer(
                        readable(csv_records(observations@, SEMICOLON, true, false)),
                        readable(csv_records(regios_codes@, SEMICOLON, true, false)),
                        coordinate_index(coordinates@),
                    )
                    &&& well_formed(lookup@.names)
                },
                Err(error) => {
                    ||| (first_rejected(csv_records(observations@, SEMICOLON, true, false)) == Some(
                        error.record as int,
                    ) && error.source == Source::Observations)
                    ||| (first_rejected(csv_records(observations@, SEMICOLON, true, false)) is None
                        && first_rejected(csv_records(regios_codes@, SEMICOLON, true, false)) == Some(
                        error.record as int,
                    ) && error.source == Source::RegioCodes)
                },
            },
    {
        let measures = match accepted(&read_records(observations, SEMICOLON, true, false), Source::Observations) {
            Ok(rows) => rows,
            Err(error) => {
                return Err(error);
            },
        };
        let titles = match accepted(&read_records(regios_codes, SEMICOLON, true, false), Source::RegioCodes) {
            Ok(rows) => rows,
            Err(error) => {
                return Err(error);
            },
        };
        Ok(LocationLookup::from_records(&measures, &titles, coordinates))
    }

    /// What is known of the place `wp_code`.
    pub fn resolve(&self, wp_code: &str) -> (found: Option<&LocationInfo>)
        ensures
            match found {
                Some(info) => self@.places.contains_key(wp_code@) && info@ == self@.places[wp_code@],
                None => !self@.places.contains_key(wp_code@),
            },
    {
        self.places.get(&to_chars(wp_code))
    }

    /// The first name, in the order from long to short, that occurs in
    /// `text`, letter case aside, and whose place is known; with that place.
    /// No other name that occurs so is longer.
    pub fn find_location_by_text(&self, text: &str) -> (found: Option<FoundLocation>)
        ensures
            match found {
                Some(location) => exists|i: int|
                    first_hit(self@, text@, i) && location@ == found_at(self@, i),
                None => forall|i: int| !hit(self@, text@, i),
            },
            found matches Some(location) ==> forall|j: int|
                hit(self@, text@, j) ==> self@.names[j].0.len() <= location@.found_place.len(),
            text@.len() == 0 ==> found is None,
    {
        proof {
            use_type_invariant(self);
        }
        let lower = text.to_lowercase();
        let haystack = to_chars(lower.as_str());
        let mut i: usize = 0;
        while i < self.names.len()
            invariant
                i <= self.names.len(),
                self.names@.len() == self.codes@.len(),
                self.names@.len() == self.lowered@.len(),
                forall|k: int|
                    0 <= k < self.names@.len() ==> (#[trigger] self.lowered@[k])@ == lowercase(
                        self.names@[k]@,
                    ),
                well_formed(self@.names),
                haystack@ == lowercase(text@),
                haystack@.len() == 0 <==> text@.len() == 0,
                forall|k: int|
                    0 <= k < self.names@.len() ==> (#[trigger] self.lowered@[k])@.len() > 0,
                forall|k: int| 0 <= k < i ==> !hit(self@, text@, k),
            decreases self.names.len() - i,
        {
            assert(self@.names[i as int] == (self.names@[i as int]@, self.codes@[i as int]@));
            if occurs(&self.lowered[i], &haystack) {
                match self.places.get(&self.codes[i]) {
                    Some(info) => {
                        let location = FoundLocation {
                            found_place: to_text(&self.names[i]),
                            info: info.copy(),
                        };
                        assert(first_hit(self@, text@, i as int));
                        assert(location@ == found_at(self@, i as int));
                        assert forall|j: int| hit(self@, text@, j) implies self@.names[j].0.len()
                            <= location@.found_place.len() by {
                            assert(j >= i);
                        }
                        return Some(location);
                    },
                    None => {},
                }
            }
            i = i + 1;
        }
        None
    }
}

/// A text as a part to show: trimmed, and left out where it is empty.
pub open spec fn shown(text: Seq<char>) -> Seq<Seq<char>> {
    if text.len() > 0 {
        seq![trim(text, CharSet::Whitespace)]
    } else {
        Seq::empty()
    }
}

/// The parts that describe a place: its name, province and region.
pub open spec fn info_parts(info: PlaceView) -> Seq<Seq<char>> {
    shown(info.place) + shown(info.province) + shown(info.region)
}

/// The line that describes a place.
pub open spec fn info_text(info: PlaceView) -> Seq<char> {
    join(info_parts(info), ", "@)
}

/// The line that describes the place `code`: the code itself where the
/// place is not known.
pub open spec fn place_text(view: GazetteerView, code: Seq<char>) -> Seq<char> {
    if view.places.contains_key(code) {
        info_text(view.places[code])
    } else {
        code
    }
}

/// `n` written in base ten with `width` digits, the lowest ones.
pub open spec fn fixed(n: nat, width: nat) -> Seq<char>
    decreases width,
{
    if width == 0 {
        Seq::empty()
    } else {
        fixed(n / 10, (width - 1) as nat).push(digit(n % 10))
    }
}

/// How far `value` is from zero.
pub open spec fn magnitude(value: i64) -> nat {
    if value < 0 {
        (-(value as int)) as nat
    } else {
        value as nat
    }
}

/// Millionths of a degree written as degrees with six decimals.
pub open spec fn degrees(value: i64) -> Seq<char> {
    let sign = if value < 0 {
        seq!['-']
    } else {
        Seq::empty()
    };
    sign + decimal(magnitude(value) / 1000000) + seq!['.'] + fixed(magnitude(value) % 1000000, 6)
}

/// The name under which a found location is shown: the name found, with the
/// name of the place in brackets where the two differ.
pub open spec fn found_name(found: FoundView) -> Seq<char> {
    let name = trim(found.found_place, CharSet::Whitespace);
    let place = trim(found.info.place, CharSet::Whitespace);
    if name != place {
        name + " ("@ + place + ")"@
    } else {
        name
    }
}

/// The coordinates of a place as a part to show, where it has both.
pub open spec fn position_part(info: PlaceView) -> Seq<Seq<char>> {
    if info.latitude is Some && info.longitude is Some {
        seq!["["@ + degrees(info.latitude->0) + ", "@ + degrees(info.longitude->0) + "]"@]
    } else {
        Seq::empty()
    }
}

/// The parts that describe a found location.
pub open spec fn found_parts(found: FoundView) -> Seq<Seq<char>> {
    seq![found_name(found)] + shown(found.info.province) + shown(found.info.region)
        + position_part(found.info)
}

/// The line that describes a found location.
pub open spec fn found_text(found: FoundView) -> Seq<char> {
    join(found_parts(found), " | "@)
}

/// `n` written in base ten with `width` digits, the lowest ones.
pub fn fixed_chars(n: u64, width: u8) -> (chars: Vec<char>)
    ensures
        chars@ == fixed(n as nat, width as nat),
    decreases width,
{
    if width == 0 {
        Vec::new()
    } else {
        let mut chars = fixed_chars(n / 10, width - 1);
        chars.push(digit_char(n % 10));
        chars
    }
}

/// Millionths of a degree written as degrees with six decimals.
pub fn degrees_chars(value: i64) -> (chars: Vec<char>)
    ensures
        chars@ == degrees(value),
{
    let mut chars: Vec<char> = Vec::new();
    let size: u64 = if value < 0 {
        chars.push('-');
        ((-(value + 1)) as u64) + 1
    } else {
        value as u64
    };
    assert(size == magnitude(value));
    let ghost sign = chars@;
    append(&mut chars, &decimal_chars(size / 1000000));
    chars.push('.');
    append(&mut chars, &fixed_chars(size % 1000000, 6));
    assert(chars@ == sign + decimal(magnitude(value) / 1000000) + seq!['.'] + fixed(
        magnitude(value) % 1000000,
        6,
    ));
    chars
}

/// Adds `text` to `parts` as a part to show.
fn show(parts: &mut Vec<Vec<char>>, text: &String)
    ensures
        rows(final(parts)@) == rows(old(parts)@) + shown(text@),
{
    let ghost before = rows(parts@);
    if !text.as_str().is_empty() {
        let inner = trimmed(&to_chars(text.as_str()), CharSet::Whitespace);
        parts.push(inner);
        assert(rows(parts@) == before.push(trim(text@, CharSet::Whitespace)));
        assert(before.push(trim(text@, CharSet::Whitespace)) == before + shown(text@));
    } else {
        assert(before + shown(text@) == before);
    }
}

impl LocationLookup {
    /// The line that describes a place.
    pub fn format_info(&self, info: &LocationInfo) -> (line: String)
        ensures
            line@ == info_text(info@),
    {
        let mut parts: Vec<Vec<char>> = Vec::new();
        assert(rows(parts@) == Seq::<Seq<char>>::empty());
        show(&mut parts, &info.place);
        show(&mut parts, &info.province);
        show(&mut parts, &info.region);
        assert(rows(parts@) == info_parts(info@));
        let line = join_rows(&parts, 0, &to_chars(", "));
        assert(rows(parts@).skip(0) == rows(parts@));
        to_text(&line)
    }

    /// The line that describes the place `wp_code`: the code itself where
    /// the place is not known.
    pub fn format(&self, wp_code: &str) -> (line: String)
        ensures
            line@ == place_text(self@, wp_code@),
    {
        match self.resolve(wp_code) {
            Some(info) => self.format_info(info),
            None => wp_code.to_owned(),
        }
    }

    /// The line that describes a found location.
    pub fn format_found_location(&self, found: &FoundLocation) -> (line: String)
        ensures
            line@ == found_text(found@),
    {
        let name = trimmed(&to_chars(found.found_place.as_str()), CharSet::Whitespace);
        let place = trimmed(&to_chars(found.info.place.as_str()), CharSet::Whitespace);
        let mut first: Vec<char> = slice(&name, 0, name.len());
        assert(first@ == name@);
        if !same(&name, &place) {
            append(&mut first, &to_chars(" ("));
            append(&mut first, &place);
            append(&mut first, &to_chars(")"));
        }
        assert(first@ == found_name(found@));
        let mut parts: Vec<Vec<char>> = Vec::new();
        parts.push(first);
        assert(rows(parts@) == seq![found_name(found@)]);
        show(&mut parts, &found.info.province);
        show(&mut parts, &found.info.region);
        let ghost before = rows(parts@);
        match (found.info.latitude, found.info.longitude) {
            (Some(latitude), Some(longitude)) => {
                let mut position = to_chars("[");
                append(&mut position, &degrees_chars(latitude));
                append(&mut position, &to_chars(", "));
                append(&mut position, &degrees_chars(longitude));
                append(&mut position, &to_chars("]"));
                parts.push(position);
                assert(rows(parts@) == before.push(position@));
                assert(before.push(position@) == before + position_part(found@.info));
            },
            _ => {
                assert(before + position_part(found@.info) == before);
            },
        }
        assert(rows(parts@) == found_parts(found@));
        let line = join_rows(&parts, 0, &to_chars(" | "));
        assert(rows(parts@).skip(0) == rows(parts@));
        to_text(&line)
    }
}

/// Among the names that occur in a text, with a known place, none is
/// longer than the first in the order of well-formed names.
pub proof fn lemma_first_hit_is_longest(view: GazetteerView, text: Seq<char>, i: int, j: int)
    requires
        ordered(view.names),
        first_hit(view, text, i),
        hit(view, text, j),
    ensures
        view.names[j].0.len() <= view.names[i].0.len(),
{
    assert(j >= i);
}

/// A new name of three characters or more, added behind names that are
/// unique and long enough, leaves them so.
pub proof fn lemma_push_keeps(names: Seq<(Seq<char>, Seq<char>)>, item: (Seq<char>, Seq<char>))
    requires
        unique(names),
        long_enough(names),
        item.0.len() >= 3,
        !known(names, item.0),
    ensures
        unique(names.push(item)),
        long_enough(names.push(item)),
{
    let after = names.push(item);
    assert forall|i: int, j: int|
        0 <= i < after.len() && 0 <= j < after.len() && (#[trigger] after[i]).0 == (
        #[trigger] after[j]).0 implies i == j by {
        if i < names.len() {
            assert(after[i] == names[i]);
        }
        if j < names.len() {
            assert(after[j] == names[j]);
        }
    }
    assert forall|i: int| 0 <= i < after.len() implies (#[trigger] after[i]).0.len() >= 3 by {
        if i < names.len() {
            assert(after[i] == names[i]);
        }
    }
}

/// Whether `before` is the beginning of `after`.
pub open spec fn begins(after: Seq<(Seq<char>, Seq<char>)>, before: Seq<(Seq<char>, Seq<char>)>)
    -> bool {
    before.len() <= after.len() && after.take(before.len() as int) == before
}

/// A record of either table leaves every name that was taken with the place
/// that it has, and leaves the names unique and long enough.
pub proof fn lemma_record_keeps_names(
    state: GazetteerView,
    record: Seq<Seq<char>>,
    index: Map<Seq<char>, (i64, i64)>,
)
    requires
        unique(state.names),
        long_enough(state.names),
    ensures
        begins(observe(state, record, index).names, state.names),
        unique(observe(state, record, index).names),
        long_enough(observe(state, record, index).names),
        begins(entitle(state, record, index).names, state.names),
        unique(entitle(state, record, index).names),
        long_enough(entitle(state, record, index).names),
{
    let observed = observe(state, record, index).names;
    if observed != state.names {
        let value = trim(record[4], CharSet::Whitespace);
        let code = trim(record[2], CharSet::Whitespace);
        assert(observed == state.names.push((value, code)));
        lemma_push_keeps(state.names, (value, code));
        assert(observed.take(state.names.len() as int) == state.names);
    } else {
        assert(observed.take(state.names.len() as int) == state.names);
    }
    let entitled = entitle(state, record, index).names;
    if entitled != state.names {
        let title = bare(record[4]);
        let code = bare(record[0]);
        assert(entitled == state.names.push((title, code)));
        lemma_push_keeps(state.names, (title, code));
        assert(entitled.take(state.names.len() as int) == state.names);
    } else {
        assert(entitled.take(state.names.len() as int) == state.names);
    }
}

/// The records of the table of measures leave every name that was taken
/// with the place that it has.
pub proof fn lemma_observe_all_keeps_names(
    state: GazetteerView,
    records: Seq<Seq<Seq<char>>>,
    index: Map<Seq<char>, (i64, i64)>,
)
    requires
        unique(state.names),
        long_enough(state.names),
    ensures
        begins(observe_all(state, records, index).names, state.names),
        unique(observe_all(state, records, index).names),
        long_enough(observe_all(state, records, index).names),
    decreases records.len(),
{
    if records.len() == 0 {
        assert(state.names.take(state.names.len() as int) == state.names);
    } else {
        lemma_observe_all_keeps_names(state, records.drop_last(), index);
        let middle = observe_all(state, records.drop_last(), index);
        lemma_record_keeps_names(middle, records.last(), index);
        let after = observe(middle, records.last(), index).names;
        assert(after.take(state.names.len() as int) == after.take(middle.names.len() as int).take(
            state.names.len() as int,
        ));
    }
}

/// The records of the table of place codes leave every name that was taken
/// with the place that it has.
pub proof fn lemma_entitle_all_keeps_names(
    state: GazetteerView,
    records: Seq<Seq<Seq<char>>>,
    index: Map<Seq<char>, (i64, i64)>,
)
    requires
        unique(state.names),
        long_enough(state.names),
    ensures
        begins(entitle_all(state, records, index).names, state.names),
        unique(entitle_all(state, records, index).names),
        long_enough(entitle_all(state, records, index).names),
    decreases records.len(),
{
    if records.len() == 0 {
        assert(state.names.take(state.names.len() as int) == state.names);
    } else {
        lemma_entitle_all_keeps_names(state, records.drop_last(), index);
        let middle = entitle_all(state, records.drop_last(), index);
        lemma_record_keeps_names(middle, records.last(), index);
        let after = entitle(middle, records.last(), index).names;
        assert(after.take(state.names.len() as int) == after.take(middle.names.len() as int).take(
            state.names.len() as int,
        ));
    }
}

/// The names of a gazetteer are well-formed: ordered from long to short,
/// none twice, none shorter than three characters.
pub proof fn lemma_gazetteer_is_well_formed(
    observations: Seq<Seq<Seq<char>>>,
    codes: Seq<Seq<Seq<char>>>,
    index: Map<Seq<char>, (i64, i64)>,
)
    ensures
        well_formed(gazetteer(observations, codes, index).names),
{
    let start = empty_gazetteer();
    lemma_observe_all_keeps_names(start, observations, index);
    let observed = observe_all(start, observations, index);
    lemma_entitle_all_keeps_names(observed, codes, index);
    lemma_by_length(entitle_all(observed, codes, index).names);
}

/// The first place wins. A name that was taken for a place keeps that place
/// whatever records follow: the gazetteer built from there on holds the
/// name with that place, and with no other.
pub proof fn lemma_first_place_wins(
    state: GazetteerView,
    observations: Seq<Seq<Seq<char>>>,
    codes: Seq<Seq<Seq<char>>>,
    index: Map<Seq<char>, (i64, i64)>,
    i: int,
)
    requires
        unique(state.names),
        long_enough(state.names),
        0 <= i < state.names.len(),
    ensures
        by_length(entitle_all(observe_all(state, observations, index), codes, index).names).contains(
            state.names[i],
        ),
        forall|other: (Seq<char>, Seq<char>)|
            by_length(
                entitle_all(observe_all(state, observations, index), codes, index).names,
            ).contains(other) && other.0 == state.names[i].0 ==> other == state.names[i],
{
    lemma_observe_all_keeps_names(state, observations, index);
    let observed = observe_all(state, observations, index);
    lemma_entitle_all_keeps_names(observed, codes, index);
    let merged = entitle_all(observed, codes, index).names;
    lemma_by_length(merged);
    let sorted = by_length(merged);
    assert(observed.names[i] == observed.names.take(state.names.len() as int)[i]);
    assert(merged[i] == merged.take(observed.names.len() as int)[i]);
    assert(merged[i] == state.names[i]);
    assert(merged.contains(state.names[i]));
    assert forall|other: (Seq<char>, Seq<char>)|
        sorted.contains(other) && other.0 == state.names[i].0 implies other == state.names[i] by {
        assert(merged.contains(other));
        let k = choose|k: int| 0 <= k < merged.len() && merged[k] == other;
        assert(merged[k].0 == merged[i].0);
    }
}

/// A name that is known is not taken again: presenting it for another place
/// changes nothing.
pub proof fn lemma_known_name_is_not_taken(
    names: Seq<(Seq<char>, Seq<char>)>,
    name: Seq<char>,
    code: Seq<char>,
)
    requires
        known(names, name),
    ensures
        register(names, name, code) == names,
{
}

} // verus!
