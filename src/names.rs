//! Place names of a generated map and the rules that pick them.
use vstd::prelude::*;

verus! {

/// A place name with its reading.
#[derive(Clone, Debug)]
pub struct Name {
    name: String,
    reading: String,
}

impl View for Name {
    type V = (Seq<char>, Seq<char>);

    closed spec fn view(&self) -> (Seq<char>, Seq<char>) {
        (self.name@, self.reading@)
    }
}

impl Name {
    /// Builds a name from `(name, reading)`.
    pub fn from_tuple(tuple: (String, String)) -> (r: Name)
        ensures
            r@ == (tuple.0@, tuple.1@),
    {
        Name { name: tuple.0, reading: tuple.1 }
    }

    /// The written name.
    pub fn name(&self) -> (r: String)
        ensures
            r@ == self@.0,
    {
        self.name.clone()
    }

    /// How the name is read.
    pub fn reading(&self) -> (r: String)
        ensures
            r@ == self@.1,
    {
        self.reading.clone()
    }

    fn duplicate(&self) -> (r: Name)
        ensures
            r@ == self@,
    {
        Name { name: self.name.clone(), reading: self.reading.clone() }
    }
}

/// The names that make up a settlement's address.
#[derive(Clone, Debug)]
pub struct NameSet {
    city_name: Name,
    county_name: Name,
    subprefecture_name: Name,
    subprefecture_postfix: Name,
    government: Name,
}

impl NameSet {
    pub closed spec fn spec_city_name(&self) -> Name {
        self.city_name
    }

    pub closed spec fn spec_county_name(&self) -> Name {
        self.county_name
    }

    pub closed spec fn spec_subprefecture_name(&self) -> Name {
        self.subprefecture_name
    }

    pub closed spec fn spec_subprefecture_postfix(&self) -> Name {
        self.subprefecture_postfix
    }

    pub closed spec fn spec_government(&self) -> Name {
        self.government
    }

    pub fn new(
        city_name: Name,
        county_name: Name,
        subprefecture_name: Name,
        subprefecture_postfix: Name,
        government: Name,
    ) -> (r: NameSet)
        ensures
            r.spec_city_name() == city_name,
            r.spec_county_name() == county_name,
            r.spec_subprefecture_name() == subprefecture_name,
            r.spec_subprefecture_postfix() == subprefecture_postfix,
            r.spec_government() == government,
    {
        NameSet { city_name, county_name, subprefecture_name, subprefecture_postfix, government }
    }

    pub fn city_name(&self) -> (r: Name)
        ensures
            r@ == self.spec_city_name()@,
    {
        self.city_name.duplicate()
    }

    pub fn county_name(&self) -> (r: Name)
        ensures
            r@ == self.spec_county_name()@,
    {
        self.county_name.duplicate()
    }

    pub fn subprefecture_name(&self) -> (r: Name)
        ensures
            r@ == self.spec_subprefecture_name()@,
    {
        self.subprefecture_name.duplicate()
    }

    pub fn subprefecture_postfix(&self) -> (r: Name)
        ensures
            r@ == self.spec_subprefecture_postfix()@,
    {
        self.subprefecture_postfix.duplicate()
    }

    pub fn government(&self) -> (r: Name)
        ensures
            r@ == self.spec_government()@,
    {
        self.government.duplicate()
    }
}

/// Kind of local government, by population.
#[derive(Clone, Copy, Debug, PartialEq, Eq, Structural)]
pub enum Government {
    Village,
    Town,
    City,
}

/// Population below which a settlement is a village.
pub const TOWN_POPULATION: usize = 3000;

/// Population below which a settlement is a town, and from which it is a city.
pub const CITY_POPULATION: usize = 20000;

pub open spec fn government_of(population: nat) -> Government {
    if population < TOWN_POPULATION {
        Government::Village
    } else if population < CITY_POPULATION {
        Government::Town
    } else {
        Government::City
    }
}

/// The kind of government of a settlement of `population` inhabitants.
pub fn government_for_population(population: usize) -> (r: Government)
    ensures
        r == government_of(population as nat),
{
    if population < TOWN_POPULATION {
        Government::Village
    } else if population < CITY_POPULATION {
        Government::Town
    } else {
        Government::City
    }
}

impl Government {
    /// The suffix naming this kind of government, with its reading.
    pub fn name(&self) -> (r: Name)
        ensures
            r@ == match *self {
                Government::Village => ("村"@, "mura"@),
                Government::Town => ("町"@, "cho"@),
                Government::City => ("市"@, "shi"@),
            },
    {
        match self {
            Government::Village => Name::from_tuple(("村".to_owned(), "mura".to_owned())),
            Government::Town => Name::from_tuple(("町".to_owned(), "cho".to_owned())),
            Government::City => Name::from_tuple(("市".to_owned(), "shi".to_owned())),
        }
    }
}

/// Where a name of the address comes from.
#[derive(Clone, Copy, Debug, PartialEq, Eq, Structural)]
pub enum NameSource {
    /// The city's own name is reused.
    CityName,
    /// The county's name is reused.
    CountyName,
    /// A new name is generated.
    Fresh,
}

/// The county takes the city's name when the draw `shared` says so, except
/// for a village.
pub fn county_name_source(government: Government, shared: bool) -> (r: NameSource)
    ensures
        r == (if shared && government != Government::Village {
            NameSource::CityName
        } else {
            NameSource::Fresh
        }),
{
    if shared && government != Government::Village {
        NameSource::CityName
    } else {
        NameSource::Fresh
    }
}

/// Whether the first draw already settles that the subprefecture takes the
/// city's name; only otherwise is the town draw made.
pub fn subprefecture_settled_by_city_draw(government: Government, city_draw: bool) -> (r: bool)
    ensures
        r == (city_draw && government == Government::City),
{
    city_draw && government == Government::City
}

/// The subprefecture takes the city's name on the city draw for a city or on
/// the town draw for a town; otherwise the county's name on the county draw;
/// otherwise a new name.
pub fn subprefecture_name_source(
    government: Government,
    city_draw: bool,
    town_draw: bool,
    county_draw: bool,
) -> (r: NameSource)
    ensures
        r == (if (city_draw && government == Government::City) || (town_draw && government
            == Government::Town) {
            NameSource::CityName
        } else if county_draw {
            NameSource::CountyName
        } else {
            NameSource::Fresh
        }),
{
    if (city_draw && government == Government::City) || (town_draw && government
        == Government::Town) {
        NameSource::CityName
    } else if county_draw {
        NameSource::CountyName
    } else {
        NameSource::Fresh
    }
}

/// Syllable `k` repeats the written form or the reading of the syllable
/// before it; the first syllable is held against an empty one.
pub open spec fn repeats_previous(syllables: Seq<(Seq<char>, Seq<char>)>, k: int) -> bool {
    let previous = if k == 0 {
        (Seq::<char>::empty(), Seq::<char>::empty())
    } else {
        syllables[k - 1]
    };
    syllables[k].0 == previous.0 || syllables[k].1 == previous.1
}

pub open spec fn syllable_views(syllables: Seq<(String, String)>) -> Seq<(Seq<char>, Seq<char>)> {
    Seq::new(syllables.len(), |k: int| (syllables[k].0@, syllables[k].1@))
}

/// Whether a generated name has a syllable that repeats the one before it,
/// in writing or in reading, which makes the name unusable.
pub fn has_repeated_syllable(syllables: &Vec<(String, String)>) -> (r: bool)
    ensures
        r == exists|k: int|
            0 <= k < syllables@.len() && #[trigger] repeats_previous(
                syllable_views(syllables@),
                k,
            ),
{
    let ghost views = syllable_views(syllables@);
    let empty = String::new();
    let mut k: usize = 0;
    while k < syllables.len()
        invariant
            views == syllable_views(syllables@),
            empty@ == Seq::<char>::empty(),
            k <= syllables@.len(),
            forall|m: int| 0 <= m < k ==> !#[trigger] repeats_previous(views, m),
        decreases syllables@.len() - k,
    {
        let current = &syllables[k];
        let repeated = if k == 0 {
            current.0 == empty || current.1 == empty
        } else {
            let previous = &syllables[k - 1];
            current.0 == previous.0 || current.1 == previous.1
        };
        if repeated {
            assert(repeats_previous(views, k as int));
            return true;
        }
        k = k + 1;
    }
    false
}

} // verus!
