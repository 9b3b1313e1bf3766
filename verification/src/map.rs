//! Maps and the read-only map catalog a room draws its board from.

use vstd::prelude::*;
use crate::matrix::Matrix;
use crate::squares::MapSquareType;
use crate::strutil::str_eq;

verus! {

/// The map a room uses until its owner chooses another.
pub const DEFAULT_GAME_MAP: &'static str = "Rectangle";

#[derive(Debug)]
pub struct TableturfMap {
    pub name: String,
    pub squares: Matrix<MapSquareType>,
}

/// Two maps that carry the same data.
pub open spec fn map_like(a: TableturfMap, b: TableturfMap) -> bool {
    &&& a.name == b.name
    &&& a.squares@ == b.squares@
}

impl TableturfMap {
    /// A copy of this map carrying the same data.
    pub fn duplicate(&self) -> (r: TableturfMap)
        ensures
            map_like(r, *self),
    {
        TableturfMap { name: self.name.clone(), squares: self.squares.duplicate() }
    }
}

/// A source of maps, looked up by name.
pub trait MapProvider {
    fn get(&self, map_name: &str) -> Option<TableturfMap>;

    fn contains(&self, map_name: &str) -> bool;

    fn get_names(&self) -> Vec<String>;
}

/// The position of the first map with the given name, or -1 when none has
/// it.
pub open spec fn spec_map_index(maps: Seq<TableturfMap>, name: Seq<char>) -> int
    decreases maps.len(),
{
    if maps.len() == 0 {
        -1
    } else if maps[0].name@ == name {
        0
    } else {
        let rest = spec_map_index(maps.drop_first(), name);
        if rest < 0 {
            -1
        } else {
            rest + 1
        }
    }
}

pub proof fn lemma_map_index(maps: Seq<TableturfMap>, name: Seq<char>)
    ensures
        spec_map_index(maps, name) >= 0 ==> {
            &&& spec_map_index(maps, name) < maps.len()
            &&& maps[spec_map_index(maps, name)].name@ == name
        },
        spec_map_index(maps, name) < 0 ==> forall|i: int|
            0 <= i < maps.len() ==> (#[trigger] maps[i]).name@ != name,
    decreases maps.len(),
{
    if maps.len() > 0 && maps[0].name@ != name {
        lemma_map_index(maps.drop_first(), name);
        assert forall|i: int| 0 <= i < maps.len() && spec_map_index(maps, name) < 0 implies (
        #[trigger] maps[i]).name@ != name by {
            if i > 0 {
                assert(maps.drop_first()[i - 1] == maps[i]);
            }
        }
    }
}

proof fn lemma_map_index_found(maps: Seq<TableturfMap>, name: Seq<char>, i: int)
    requires
        0 <= i < maps.len(),
        maps[i].name@ == name,
        forall|j: int| 0 <= j < i ==> (#[trigger] maps[j]).name@ != name,
    ensures
        spec_map_index(maps, name) == i,
    decreases maps.len(),
{
    if i > 0 {
        assert forall|j: int| 0 <= j < i - 1 implies (#[trigger] maps.drop_first()[j]).name@
            != name by {
            assert(maps.drop_first()[j] == maps[j + 1]);
        }
        assert(maps.drop_first()[i - 1] == maps[i]);
        lemma_map_index_found(maps.drop_first(), name, i - 1);
    }
}

/// The read-only map catalog, fully populated at construction and immutable
/// afterwards.
#[derive(Debug)]
pub struct MapProviderImpl {
    maps: Vec<TableturfMap>,
}

impl MapProviderImpl {
    /// The maps the catalog holds, in order.
    pub closed spec fn spec_maps(&self) -> Seq<TableturfMap> {
        self.maps@
    }

    pub open spec fn spec_exists(&self, name: Seq<char>) -> bool {
        spec_map_index(self.spec_maps(), name) >= 0
    }

    /// The map the catalog returns for the given name.
    pub open spec fn spec_get(&self, name: Seq<char>) -> TableturfMap {
        self.spec_maps()[spec_map_index(self.spec_maps(), name)]
    }

    /// Builds the catalog from the given map list.
    pub fn new(maps: Vec<TableturfMap>) -> (r: Self)
        ensures
            r.spec_maps() == maps@,
    {
        MapProviderImpl { maps }
    }

    pub fn get(&self, map_name: &str) -> (r: Option<TableturfMap>)
        ensures
            r is Some <==> self.spec_exists(map_name@),
            r is Some ==> map_like(r->0, self.spec_get(map_name@)) && r->0.name@ == map_name@,
    {
        proof {
            lemma_map_index(self.spec_maps(), map_name@);
        }
        let mut i: usize = 0;
        while i < self.maps.len()
            invariant
                i <= self.maps@.len(),
                forall|j: int| 0 <= j < i ==> (#[trigger] self.maps@[j]).name@ != map_name@,
            decreases self.maps@.len() - i,
        {
            if str_eq(self.maps[i].name.as_str(), map_name) {
                proof {
                    lemma_map_index_found(self.spec_maps(), map_name@, i as int);
                }
                return Some(self.maps[i].duplicate());
            }
            i = i + 1;
        }
        None
    }

    pub fn contains(&self, map_name: &str) -> (r: bool)
        ensures
            r == self.spec_exists(map_name@),
    {
        proof {
            lemma_map_index(self.spec_maps(), map_name@);
        }
        let mut i: usize = 0;
        while i < self.maps.len()
            invariant
                i <= self.maps@.len(),
                forall|j: int| 0 <= j < i ==> (#[trigger] self.maps@[j]).name@ != map_name@,
            decreases self.maps@.len() - i,
        {
            if str_eq(self.maps[i].name.as_str(), map_name) {
                proof {
                    lemma_map_index_found(self.spec_maps(), map_name@, i as int);
                }
                return true;
            }
            i = i + 1;
        }
        false
    }

    /// The names of all maps, in catalog order.
    pub fn get_names(&self) -> (r: Vec<String>)
        ensures
            r@.len() == self.spec_maps().len(),
            forall|i: int| 0 <= i < r@.len() ==> #[trigger] r@[i]@ == self.spec_maps()[i].name@,
    {
        let mut names: Vec<String> = Vec::new();
        let mut i: usize = 0;
        while i < self.maps.len()
            invariant
                i <= self.maps@.len(),
                names@.len() == i,
                forall|j: int| 0 <= j < i ==> #[trigger] names@[j]@ == self.maps@[j].name@,
            decreases self.maps@.len() - i,
        {
            names.push(self.maps[i].name.clone());
            i = i + 1;
        }
        names
    }

    /// A uniformly drawn map of the catalog; `None` when the catalog is
    /// empty.
    pub fn pick_random(&self) -> (r: Option<TableturfMap>)
        ensures
            r is Some <==> self.spec_maps().len() > 0,
            r is Some ==> exists|i: int|
                0 <= i < self.spec_maps().len() && map_like(r->0, #[trigger] self.spec_maps()[i]),
    {
        if self.maps.len() == 0 {
            None
        } else {
            let i = crate::rng::random_index(self.maps.len());
            let m = self.maps[i].duplicate();
            proof {
                assert(map_like(m, self.spec_maps()[i as int]));
            }
            Some(m)
        }
    }
}

impl MapProvider for MapProviderImpl {
    fn get(&self, map_name: &str) -> Option<TableturfMap> {
        MapProviderImpl::get(self, map_name)
    }

    fn contains(&self, map_name: &str) -> bool {
        MapProviderImpl::contains(self, map_name)
    }

    fn get_names(&self) -> Vec<String> {
        MapProviderImpl::get_names(self)
    }
}

} // verus!
