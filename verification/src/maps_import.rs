//! Checking the map files the converter gathers before they are served:
//! every row must be as wide as the first, and every square must be one
//! of the four codes the initial board admits.

use vstd::prelude::*;

verus! {

/// A map as the converter reads it: a name over rows of square codes.
#[derive(Debug, PartialEq, Eq)]
pub struct RawTableturfMap {
    pub name: String,
    pub squares: Vec<Vec<u8>>,
}

/// A map file that cannot be served, and why.
#[derive(Debug, PartialEq, Eq)]
pub struct MapValidationError {
    pub map_name: String,
    pub message: String,
}

impl MapValidationError {
    pub fn new(map: RawTableturfMap, message: &str) -> (r: Self)
        ensures
            r.map_name == map.name,
            r.message@ == message@,
    {
        MapValidationError { map_name: map.name, message: message.to_owned() }
    }
}

/// Every row is as wide as the first.
pub open spec fn rows_even(squares: Seq<Vec<u8>>) -> bool {
    forall|i: int| 0 <= i < squares.len() ==> (#[trigger] squares[i])@.len() == squares[0]@.len()
}

/// Every square is one of the four codes an initial board may hold.
pub open spec fn squares_known(squares: Seq<Vec<u8>>) -> bool {
    forall|i: int, j: int|
        0 <= i < squares.len() && 0 <= j < squares[i]@.len() ==> #[trigger] squares[i]@[j] <= 3
}

/// Accepts a map whose rows are even and whose squares are known; a
/// refusal names the map and says which of the two checks failed, ragged
/// rows first.
pub fn validate_map(map: RawTableturfMap) -> (r: Result<RawTableturfMap, MapValidationError>)
    requires
        map.squares@.len() > 0,
    ensures
        r is Ok <==> rows_even(map.squares@) && squares_known(map.squares@),
        r is Ok ==> r->Ok_0 == map,
        !rows_even(map.squares@) ==> (r matches Err(e) && e.map_name == map.name && e.message@
            == "Rows are not of equal size"@),
        rows_even(map.squares@) && !squares_known(map.squares@) ==> (r matches Err(e)
            && e.map_name == map.name && e.message@ == "Couldn't recognize some squares"@),
{
    let first_row_len = map.squares[0].len();
    let mut i: usize = 0;
    while i < map.squares.len()
        invariant
            map.squares@.len() > 0,
            first_row_len == map.squares@[0]@.len(),
            i <= map.squares@.len(),
            forall|k: int| 0 <= k < i ==> (#[trigger] map.squares@[k])@.len() == first_row_len,
        decreases map.squares@.len() - i,
    {
        if map.squares[i].len() != first_row_len {
            return Err(MapValidationError::new(map, "Rows are not of equal size"));
        }
        i = i + 1;
    }

    let mut y: usize = 0;
    while y < map.squares.len()
        invariant
            map.squares@.len() > 0,
            rows_even(map.squares@),
            y <= map.squares@.len(),
            forall|a: int, b: int|
                0 <= a < y && 0 <= b < map.squares@[a]@.len() ==> #[trigger] map.squares@[a]@[b]
                    <= 3,
        decreases map.squares@.len() - y,
    {
        let mut x: usize = 0;
        while x < map.squares[y].len()
            invariant
                map.squares@.len() > 0,
                rows_even(map.squares@),
                y < map.squares@.len(),
                x <= map.squares@[y as int]@.len(),
                forall|a: int, b: int|
                    0 <= a < y && 0 <= b < map.squares@[a]@.len() ==> #[trigger] map.squares@[a]@[b]
                        <= 3,
                forall|b: int| 0 <= b < x ==> #[trigger] map.squares@[y as int]@[b] <= 3,
            decreases map.squares@[y as int]@.len() - x,
        {
            if map.squares[y][x] > 3 {
                return Err(MapValidationError::new(map, "Couldn't recognize some squares"));
            }
            x = x + 1;
        }
        y = y + 1;
    }
    Ok(map)
}

} // verus!
