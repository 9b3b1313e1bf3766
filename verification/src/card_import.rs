//! Turning a card record of the asset tree into the compact form the
//! server serves: square names become small codes, the fixed 8-by-8 grid
//! is read bottom row first, and empty border rows and columns are
//! trimmed away.

use vstd::prelude::*;
use crate::byml::{spec_key_index, Byml};
use crate::strutil::str_eq;

verus! {

/// The untrimmed grids the assets carry are always 8 by 8.
pub const CARD_GRID_SIZE: usize = 8;

/// Why a card record could not be read.
#[derive(Debug, PartialEq, Eq, Clone, Copy, Structural)]
pub enum CardImportError {
    MissingField,
    WrongFieldType,
    UnknownSquare,
    UnexpectedGridSize,
}

/// One card as the converter writes it out.
#[derive(Debug, PartialEq, Eq)]
pub struct TableturfCard {
    pub category: String,
    pub name: String,
    pub number: i32,
    pub rarity: u8,
    pub season: i32,
    pub special_cost: i32,
    pub squares: Vec<Vec<u8>>,
}

/// The code a square name stands for: 0 empty, 1 filled, 2 special.
pub open spec fn spec_square_code(b: Byml) -> Option<u8> {
    match b {
        Byml::String(s) => {
            if s@ == "Empty"@ {
                Some(0u8)
            } else if s@ == "Fill"@ {
                Some(1u8)
            } else if s@ == "Special"@ {
                Some(2u8)
            } else {
                None
            }
        }
        _ => None,
    }
}

/// Whether a row holds any non-empty square.
pub open spec fn row_nonzero(row: Seq<u8>) -> bool {
    exists|j: int| 0 <= j < row.len() && row[j] != 0
}

/// Whether column `j` holds any non-empty square.
pub open spec fn col_nonzero(v: Seq<Seq<u8>>, j: int) -> bool {
    exists|i: int| 0 <= i < v.len() && #[trigger] v[i][j] != 0
}

/// The indices below `k` of rows that hold a non-empty square, in order.
pub open spec fn kept_rows(v: Seq<Seq<u8>>, k: int) -> Seq<int>
    decreases k,
{
    if k <= 0 {
        Seq::empty()
    } else {
        let rest = kept_rows(v, k - 1);
        if row_nonzero(v[k - 1]) {
            rest.push(k - 1)
        } else {
            rest
        }
    }
}

/// The indices below `k` of columns that hold a non-empty square, in
/// order.
pub open spec fn kept_cols(v: Seq<Seq<u8>>, k: int) -> Seq<int>
    decreases k,
{
    if k <= 0 {
        Seq::empty()
    } else {
        let rest = kept_cols(v, k - 1);
        if col_nonzero(v, k - 1) {
            rest.push(k - 1)
        } else {
            rest
        }
    }
}

/// Kept indices lie below the bound.
pub proof fn lemma_kept_in_range(v: Seq<Seq<u8>>, k: int)
    ensures
        forall|a: int| 0 <= a < kept_rows(v, k).len() ==> 0 <= #[trigger] kept_rows(v, k)[a] < k,
        forall|a: int| 0 <= a < kept_cols(v, k).len() ==> 0 <= #[trigger] kept_cols(v, k)[a] < k,
    decreases k,
{
    if k > 0 {
        lemma_kept_in_range(v, k - 1);
        assert forall|a: int| 0 <= a < kept_rows(v, k).len() implies 0 <= #[trigger] kept_rows(
            v,
            k,
        )[a] < k by {
            if a < kept_rows(v, k - 1).len() {
                assert(kept_rows(v, k)[a] == kept_rows(v, k - 1)[a]);
            }
        }
        assert forall|a: int| 0 <= a < kept_cols(v, k).len() implies 0 <= #[trigger] kept_cols(
            v,
            k,
        )[a] < k by {
            if a < kept_cols(v, k - 1).len() {
                assert(kept_cols(v, k)[a] == kept_cols(v, k - 1)[a]);
            }
        }
    }
}


/// The position of the first square entry that does not parse, or the
/// length when all do.
pub open spec fn first_bad_square(items: Seq<Byml>) -> int
    decreases items.len(),
{
    if items.len() == 0 {
        0
    } else if spec_square_code(items[0]) is None {
        0
    } else {
        1 + first_bad_square(items.drop_first())
    }
}

/// The first bad position is in range exactly when some entry is bad, every
/// earlier entry parses, and the entry there does not.
pub proof fn lemma_first_bad_square(items: Seq<Byml>)
    ensures
        0 <= first_bad_square(items) <= items.len(),
        first_bad_square(items) < items.len() ==> spec_square_code(
            items[first_bad_square(items)],
        ) is None,
        forall|j: int|
            0 <= j < first_bad_square(items) ==> spec_square_code(#[trigger] items[j]) is Some,
    decreases items.len(),
{
    if items.len() > 0 && spec_square_code(items[0]) is Some {
        lemma_first_bad_square(items.drop_first());
        let fb = first_bad_square(items);
        if fb < items.len() {
            assert(items[fb] == items.drop_first()[fb - 1]);
        }
        assert forall|j: int| 0 <= j < fb implies spec_square_code(
            #[trigger] items[j],
        ) is Some by {
            if j > 0 {
                assert(items[j] == items.drop_first()[j - 1]);
            }
        }
    }
}

/// When every entry below `i` parses and the entry at `i` does not, `i` is
/// the first bad position.
proof fn lemma_first_bad_square_found(items: Seq<Byml>, i: int)
    requires
        0 <= i < items.len(),
        spec_square_code(items[i]) is None,
        forall|j: int| 0 <= j < i ==> spec_square_code(#[trigger] items[j]) is Some,
    ensures
        first_bad_square(items) == i,
    decreases items.len(),
{
    if i > 0 {
        assert forall|j: int| 0 <= j < i - 1 implies spec_square_code(
            #[trigger] items.drop_first()[j],
        ) is Some by {
            assert(items.drop_first()[j] == items[j + 1]);
        }
        assert(items.drop_first()[i - 1] == items[i]);
        lemma_first_bad_square_found(items.drop_first(), i - 1);
    }
}

/// The untrimmed grid a square listing spells, bottom row first.
pub open spec fn chunked_grid(items: Seq<Byml>) -> Seq<Seq<u8>> {
    Seq::new(
        CARD_GRID_SIZE as nat,
        |a: int|
            Seq::new(
                CARD_GRID_SIZE as nat,
                |b: int|
                    spec_square_code(
                        items[(CARD_GRID_SIZE - 1 - a) * CARD_GRID_SIZE + b],
                    )->0,
            ),
    )
}

impl TableturfCard {
    /// Trims away every all-empty row and every all-empty column: what is
    /// left is the grid restricted to the rows and columns that hold a
    /// square, in their original order.
    pub fn remove_empty_rows_and_cols(value: Vec<Vec<u8>>) -> (r: Vec<Vec<u8>>)
        requires
            value@.len() > 0,
            forall|i: int|
                0 <= i < value@.len() ==> (#[trigger] value@[i])@.len() == value@[0]@.len(),
        ensures
            ({
                let g = value@.map_values(|row: Vec<u8>| row@);
                let rows = kept_rows(g, g.len() as int);
                let cols = kept_cols(g, g[0].len() as int);
                &&& r@.len() == rows.len()
                &&& forall|a: int| 0 <= a < r@.len() ==> (#[trigger] r@[a])@.len() == cols.len()
                &&& forall|a: int, b: int|
                    0 <= a < r@.len() && 0 <= b < cols.len() ==> #[trigger] r@[a]@[b] == g[rows[a]][
                    cols[b]]
            }),
    {
        let ghost g = value@.map_values(|row: Vec<u8>| row@);
        let w = value[0].len();
        proof {
            lemma_kept_in_range(g, g.len() as int);
            lemma_kept_in_range(g, w as int);
        }

        let mut r: Vec<Vec<u8>> = Vec::new();
        let mut i: usize = 0;
        while i < value.len()
            invariant
                g == value@.map_values(|row: Vec<u8>| row@),
                value@.len() > 0,
                forall|k: int| 0 <= k < g.len() ==> (#[trigger] g[k]).len() == w,
                w == g[0].len(),
                i <= g.len(),
                r@.len() == kept_rows(g, i as int).len(),
                forall|a: int, b: int|
                    0 <= a < r@.len() && 0 <= b < kept_cols(g, w as int).len()
                        ==> #[trigger] r@[a]@[b] == g[kept_rows(g, i as int)[a]][kept_cols(
                        g,
                        w as int,
                    )[b]],
                forall|a: int|
                    0 <= a < r@.len() ==> (#[trigger] r@[a])@.len() == kept_cols(
                        g,
                        w as int,
                    ).len(),
            decreases g.len() - i,
        {
            proof {
                assert(g[i as int] == value@[i as int]@);
            }
            let mut any: bool = false;
            let mut j: usize = 0;
            while j < w
                invariant
                    g == value@.map_values(|row: Vec<u8>| row@),
                    i < g.len(),
                    forall|k: int| 0 <= k < g.len() ==> (#[trigger] g[k]).len() == w,
                    j <= w,
                    any ==> row_nonzero(g[i as int]),
                    !any ==> forall|c: int| 0 <= c < j ==> g[i as int][c] == 0,
                decreases w - j,
            {
                proof {
                    assert(g[i as int] == value@[i as int]@);
                }
                if value[i][j] != 0 {
                    any = true;
                }
                j = j + 1;
            }
            if any {
                let mut row: Vec<u8> = Vec::new();
                let mut c: usize = 0;
                while c < w
                    invariant
                        g == value@.map_values(|row: Vec<u8>| row@),
                        i < g.len(),
                        forall|k: int| 0 <= k < g.len() ==> (#[trigger] g[k]).len() == w,
                        c <= w,
                        row@.len() == kept_cols(g, c as int).len(),
                        forall|b: int|
                            0 <= b < row@.len() ==> #[trigger] row@[b] == g[i as int][kept_cols(
                                g,
                                c as int,
                            )[b]],
                    decreases w - c,
                {
                    let mut col_any: bool = false;
                    let mut k: usize = 0;
                    while k < value.len()
                        invariant
                            g == value@.map_values(|row: Vec<u8>| row@),
                            i < g.len(),
                            c < w,
                            forall|kk: int| 0 <= kk < g.len() ==> (#[trigger] g[kk]).len() == w,
                            k <= g.len(),
                            col_any ==> col_nonzero(g, c as int),
                            !col_any ==> forall|kk: int|
                                0 <= kk < k ==> #[trigger] g[kk][c as int] == 0,
                        decreases g.len() - k,
                    {
                        proof {
                            assert(g[k as int] == value@[k as int]@);
                        }
                        if value[k][c] != 0 {
                            col_any = true;
                        }
                        k = k + 1;
                    }
                    if col_any {
                        proof {
                            assert(g[i as int] == value@[i as int]@);
                            lemma_kept_in_range(g, c as int);
                        }
                        row.push(value[i][c]);
                    } else {
                        proof {
                            assert(!col_nonzero(g, c as int));
                        }
                    }
                    c = c + 1;
                }
                r.push(row);
                proof {
                    lemma_kept_in_range(g, i + 1);
                }
            }
            i = i + 1;
        }
        r
    }

    /// Reads the fixed 8-by-8 square grid of a card record: 64 square
    /// names in bottom-row-first order, each `Empty`, `Fill` or
    /// `Special`, trimmed of empty borders.
    pub fn try_parse_squares(value: &Byml) -> (r: Result<Vec<Vec<u8>>, CardImportError>)
        ensures
            !(value is Hash) ==> r == Err::<Vec<Vec<u8>>, CardImportError>(
                CardImportError::WrongFieldType,
            ),
            value is Hash && spec_key_index(value->Hash_0@, "Square"@) < 0 ==> r == Err::<
                Vec<Vec<u8>>,
                CardImportError,
            >(CardImportError::MissingField),
            value is Hash && spec_key_index(value->Hash_0@, "Square"@) >= 0 ==> {
                let node = value->Hash_0@[spec_key_index(value->Hash_0@, "Square"@)].1;
                if !(node is Array) {
                    r == Err::<Vec<Vec<u8>>, CardImportError>(CardImportError::WrongFieldType)
                } else {
                    let items = node->Array_0@;
                    let bad = first_bad_square(items);
                    if bad < items.len() {
                        r == Err::<Vec<Vec<u8>>, CardImportError>(
                            if items[bad] is String {
                                CardImportError::UnknownSquare
                            } else {
                                CardImportError::WrongFieldType
                            },
                        )
                    } else if items.len() != CARD_GRID_SIZE * CARD_GRID_SIZE {
                        r == Err::<Vec<Vec<u8>>, CardImportError>(
                            CardImportError::UnexpectedGridSize,
                        )
                    } else {
                        let g = chunked_grid(items);
                        let rows = kept_rows(g, CARD_GRID_SIZE as int);
                        let cols = kept_cols(g, CARD_GRID_SIZE as int);
                        &&& r is Ok
                        &&& r->Ok_0@.len() == rows.len()
                        &&& forall|a: int|
                            0 <= a < rows.len() ==> (#[trigger] r->Ok_0@[a])@.len() == cols.len()
                        &&& forall|a: int, b: int|
                            0 <= a < rows.len() && 0 <= b < cols.len() ==> #[trigger] r->Ok_0@[a]@[b]
                                == g[rows[a]][cols[b]]
                    }
                }
            },
    {
        let node = match value {
            Byml::Hash(_) => {
                match value.get_key("Square") {
                    Some(n) => n,
                    None => {
                        return Err(CardImportError::MissingField);
                    }
                }
            }
            _ => {
                return Err(CardImportError::WrongFieldType);
            }
        };
        proof {
            crate::byml::lemma_key_index(value->Hash_0@, "Square"@);
        }
        let ghost spec_node = value->Hash_0@[spec_key_index(value->Hash_0@, "Square"@)].1;
        let items = match node.as_array() {
            Ok(a) => a,
            Err(_) => {
                return Err(CardImportError::WrongFieldType);
            }
        };
        proof {
            assert(items@ == spec_node->Array_0@);
        }
        let mut parsed: Vec<u8> = Vec::new();
        let mut i: usize = 0;
        while i < items.len()
            invariant
                value is Hash,
                spec_key_index(value->Hash_0@, "Square"@) >= 0,
                spec_node == value->Hash_0@[spec_key_index(value->Hash_0@, "Square"@)].1,
                spec_node is Array,
                items@ == spec_node->Array_0@,
                i <= items@.len(),
                parsed@.len() == i,
                forall|j: int|
                    0 <= j < i ==> spec_square_code(items@[j]) == Some(#[trigger] parsed@[j]),
            decreases items@.len() - i,
        {
            let code: u8 = match &items[i] {
                Byml::String(s) => {
                    if str_eq(s.as_str(), "Empty") {
                        0
                    } else if str_eq(s.as_str(), "Fill") {
                        1
                    } else if str_eq(s.as_str(), "Special") {
                        2
                    } else {
                        proof {
                            assert forall|j: int| 0 <= j < i implies spec_square_code(
                                #[trigger] items@[j],
                            ) is Some by {
                                assert(spec_square_code(items@[j]) == Some(parsed@[j]));
                            }
                            assert(spec_square_code(items@[i as int]) is None);
                            lemma_first_bad_square_found(items@, i as int);
                        }
                        return Err(CardImportError::UnknownSquare);
                    }
                }
                _ => {
                    proof {
                        assert forall|j: int| 0 <= j < i implies spec_square_code(
                            #[trigger] items@[j],
                        ) is Some by {
                            assert(spec_square_code(items@[j]) == Some(parsed@[j]));
                        }
                        assert(spec_square_code(items@[i as int]) is None);
                        lemma_first_bad_square_found(items@, i as int);
                    }
                    return Err(CardImportError::WrongFieldType);
                }
            };
            parsed.push(code);
            i = i + 1;
        }
        proof {
            assert forall|j: int| 0 <= j < items@.len() implies spec_square_code(
                #[trigger] items@[j],
            ) is Some by {
                assert(spec_square_code(items@[j]) == Some(parsed@[j]));
            }
            lemma_first_bad_square(items@);
            assert(first_bad_square(items@) == items@.len());
        }
        if parsed.len() != CARD_GRID_SIZE * CARD_GRID_SIZE {
            return Err(CardImportError::UnexpectedGridSize);
        }

        let ghost all_items = items@;
        let ghost codes = parsed@;
        let mut chunked: Vec<Vec<u8>> = Vec::new();
        let mut row_idx: usize = 0;
        while row_idx < CARD_GRID_SIZE
            invariant
                value is Hash,
                spec_key_index(value->Hash_0@, "Square"@) >= 0,
                spec_node == value->Hash_0@[spec_key_index(value->Hash_0@, "Square"@)].1,
                spec_node is Array,
                all_items == spec_node->Array_0@,
                all_items.len() == CARD_GRID_SIZE * CARD_GRID_SIZE,
                codes == parsed@,
                forall|j: int|
                    0 <= j < all_items.len() ==> spec_square_code(all_items[j]) == Some(
                        #[trigger] parsed@[j],
                    ),
                parsed@.len() == CARD_GRID_SIZE * CARD_GRID_SIZE,
                row_idx <= CARD_GRID_SIZE,
                chunked@.len() == row_idx,
                forall|a: int|
                    0 <= a < row_idx ==> (#[trigger] chunked@[a])@.len() == CARD_GRID_SIZE,
                forall|a: int, b: int|
                    0 <= a < row_idx && 0 <= b < CARD_GRID_SIZE ==> #[trigger] chunked@[a]@[b]
                        == parsed@[(CARD_GRID_SIZE - 1 - a) * CARD_GRID_SIZE + b],
            decreases CARD_GRID_SIZE - row_idx,
        {
            let src_row = CARD_GRID_SIZE - 1 - row_idx;
            let mut row: Vec<u8> = Vec::new();
            let mut b: usize = 0;
            while b < CARD_GRID_SIZE
                invariant
                    value is Hash,
                    spec_key_index(value->Hash_0@, "Square"@) >= 0,
                    spec_node == value->Hash_0@[spec_key_index(value->Hash_0@, "Square"@)].1,
                    spec_node is Array,
                    all_items == spec_node->Array_0@,
                    all_items.len() == CARD_GRID_SIZE * CARD_GRID_SIZE,
                    codes == parsed@,
                    forall|j: int|
                        0 <= j < all_items.len() ==> spec_square_code(all_items[j]) == Some(
                            #[trigger] parsed@[j],
                        ),
                    parsed@.len() == CARD_GRID_SIZE * CARD_GRID_SIZE,
                    row_idx < CARD_GRID_SIZE,
                    src_row == CARD_GRID_SIZE - 1 - row_idx,
                    b <= CARD_GRID_SIZE,
                    row@.len() == b,
                    forall|c: int|
                        0 <= c < b ==> #[trigger] row@[c] == parsed@[src_row as int
                            * CARD_GRID_SIZE + c],
                decreases CARD_GRID_SIZE - b,
            {
                row.push(parsed[src_row * CARD_GRID_SIZE + b]);
                b = b + 1;
            }
            chunked.push(row);
            row_idx = row_idx + 1;
        }
        proof {
            lemma_first_bad_square(all_items);
            assert(chunked@.map_values(|row: Vec<u8>| row@) =~~= chunked_grid(all_items)) by {
                let g = chunked@.map_values(|row: Vec<u8>| row@);
                let cg = chunked_grid(all_items);
                assert forall|a: int, b: int|
                    0 <= a < CARD_GRID_SIZE && 0 <= b < CARD_GRID_SIZE implies g[a][b]
                    == cg[a][b] by {
                    assert(g[a] == chunked@[a]@);
                    assert(spec_square_code(
                        all_items[(CARD_GRID_SIZE - 1 - a) * CARD_GRID_SIZE + b],
                    ) == Some(parsed@[(CARD_GRID_SIZE - 1 - a) * CARD_GRID_SIZE + b]));
                }
                assert forall|a: int| 0 <= a < CARD_GRID_SIZE implies g[a] =~= cg[a] by {
                    assert(g[a] == chunked@[a]@);
                }
            }
        }
        Ok(Self::remove_empty_rows_and_cols(chunked))
    }
}

} // verus!
