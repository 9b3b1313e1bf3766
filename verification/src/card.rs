//! Cards and the read-only card catalog. A card carries a shape grid of
//! card squares with empty borders already trimmed.

use vstd::prelude::*;
use crate::matrix::Matrix;
use crate::strutil::str_eq;

verus! {

#[derive(Clone, Copy, Eq, PartialEq, Debug, Structural)]
pub enum CardSquareType {
    Empty,
    Fill,
    Special,
}

pub type CST = CardSquareType;

#[derive(Clone, Copy, Eq, PartialEq, Debug, Structural)]
pub enum CardRarity {
    Common,
    Rare,
    Fresh,
}

#[derive(Debug)]
pub struct Card {
    pub category: String,
    pub name: String,
    pub number: usize,
    pub rarity: CardRarity,
    pub season: usize,
    pub special_cost: usize,
    pub squares: Matrix<CardSquareType>,
}

/// Two cards that carry the same data. Their shape grids are compared by
/// contents, so this is what a copy preserves.
pub open spec fn card_like(a: Card, b: Card) -> bool {
    &&& a.category == b.category
    &&& a.name == b.name
    &&& a.number == b.number
    &&& a.rarity == b.rarity
    &&& a.season == b.season
    &&& a.special_cost == b.special_cost
    &&& a.squares@ == b.squares@
}

impl Card {
    /// A copy of this card carrying the same data.
    pub fn duplicate(&self) -> (r: Card)
        ensures
            card_like(r, *self),
    {
        Card {
            category: self.category.clone(),
            name: self.name.clone(),
            number: self.number,
            rarity: self.rarity,
            season: self.season,
            special_cost: self.special_cost,
            squares: self.squares.duplicate(),
        }
    }
}

/// A source of cards, looked up by name.
pub trait CardProvider {
    fn get(&self, card_name: &str) -> Option<Card>;

    fn contains(&self, card_name: &str) -> bool;
}

/// The position of the first card with the given name, or -1 when none has
/// it.
pub open spec fn spec_card_index(cards: Seq<Card>, name: Seq<char>) -> int
    decreases cards.len(),
{
    if cards.len() == 0 {
        -1
    } else if cards[0].name@ == name {
        0
    } else {
        let rest = spec_card_index(cards.drop_first(), name);
        if rest < 0 {
            -1
        } else {
            rest + 1
        }
    }
}

/// Whether some card of the catalog has the given name.
pub open spec fn spec_card_exists(cards: Seq<Card>, name: Seq<char>) -> bool {
    spec_card_index(cards, name) >= 0
}

/// The first card index is in range and names the card sought, and no
/// earlier card does; a negative index means no card does.
pub proof fn lemma_card_index(cards: Seq<Card>, name: Seq<char>)
    ensures
        spec_card_index(cards, name) >= 0 ==> {
            &&& spec_card_index(cards, name) < cards.len()
            &&& cards[spec_card_index(cards, name)].name@ == name
        },
        spec_card_index(cards, name) < 0 ==> forall|i: int|
            0 <= i < cards.len() ==> (#[trigger] cards[i]).name@ != name,
    decreases cards.len(),
{
    if cards.len() > 0 && cards[0].name@ != name {
        lemma_card_index(cards.drop_first(), name);
        assert forall|i: int| 0 <= i < cards.len() && spec_card_index(cards, name) < 0 implies (
        #[trigger] cards[i]).name@ != name by {
            if i > 0 {
                assert(cards.drop_first()[i - 1] == cards[i]);
            }
        }
    }
}

/// The read-only card catalog, fully populated at construction and
/// immutable afterwards.
#[derive(Debug)]
pub struct CardSquareProviderImpl {
    cards: Vec<Card>,
}

impl CardSquareProviderImpl {
    /// The cards the catalog holds, in order.
    pub closed spec fn spec_cards(&self) -> Seq<Card> {
        self.cards@
    }

    pub open spec fn spec_exists(&self, name: Seq<char>) -> bool {
        spec_card_exists(self.spec_cards(), name)
    }

    /// The card the catalog returns for the given name.
    pub open spec fn spec_get(&self, name: Seq<char>) -> Card {
        self.spec_cards()[spec_card_index(self.spec_cards(), name)]
    }

    /// Builds the catalog from the given card list.
    pub fn new(cards: Vec<Card>) -> (r: Self)
        ensures
            r.spec_cards() == cards@,
    {
        CardSquareProviderImpl { cards }
    }

    pub fn get(&self, card_name: &str) -> (r: Option<Card>)
        ensures
            r is Some <==> self.spec_exists(card_name@),
            r is Some ==> crate::card::card_like(r->0, self.spec_get(card_name@)) && r->0.name@
                == card_name@,
    {
        proof {
            lemma_card_index(self.spec_cards(), card_name@);
        }
        let mut i: usize = 0;
        while i < self.cards.len()
            invariant
                i <= self.cards@.len(),
                forall|j: int| 0 <= j < i ==> (#[trigger] self.cards@[j]).name@ != card_name@,
            decreases self.cards@.len() - i,
        {
            if str_eq(self.cards[i].name.as_str(), card_name) {
                proof {
                    lemma_card_index_found(self.spec_cards(), card_name@, i as int);
                }
                return Some(self.cards[i].duplicate());
            }
            i = i + 1;
        }
        None
    }

    pub fn contains(&self, card_name: &str) -> (r: bool)
        ensures
            r == self.spec_exists(card_name@),
    {
        proof {
            lemma_card_index(self.spec_cards(), card_name@);
        }
        let mut i: usize = 0;
        while i < self.cards.len()
            invariant
                i <= self.cards@.len(),
                forall|j: int| 0 <= j < i ==> (#[trigger] self.cards@[j]).name@ != card_name@,
            decreases self.cards@.len() - i,
        {
            if str_eq(self.cards[i].name.as_str(), card_name) {
                proof {
                    lemma_card_index_found(self.spec_cards(), card_name@, i as int);
                }
                return true;
            }
            i = i + 1;
        }
        false
    }
}

/// When a card at `i` carries the name and no earlier one does, `i` is the
/// index the lookup finds.
pub proof fn lemma_card_index_found(cards: Seq<Card>, name: Seq<char>, i: int)
    requires
        0 <= i < cards.len(),
        cards[i].name@ == name,
        forall|j: int| 0 <= j < i ==> (#[trigger] cards[j]).name@ != name,
    ensures
        spec_card_index(cards, name) == i,
    decreases cards.len(),
{
    if i > 0 {
        assert forall|j: int| 0 <= j < i - 1 implies (#[trigger] cards.drop_first()[j]).name@
            != name by {
            assert(cards.drop_first()[j] == cards[j + 1]);
        }
        assert(cards.drop_first()[i - 1] == cards[i]);
        lemma_card_index_found(cards.drop_first(), name, i - 1);
    }
}

impl CardProvider for CardSquareProviderImpl {
    fn get(&self, card_name: &str) -> Option<Card> {
        CardSquareProviderImpl::get(self, card_name)
    }

    fn contains(&self, card_name: &str) -> bool {
        CardSquareProviderImpl::contains(self, card_name)
    }
}

/// Two catalogs that hold the same cards, datum for datum.
pub open spec fn catalogs_like(a: CardSquareProviderImpl, b: CardSquareProviderImpl) -> bool {
    &&& a.spec_cards().len() == b.spec_cards().len()
    &&& forall|i: int|
        0 <= i < a.spec_cards().len() ==> card_like(
            #[trigger] a.spec_cards()[i],
            b.spec_cards()[i],
        )
}

/// Catalogs holding the same cards answer every lookup alike.
pub proof fn lemma_catalogs_like_index(
    a: Seq<Card>,
    b: Seq<Card>,
    name: Seq<char>,
)
    requires
        a.len() == b.len(),
        forall|i: int| 0 <= i < a.len() ==> card_like(#[trigger] a[i], b[i]),
    ensures
        spec_card_index(a, name) == spec_card_index(b, name),
    decreases a.len(),
{
    if a.len() > 0 {
        assert(card_like(a[0], b[0]));
        assert forall|i: int| 0 <= i < a.drop_first().len() implies card_like(
            #[trigger] a.drop_first()[i],
            b.drop_first()[i],
        ) by {
            assert(a.drop_first()[i] == a[i + 1] && b.drop_first()[i] == b[i + 1]);
        }
        lemma_catalogs_like_index(a.drop_first(), b.drop_first(), name);
    }
}

impl CardSquareProviderImpl {
    /// A copy of this catalog holding the same cards.
    pub fn duplicate(&self) -> (r: Self)
        ensures
            catalogs_like(r, *self),
            catalogs_like(*self, r),
    {
        let mut cards: Vec<Card> = Vec::new();
        let mut i: usize = 0;
        while i < self.cards.len()
            invariant
                i <= self.cards@.len(),
                cards@.len() == i,
                forall|j: int| 0 <= j < i ==> card_like(#[trigger] cards@[j], self.cards@[j]),
                forall|j: int| 0 <= j < i ==> card_like(#[trigger] self.cards@[j], cards@[j]),
            decreases self.cards@.len() - i,
        {
            cards.push(self.cards[i].duplicate());
            i = i + 1;
        }
        CardSquareProviderImpl { cards }
    }
}

} // verus!
