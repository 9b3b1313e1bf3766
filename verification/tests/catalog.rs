use tableturfer::card::{Card, CardProvider, CardRarity, CardSquareProviderImpl, CardSquareType, CST};
use tableturfer::map::{MapProvider, MapProviderImpl, TableturfMap};
use tableturfer::matrix::{Matrix, MatrixSize};
use tableturfer::squares::{MapSquareType, MST};
use tableturfer::team::PlayerTeam;

fn sample_card(name: &str) -> Card {
    Card {
        category: "test_cards".to_string(),
        name: name.to_string(),
        number: 1,
        rarity: CardRarity::Rare,
        season: 2,
        special_cost: 3,
        squares: Matrix::new(vec![vec![CST::Fill, CST::Special]]),
    }
}

#[test]
fn card_catalog_finds_cards_by_name() {
    let catalog = CardSquareProviderImpl::new(vec![sample_card("alpha"), sample_card("beta")]);

    assert!(catalog.contains("alpha"));
    assert!(!catalog.contains("gamma"));

    let card = catalog.get("beta").expect("beta is in the catalog");
    assert_eq!(card.name, "beta");
    assert_eq!(card.special_cost, 3);
    assert_eq!(card.squares, Matrix::new(vec![vec![CST::Fill, CST::Special]]));
    assert!(catalog.get("gamma").is_none());

    let through_trait: &dyn CardProvider = &catalog;
    assert!(through_trait.get("alpha").is_some());
    assert!(through_trait.contains("alpha"));
}

#[test]
fn map_catalog_finds_maps_and_picks_one_at_random() {
    let squares = Matrix::filled_with(MatrixSize::new(3, 3), MST::Empty);
    let catalog = MapProviderImpl::new(vec![TableturfMap {
        name: "Rectangle".to_string(),
        squares: squares.clone(),
    }]);

    assert!(catalog.contains("Rectangle"));
    assert!(!catalog.contains("Nowhere"));
    assert_eq!(catalog.get_names(), vec!["Rectangle".to_string()]);

    let got = catalog.get("Rectangle").unwrap();
    assert_eq!(got.name, "Rectangle");
    assert_eq!(got.squares, squares);

    let picked = catalog.pick_random().expect("the catalog is not empty");
    assert_eq!(picked.name, "Rectangle");

    let empty = MapProviderImpl::new(Vec::new());
    assert!(empty.pick_random().is_none());

    let through_trait: &dyn MapProvider = &catalog;
    assert!(through_trait.get("Rectangle").is_some());
}

#[test]
fn card_squares_land_as_their_teams_colours() {
    assert_eq!(
        MapSquareType::from_card_square(CardSquareType::Fill, &PlayerTeam::Alpha),
        MST::FillAlpha
    );
    assert_eq!(
        MapSquareType::from_card_square(CardSquareType::Special, &PlayerTeam::Bravo),
        MST::SpecialBravo
    );
    assert_eq!(
        MapSquareType::from_card_square(CardSquareType::Empty, &PlayerTeam::Alpha),
        MST::Empty
    );
    assert!(MST::FillAlpha.is_fill());
    assert!(!MST::FillAlpha.is_special());
    assert!(MST::SpecialBravo.is_special());
    assert!(!MST::Neutral.is_fill());
}
