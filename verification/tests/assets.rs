use tableturfer::byml::{Byml, NodeType, TypeError};
use tableturfer::card_import::{CardImportError, TableturfCard};
use tableturfer::lang::LangFileType;
use tableturfer::maps_import::{validate_map, RawTableturfMap};

fn square_names(names: &[&str]) -> Byml {
    Byml::Array(names.iter().map(|n| Byml::String(n.to_string())).collect())
}

fn card_with_squares(squares: Byml) -> Byml {
    Byml::Hash(vec![("Square".to_string(), squares)])
}

#[test]
fn byml_accessors_follow_the_variant() {
    let node = Byml::Int(7);
    assert_eq!(node.as_int(), Ok(7));
    assert_eq!(node.as_uint(), Err(TypeError));
    assert!(!node.is_container());
    assert!(node.is_value());
    assert!(!node.is_string());
    assert!(!node.is_null());
    assert_eq!(node.get_type(), NodeType::Int);

    let text = Byml::String("name".to_string());
    assert_eq!(text.as_string().unwrap(), "name");
    assert!(text.is_string());
    assert_eq!(text.get_type(), NodeType::String);

    let tree = Byml::Hash(vec![("k".to_string(), Byml::Bool(true))]);
    assert!(tree.is_container());
    assert_eq!(tree.get_type(), NodeType::Hash);
    assert_eq!(tree.get_key("k").unwrap().as_bool(), Ok(true));
    assert!(tree.get_key("missing").is_none());

    let mut cell = Byml::UInt(1);
    *cell.as_mut_uint().unwrap() = 5;
    assert_eq!(cell.as_uint(), Ok(5));

    assert!(Byml::Null.is_null());
    assert_eq!(Byml::Null.get_type(), NodeType::Null);
}

// A full 8-by-8 grid, bottom row first, trimmed of its empty borders. The
// two filled squares sit in the bottom-left corner of the asset grid, so
// the compact form keeps only that corner, last row first.
#[test]
fn parse_squares_reads_bottom_row_first_and_trims() {
    let mut names: Vec<&str> = vec!["Empty"; 64];
    // Bottom row of the asset grid is its last chunk.
    names[56] = "Fill";
    names[57] = "Special";
    names[48] = "Fill";
    let card = card_with_squares(square_names(&names));

    let squares = TableturfCard::try_parse_squares(&card).unwrap();

    assert_eq!(squares, vec![vec![1, 2], vec![1, 0]]);
}

#[test]
fn parse_squares_rejects_unknown_names() {
    let mut names: Vec<&str> = vec!["Empty"; 64];
    names[0] = "Lava";
    let card = card_with_squares(square_names(&names));

    assert_eq!(
        TableturfCard::try_parse_squares(&card),
        Err(CardImportError::UnknownSquare)
    );
}

#[test]
fn parse_squares_rejects_wrong_grid_sizes() {
    let names: Vec<&str> = vec!["Fill"; 63];
    let card = card_with_squares(square_names(&names));

    assert_eq!(
        TableturfCard::try_parse_squares(&card),
        Err(CardImportError::UnexpectedGridSize)
    );
}

#[test]
fn parse_squares_rejects_missing_or_mistyped_fields() {
    assert_eq!(
        TableturfCard::try_parse_squares(&Byml::Hash(Vec::new())),
        Err(CardImportError::MissingField)
    );
    assert_eq!(
        TableturfCard::try_parse_squares(&Byml::Int(3)),
        Err(CardImportError::WrongFieldType)
    );
    assert_eq!(
        TableturfCard::try_parse_squares(&card_with_squares(Byml::Bool(false))),
        Err(CardImportError::WrongFieldType)
    );
    assert_eq!(
        TableturfCard::try_parse_squares(&card_with_squares(Byml::Array(vec![Byml::Int(1)]))),
        Err(CardImportError::WrongFieldType)
    );
}

#[test]
fn trimming_keeps_only_lively_rows_and_columns() {
    let trimmed = TableturfCard::remove_empty_rows_and_cols(vec![
        vec![0, 0, 0, 0],
        vec![0, 1, 0, 2],
        vec![0, 0, 0, 0],
        vec![0, 2, 0, 1],
    ]);

    assert_eq!(trimmed, vec![vec![1, 2], vec![2, 1]]);
}

#[test]
fn map_validation_accepts_even_known_squares() {
    let map = RawTableturfMap {
        name: "TestMap".to_string(),
        squares: vec![vec![0, 1, 2], vec![3, 0, 0]],
    };
    let accepted = validate_map(map).unwrap();
    assert_eq!(accepted.name, "TestMap");
}

#[test]
fn map_validation_rejects_ragged_rows() {
    let map = RawTableturfMap {
        name: "Ragged".to_string(),
        squares: vec![vec![0, 1, 2], vec![3, 0]],
    };
    let err = validate_map(map).unwrap_err();
    assert_eq!(err.map_name, "Ragged");
    assert_eq!(err.message, "Rows are not of equal size");
}

#[test]
fn map_validation_rejects_unknown_squares() {
    let map = RawTableturfMap {
        name: "Odd".to_string(),
        squares: vec![vec![0, 9]],
    };
    let err = validate_map(map).unwrap_err();
    assert_eq!(err.map_name, "Odd");
    assert_eq!(err.message, "Couldn't recognize some squares");
}

#[test]
fn translation_files_are_sorted_by_their_names() {
    assert_eq!(
        LangFileType::from_file_name("Mals/MiniGameMapName.msbt"),
        Some(LangFileType::MapName)
    );
    assert_eq!(
        LangFileType::from_file_name("Mals/MiniGameCardName.msbt"),
        Some(LangFileType::CardName)
    );
    assert_eq!(LangFileType::from_file_name("Mals/Weapons.msbt"), None);
}
