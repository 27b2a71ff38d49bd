use my_game::map::TileMap;

const LEVEL: &str = "0,0,0\n0,1,0\n\n1,2,1\n";

#[test]
fn csv_rows_and_columns() {
    let map = TileMap::from_csv_text(LEVEL);
    assert_eq!(map.rows(), 3);
    assert_eq!(map.cols(), 3);
    assert_eq!(map.tiles(), &vec![vec![0, 0, 0], vec![0, 1, 0], vec![1, 2, 1]]);
}

#[test]
fn csv_fields_are_trimmed_and_bad_ones_are_empty() {
    let map = TileMap::from_csv_text(" 2 , x,+3, 300,-1,,07\r\n   \n\t\n");
    assert_eq!(map.tiles(), &vec![vec![2, 0, 3, 0, 0, 0, 7]]);
    assert_eq!(map.rows(), 1);
    assert_eq!(map.cols(), 7);
}

#[test]
fn csv_trims_unicode_white_space() {
    let map = TileMap::from_csv_text("\u{3000}5\u{a0},1");
    assert_eq!(map.tiles(), &vec![vec![5, 1]]);
}

#[test]
fn empty_csv_is_an_empty_map() {
    let map = TileMap::from_csv_text("\n \n");
    assert_eq!(map.rows(), 0);
    assert_eq!(map.cols(), 0);
    assert_eq!(map.floor_row_below(0, 5, 0), None);
}

#[test]
fn ragged_rows_are_kept() {
    let map = TileMap::from_csv_text("1,1\n1\n");
    assert_eq!(map.cols(), 2);
    assert!(map.is_solid(0, 1));
    assert!(!map.is_solid(1, 1));
}

#[test]
fn is_solid_checks_bounds() {
    let map = TileMap::from_csv_text(LEVEL);
    assert!(map.is_solid(1, 1));
    assert!(!map.is_solid(0, 0));
    assert!(map.is_solid(2, 1));
    assert!(!map.is_solid(3, 0));
    assert!(!map.is_solid(0, 3));
}

#[test]
fn grid_cell_flips_rows() {
    let map = TileMap::from_csv_text(LEVEL);
    assert_eq!(map.grid_cell(0, 0), Some((2, 0)));
    assert_eq!(map.grid_cell(2, 1), Some((0, 1)));
    assert_eq!(map.grid_cell(3, 0), None);
    assert_eq!(map.grid_cell(0, 3), None);
    assert_eq!(map.grid_cell(-1, 0), None);
    assert_eq!(map.grid_cell(0, -1), None);
}

#[test]
fn floor_search_finds_first_solid_row_below() {
    let map = TileMap::from_csv_text(LEVEL);
    // screen row 0 is grid row 2 ("1,2,1"), screen row 1 is "0,1,0", screen row 2 is "0,0,0"
    assert_eq!(map.floor_row_below(0, 2, 0), Some(0));
    assert_eq!(map.floor_row_below(1, 1, 1), Some(1));
    assert_eq!(map.floor_row_below(0, 0, 1), None);
    assert_eq!(map.floor_row_below(0, 0, 99), None);
    assert_eq!(map.floor_row_below(-5, 0, 2), None);
    assert_eq!(map.floor_row_below(-5, 1, 2), None);
    assert_eq!(map.floor_row_below(2, 0, 0), None);
    assert_eq!(map.floor_row_below(5, 9, 1), None);
}

#[test]
fn floor_search_clamps_columns() {
    let map = TileMap::from_csv_text("0,0,1\n0,0,0\n");
    assert_eq!(map.floor_row_below(7, 9, 0), Some(1));
    assert_eq!(map.floor_row_below(-3, -1, 0), None);
}

#[test]
fn clearing_cells() {
    let mut map = TileMap::from_csv_text(LEVEL);
    map.clear_cell(1, 1);
    assert!(!map.is_solid(1, 1));
    map.clear_cell(0, 2);
    assert!(!map.is_solid(2, 2));
    map.clear_cell(-1, 0);
    map.clear_cell(0, 5);
    map.clear_cell(9, 0);
    assert_eq!(map.tiles(), &vec![vec![0, 0, 0], vec![0, 0, 0], vec![1, 2, 0]]);
    assert_eq!(map.rows(), 3);
    assert_eq!(map.cols(), 3);
}

#[test]
fn starting_higher_never_finds_a_lower_floor() {
    let map = TileMap::from_csv_text("1,0\n0,0\n0,1\n0,0\n");
    // screen rows from the top: "0,0", "0,1", "0,0", "1,0"
    assert_eq!(map.floor_row_below(0, 1, 0), Some(1));
    assert_eq!(map.floor_row_below(0, 1, 1), Some(1));
    assert_eq!(map.floor_row_below(0, 1, 2), Some(3));
    assert_eq!(map.floor_row_below(0, 0, 0), Some(3));
}
