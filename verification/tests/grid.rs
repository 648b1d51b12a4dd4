use topdown_core::geometry::Point2;
use topdown_core::grid::Grid;
use topdown_core::material::Material;

fn numbered(width: u16, height: u16) -> Grid {
    let kinds = [
        Material::Grass,
        Material::Wall,
        Material::Floor,
        Material::Dirt,
        Material::Asphalt,
        Material::Sand,
        Material::Concrete,
        Material::WoodFloor,
        Material::Stairs,
    ];
    let mut g = Grid::new(width, height);
    for y in 0..height {
        for x in 0..width {
            g.insert(x, y, kinds[((y * width + x) % 9) as usize]);
        }
    }
    g
}

fn rows(g: &Grid) -> Vec<Vec<Material>> {
    (0..g.height())
        .map(|y| (0..g.width()).map(|x| g.get(x, y).unwrap()).collect())
        .collect()
}

#[test]
fn new_grid_has_the_given_size() {
    let g = Grid::new(7, 3);
    assert_eq!(g.width(), 7);
    assert_eq!(g.height(), 3);
    assert_eq!(g.get(6, 2), Some(Material::Grass));
    assert_eq!(g.get(7, 0), None);
    assert_eq!(g.get(0, 3), None);
    assert_eq!(g.codes(), vec![0u8; 21]);
}

#[test]
fn a_grid_without_columns_has_no_rows() {
    let g = Grid::new(0, 5);
    assert_eq!(g.width(), 0);
    assert_eq!(g.height(), 0);
    assert_eq!(g.get(0, 0), None);
    assert!(g.is_solid(0, 0));
}

#[test]
fn what_the_grid_lacks_is_solid() {
    let g = Grid::new(4, 4);
    assert!(!g.is_solid(3, 3));
    assert!(g.is_solid(4, 0));
    assert!(g.is_solid(65535, 0));
    assert!(g.is_solid(0, 4));
    assert!(g.is_solid(0, 65535));
    assert!(g.is_solid_tuple((4, 1)));
    assert!(!g.is_solid_tuple((1, 1)));
}

#[test]
fn walls_concrete_and_missing_are_solid() {
    let mut g = Grid::new(3, 1);
    g.insert(0, 0, Material::Wall);
    g.insert(1, 0, Material::Concrete);
    g.insert(2, 0, Material::Stairs);
    assert!(g.is_solid(0, 0));
    assert!(g.is_solid(1, 0));
    assert!(!g.is_solid(2, 0));
    g.insert(2, 0, Material::Missing);
    assert!(g.is_solid(2, 0));
}

#[test]
fn insert_off_the_grid_changes_nothing() {
    let mut g = numbered(3, 2);
    let before = rows(&g);
    g.insert(3, 0, Material::Wall);
    g.insert(0, 2, Material::Wall);
    g.insert(65535, 65535, Material::Wall);
    assert_eq!(rows(&g), before);
}

#[test]
fn widen_adds_grass_at_the_end_of_each_row() {
    let mut g = numbered(2, 2);
    g.widen();
    assert_eq!(g.width(), 3);
    assert_eq!(g.height(), 2);
    assert_eq!(
        rows(&g),
        vec![
            vec![Material::Grass, Material::Wall, Material::Grass],
            vec![Material::Floor, Material::Dirt, Material::Grass],
        ]
    );
}

#[test]
fn thin_removes_the_end_of_each_row() {
    let mut g = numbered(3, 2);
    g.thin();
    assert_eq!(g.width(), 2);
    assert_eq!(g.height(), 2);
    assert_eq!(
        rows(&g),
        vec![vec![Material::Grass, Material::Wall], vec![Material::Dirt, Material::Asphalt]]
    );
}

#[test]
fn widen_then_thin_gives_the_grid_back() {
    let mut g = numbered(5, 4);
    let before = rows(&g);
    g.widen();
    g.thin();
    assert_eq!(g.width(), 5);
    assert_eq!(rows(&g), before);
}

#[test]
fn thin_leaves_the_last_column() {
    let mut g = numbered(1, 3);
    let before = rows(&g);
    g.thin();
    assert_eq!(g.width(), 1);
    assert_eq!(rows(&g), before);
}

#[test]
fn widen_gives_a_grid_without_columns_its_first() {
    let mut g = Grid::new(0, 0);
    g.widen();
    assert_eq!(g.width(), 1);
    assert_eq!(g.height(), 0);
    g.thin();
    assert_eq!(g.width(), 1);
}

#[test]
fn heighten_appends_a_row_of_grass() {
    let mut g = numbered(2, 1);
    g.heighten();
    assert_eq!(g.height(), 2);
    assert_eq!(
        rows(&g),
        vec![vec![Material::Grass, Material::Wall], vec![Material::Grass, Material::Grass]]
    );
}

#[test]
fn shorten_removes_the_last_row_but_not_the_only_one() {
    let mut g = numbered(2, 3);
    g.shorten();
    assert_eq!(g.height(), 2);
    assert_eq!(
        rows(&g),
        vec![vec![Material::Grass, Material::Wall], vec![Material::Floor, Material::Dirt]]
    );
    g.shorten();
    assert_eq!(g.height(), 1);
    g.shorten();
    assert_eq!(g.height(), 1);
    assert_eq!(rows(&g), vec![vec![Material::Grass, Material::Wall]]);
}

#[test]
fn shorten_leaves_an_empty_grid() {
    let mut g = Grid::new(3, 0);
    g.shorten();
    assert_eq!((g.width(), g.height()), (3, 0));
    let mut g = Grid::new(0, 0);
    g.shorten();
    g.heighten();
    assert_eq!((g.width(), g.height()), (0, 0));
}

#[test]
fn positions_snap_to_their_cell() {
    assert_eq!(Grid::snap_coords(0, 0), (0, 0));
    assert_eq!(Grid::snap_coords(31, 32), (0, 1));
    assert_eq!(Grid::snap_coords(95, 96), (2, 3));
    assert_eq!(Grid::snap(Point2::new(320, 64)), (10, 2));
}

#[test]
fn negative_positions_snap_off_the_grid() {
    assert_eq!(Grid::snap_coords(-1, 0), (65535, 0));
    assert_eq!(Grid::snap_coords(5, -32), (0, 65535));
    assert_eq!(Grid::snap_coords(i32::MIN, i32::MAX), (65535, 65535));
    assert_eq!(Grid::snap_coords(65534 * 32 + 31, 65535 * 32), (65534, 65535));
}

#[test]
fn grids_are_built_from_their_codes() {
    let g = Grid::from_codes(2, &vec![1, 2, 8, 9, 255, 77]).unwrap();
    assert_eq!((g.width(), g.height()), (2, 3));
    assert_eq!(
        rows(&g),
        vec![
            vec![Material::Wall, Material::Floor],
            vec![Material::Stairs, Material::Missing],
            vec![Material::Missing, Material::Missing],
        ]
    );
    assert_eq!(g.codes(), vec![1, 2, 8, 255, 255, 255]);
    assert!(Grid::from_codes(2, &vec![1, 2, 3]).is_none());
    assert!(Grid::from_codes(0, &vec![1]).is_none());
    assert!(Grid::from_codes(0, &vec![]).is_some());
}

#[test]
fn every_material_has_its_code() {
    let table = [
        (Material::Grass, 0u8, false),
        (Material::Wall, 1, true),
        (Material::Floor, 2, false),
        (Material::Dirt, 3, false),
        (Material::Asphalt, 4, false),
        (Material::Sand, 5, false),
        (Material::Concrete, 6, true),
        (Material::WoodFloor, 7, false),
        (Material::Stairs, 8, false),
        (Material::Missing, 255, true),
    ];
    for (m, code, solid) in table {
        assert_eq!(m.code(), code);
        assert_eq!(Material::from_code(code), m);
        assert_eq!(m.solid(), solid);
    }
    for code in 9..255u8 {
        assert_eq!(Material::from_code(code), Material::Missing);
    }
}

#[test]
fn grids_that_are_built_are_valid() {
    assert!(Grid::new(0, 0).is_valid());
    assert!(Grid::new(3, 0).is_valid());
    let mut g = numbered(3, 4);
    assert!(g.is_valid());
    g.widen();
    g.heighten();
    g.thin();
    g.thin();
    g.shorten();
    assert!(g.is_valid());
    assert_eq!((g.width(), g.height()), (2, 4));
}
