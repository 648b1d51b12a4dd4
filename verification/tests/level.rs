use topdown_core::geometry::Point2;
use topdown_core::grid::Grid;
use topdown_core::format::SectionKind;
use topdown_core::level::{Level, LevelError};
use topdown_core::material::Material;
use topdown_core::weapon::{FireMode, Sound, Sprite, Weapon};

fn weapon(name: &str, clip_size: u16, clips: u16) -> Weapon {
    Weapon {
        name: String::from(name),
        clip_size,
        clips,
        damage: 10,
        penetration: 0,
        fire_rate: 100,
        reload_time: 1000,
        fire_mode: FireMode::BoltAction,
        shot_snd: Sound(1),
        cock_snd: Sound(2),
        reload_snd: Sound(3),
        click_snd: Sound(4),
        impact_snd: Sound(5),
        entity_sprite: Sprite(6),
        hands_sprite: Sprite(7),
        spray_pattern: vec![1],
        spray_decay: 100,
        spray_repeat: 1,
    }
}

fn catalog() -> Vec<Weapon> {
    vec![weapon("pistol", 7, 3), weapon("rifle", 5, 4), weapon("shotgun", 2, 10)]
}

fn section(keyword: &str, payload: &[u8]) -> Vec<u8> {
    let mut v = Vec::from(keyword.as_bytes());
    v.push(b'\n');
    v.extend_from_slice(payload);
    v.push(b'\n');
    v
}

fn grid_section() -> Vec<u8> {
    section("GRD", &bincode::serialize(&(2u16, vec![0u8, 1, 2, 3])).unwrap())
}

#[test]
fn a_new_level_is_grass_and_nothing_else() {
    let l = Level::new(3, 2);
    assert_eq!((l.grid.width(), l.grid.height()), (3, 2));
    assert_eq!(l.grid.get(2, 1), Some(Material::Grass));
    assert!(l.start_point.is_none() && l.exit.is_none());
    assert!(l.enemies.is_empty() && l.intels.is_empty() && l.pickups.is_empty());
    assert!(l.decorations.is_empty() && l.weapons.is_empty());
}

#[test]
fn a_level_is_written_byte_for_byte() {
    let mut l = Level::new(2, 1);
    l.grid.insert(1, 0, Material::Wall);
    l.start_point = Some(Point2::new(32, -1));
    let bytes = l.save(&Vec::new()).unwrap();
    let expected: Vec<u8> = vec![
        b'G', b'R', b'D', b'\n', // the grid's line
        2, 0, // the width
        2, 0, 0, 0, 0, 0, 0, 0, // the count of the cells
        0, 1, // grass, wall
        b'\n', b'S', b'T', b'A', b'R', b'T', b'\n', // the start's line
        0x00, 0x00, 0x00, 0x42, // 32.0
        0x00, 0x00, 0x80, 0xbf, // -1.0
        b'\n', b'E', b'N', b'D', b'\n',
    ];
    assert_eq!(bytes, expected);
}

#[test]
fn every_section_is_written_in_its_form() {
    let cat = catalog();
    let mut l = Level::new(1, 1);
    l.start_point = Some(Point2::new(1, 2));
    l.enemies = vec![vec![9, 8], vec![]];
    l.exit = Some(Point2::new(3, 4));
    l.intels = vec![Point2::new(5, 6), Point2::new(-7, 8)];
    l.decorations = vec![vec![1, 2, 3]];
    l.pickups = vec![(Point2::new(9, 10), 4)];
    l.weapons = vec![cat[2].make_drop(Point2::new(11, 12)), cat[0].make_drop(Point2::new(0, 0))];
    let mut expected = Vec::new();
    expected.extend(b"GRD\n");
    expected.extend(bincode::serialize(&(1u16, vec![0u8])).unwrap());
    expected.extend(b"\nSTART\n");
    expected.extend(bincode::serialize(&(1f32, 2f32)).unwrap());
    expected.extend(b"\nENEMIES\n");
    expected.extend(bincode::serialize(&vec![vec![9u8, 8], vec![]]).unwrap());
    expected.extend(b"\nPOINT GOAL\n");
    expected.extend(bincode::serialize(&(3f32, 4f32)).unwrap());
    expected.extend(b"\nINTELS\n");
    expected.extend(bincode::serialize(&vec![(5f32, 6f32), (-7f32, 8f32)]).unwrap());
    expected.extend(b"\nDECORATIONS\n");
    expected.extend(bincode::serialize(&vec![vec![1u8, 2, 3]]).unwrap());
    expected.extend(b"\nPICKUPS\n");
    expected.extend(bincode::serialize(&vec![((9f32, 10f32), 4u8)]).unwrap());
    expected.extend(b"\nWEAPONS\n");
    expected.extend(bincode::serialize(&vec![((11f32, 12f32), 2u8), ((0f32, 0f32), 0u8)]).unwrap());
    expected.extend(b"\nEND\n");
    assert_eq!(l.save(&cat).unwrap(), expected);
}

#[test]
fn a_level_reads_back_as_it_was_written() {
    let cat = catalog();
    let mut l = Level::new(3, 2);
    l.grid.insert(0, 0, Material::Wall);
    l.grid.insert(2, 1, Material::Stairs);
    l.grid.insert(1, 1, Material::Missing);
    l.start_point = Some(Point2::new(40, 50));
    l.enemies = vec![vec![1, 2, 3], vec![], vec![10, 10, 10, 10]];
    l.exit = Some(Point2::new(-16_777_216, 16_777_216));
    l.intels = vec![Point2::new(1, 1), Point2::new(95, 33), Point2::new(0, -5)];
    l.decorations = vec![vec![b'\n', b'E', b'N', b'D', b'\n']];
    l.pickups = vec![(Point2::new(7, 7), 0), (Point2::new(8, 8), 255)];
    let mut used = cat[1].make_drop(Point2::new(64, 65));
    used.cur_clip = 1;
    used.ammo = 2;
    l.weapons = vec![used, cat[2].make_drop(Point2::new(1, 1))];

    let bytes = l.save(&cat).unwrap();
    let back = Level::load(&bytes, &cat).unwrap();

    assert_eq!(back.grid.width(), 3);
    assert_eq!(back.grid.codes(), l.grid.codes());
    assert_eq!(back.start_point, l.start_point);
    assert_eq!(back.enemies, l.enemies);
    assert_eq!(back.exit, l.exit);
    assert_eq!(back.intels, l.intels);
    assert_eq!(back.decorations, l.decorations);
    assert_eq!(back.pickups, l.pickups);
    assert_eq!(back.weapons.len(), 2);
    assert_eq!(back.weapons[0].pos, Point2::new(64, 65));
    assert_eq!(back.weapons[0].weapon.name, "rifle");
    // A weapon comes back fresh: the rounds are not stored.
    assert_eq!((back.weapons[0].cur_clip, back.weapons[0].ammo), (5, 20));
    assert_eq!(back.weapons[1].pos, Point2::new(1, 1));
    assert_eq!(back.weapons[1].weapon.name, "shotgun");
    assert_eq!(back.save(&cat).unwrap(), bytes);
}

#[test]
fn an_empty_level_reads_back() {
    let none: Vec<Weapon> = Vec::new();
    let l = Level::new(0, 0);
    let bytes = l.save(&none).unwrap();
    let back = Level::load(&bytes, &none).unwrap();
    assert_eq!((back.grid.width(), back.grid.height()), (0, 0));
    assert!(back.start_point.is_none() && back.weapons.is_empty());
}

#[test]
fn a_weapon_is_stored_under_the_first_entry_of_its_name() {
    let cat = vec![weapon("a", 1, 1), weapon("b", 2, 1), weapon("b", 3, 1)];
    let stranger = weapon("z", 9, 1);
    let mut l = Level::new(1, 1);
    l.weapons = vec![
        cat[2].make_drop(Point2::new(1, 0)),
        stranger.make_drop(Point2::new(2, 0)),
        cat[1].make_drop(Point2::new(3, 0)),
    ];
    let bytes = l.save(&cat).unwrap();
    let back = Level::load(&bytes, &cat).unwrap();
    let read: Vec<(i32, &str, u16)> =
        back.weapons.iter().map(|d| (d.pos.x, d.weapon.name.as_str(), d.cur_clip)).collect();
    assert_eq!(read, vec![(1, "b", 2), (2, "a", 1), (3, "b", 2)]);
}

#[test]
fn fractions_in_a_file_are_rounded_down() {
    let mut bytes = grid_section();
    bytes.extend(section("START", &bincode::serialize(&(1.75f32, -2.5f32)).unwrap()));
    bytes.extend(section("INTELS", &bincode::serialize(&vec![(-0.5f32, 99.99f32)]).unwrap()));
    bytes.extend(b"END\n");
    let none: Vec<Weapon> = Vec::new();
    let l = Level::load(&bytes, &none).unwrap();
    assert_eq!(l.start_point, Some(Point2::new(1, -3)));
    assert_eq!(l.intels, vec![Point2::new(-1, 99)]);
    // What is stored below zero stays off the grid.
    assert_eq!(Grid::snap(l.intels[0]), (65535, 3));
    assert_eq!(l.grid.codes(), vec![0, 1, 2, 3]);
    assert_eq!(l.grid.height(), 2);
}

#[test]
fn the_older_grid_section_is_read() {
    let payload = bincode::serialize(&(3usize, vec![1u16, 2, 3, 8, 9, 255])).unwrap();
    let mut bytes = section("GRID", &payload);
    bytes.extend(b"END\n");
    let none: Vec<Weapon> = Vec::new();
    let l = Level::load(&bytes, &none).unwrap();
    assert_eq!((l.grid.width(), l.grid.height()), (3, 2));
    assert_eq!(l.grid.get(2, 0), Some(Material::Dirt));
    assert_eq!(l.grid.codes(), vec![1, 2, 3, 8, 255, 255]);
}

#[test]
fn an_older_code_beyond_a_byte_is_missing() {
    let payload = bincode::serialize(&(2usize, vec![256u16, 257, 0x0103, 65535, 0, 8])).unwrap();
    let mut bytes = section("GRID", &payload);
    bytes.extend(b"END\n");
    let none: Vec<Weapon> = Vec::new();
    let l = Level::load(&bytes, &none).unwrap();
    assert_eq!((l.grid.width(), l.grid.height()), (2, 3));
    assert_eq!(l.grid.get(0, 0), Some(Material::Missing));
    assert_eq!(l.grid.get(1, 0), Some(Material::Missing));
    assert_eq!(l.grid.get(0, 1), Some(Material::Missing));
    assert_eq!(l.grid.get(1, 1), Some(Material::Missing));
    assert_eq!(l.grid.get(0, 2), Some(Material::Grass));
    assert_eq!(l.grid.get(1, 2), Some(Material::Stairs));
    assert_eq!(l.grid.codes(), vec![255, 255, 255, 255, 0, 8]);
}

#[test]
fn a_later_section_replaces_an_earlier_one() {
    let none: Vec<Weapon> = Vec::new();
    let mut bytes = grid_section();
    bytes.extend(section("START", &bincode::serialize(&(1f32, 1f32)).unwrap()));
    bytes.extend(section("START", &bincode::serialize(&(2f32, 2f32)).unwrap()));
    bytes.extend(section("GRD", &bincode::serialize(&(1u16, vec![6u8])).unwrap()));
    bytes.extend(b"END\n");
    let l = Level::load(&bytes, &none).unwrap();
    assert_eq!(l.start_point, Some(Point2::new(2, 2)));
    assert_eq!(l.grid.codes(), vec![6]);
}

#[test]
fn blank_lines_and_blanks_at_line_ends_are_passed_over() {
    let none: Vec<Weapon> = Vec::new();
    let mut bytes = Vec::from(&b"\n \t\r\n\nGRD \t\r\n"[..]);
    bytes.extend(bincode::serialize(&(1u16, vec![1u8])).unwrap());
    bytes.extend(b"\n\n\n\x0b\x0c\nEND  ");
    let l = Level::load(&bytes, &none).unwrap();
    assert_eq!(l.grid.codes(), vec![1]);
}

#[test]
fn what_follows_the_end_line_is_not_read() {
    let none: Vec<Weapon> = Vec::new();
    let mut bytes = grid_section();
    bytes.extend(b"END\nNONSENSE\n\xff\xff");
    assert!(Level::load(&bytes, &none).is_ok());
}

#[test]
fn a_file_without_sections_but_the_end_is_the_empty_level() {
    let none: Vec<Weapon> = Vec::new();
    let l = Level::load(b"END", &none).unwrap();
    assert_eq!((l.grid.width(), l.grid.height()), (0, 0));
}

#[test]
fn an_unknown_line_is_a_bad_section() {
    let none: Vec<Weapon> = Vec::new();
    let mut bytes = grid_section();
    bytes.extend(b"FOO\nEND\n");
    assert_eq!(Level::load(&bytes, &none).err(), Some(LevelError::BadSection));
    assert_eq!(Level::load(b" END\n", &none).err(), Some(LevelError::BadSection));
    assert_eq!(Level::load(b"end\n", &none).err(), Some(LevelError::BadSection));
    assert_eq!(Level::load(b"ENDING\n", &none).err(), Some(LevelError::BadSection));
}

#[test]
fn a_file_that_stops_before_the_end_line_lacks_its_end() {
    let none: Vec<Weapon> = Vec::new();
    assert_eq!(Level::load(b"", &none).err(), Some(LevelError::MissingEnd));
    assert_eq!(Level::load(b"\n\n", &none).err(), Some(LevelError::MissingEnd));
    assert_eq!(Level::load(&grid_section(), &none).err(), Some(LevelError::MissingEnd));
}

#[test]
fn a_payload_cut_short_does_not_decode() {
    let none: Vec<Weapon> = Vec::new();
    for keyword in ["GRD", "GRID", "START", "ENEMIES", "POINT GOAL", "INTELS", "DECORATIONS", "PICKUPS", "WEAPONS"] {
        let mut bytes = Vec::from(keyword.as_bytes());
        bytes.extend(b"\n\x01\x00\x00");
        assert_eq!(Level::load(&bytes, &catalog()).err(), Some(LevelError::Decode), "{}", keyword);
    }
    let mut bytes = Vec::from(&b"INTELS\n"[..]);
    bytes.extend(bincode::serialize(&3u64).unwrap());
    bytes.extend(bincode::serialize(&(1f32, 2f32)).unwrap());
    bytes.extend(b"\nEND\n");
    assert_eq!(Level::load(&bytes, &none).err(), Some(LevelError::Decode));
    let mut bytes = Vec::from(&b"ENEMIES\n"[..]);
    bytes.extend(bincode::serialize(&u64::MAX).unwrap());
    bytes.extend(b"\nEND\n");
    assert_eq!(Level::load(&bytes, &none).err(), Some(LevelError::Decode));
}

#[test]
fn cells_that_do_not_fill_the_rows_do_not_decode() {
    let none: Vec<Weapon> = Vec::new();
    let mut bytes = section("GRD", &bincode::serialize(&(2u16, vec![0u8, 1, 2])).unwrap());
    bytes.extend(b"END\n");
    assert_eq!(Level::load(&bytes, &none).err(), Some(LevelError::Decode));
    let mut bytes = section("GRD", &bincode::serialize(&(0u16, vec![0u8])).unwrap());
    bytes.extend(b"END\n");
    assert_eq!(Level::load(&bytes, &none).err(), Some(LevelError::Decode));
}

#[test]
fn a_weapon_that_the_catalog_lacks_does_not_decode() {
    let payload = bincode::serialize(&vec![((1f32, 1f32), 2u8), ((1f32, 1f32), 3u8)]).unwrap();
    let mut bytes = section("WEAPONS", &payload);
    bytes.extend(b"END\n");
    assert_eq!(Level::load(&bytes, &catalog()).err(), Some(LevelError::Decode));
    let payload = bincode::serialize(&vec![((1f32, 1f32), 2u8)]).unwrap();
    let mut bytes = section("WEAPONS", &payload);
    bytes.extend(b"END\n");
    let cat = catalog();
    let l = Level::load(&bytes, &cat).unwrap();
    assert_eq!(l.weapons[0].weapon.name, "shotgun");
    assert_eq!((l.weapons[0].cur_clip, l.weapons[0].ammo), (2, 20));
}

#[test]
fn every_section_has_its_keyword() {
    let table: [(SectionKind, &str); 10] = [
        (SectionKind::Grd, "GRD"),
        (SectionKind::LegacyGrid, "GRID"),
        (SectionKind::Start, "START"),
        (SectionKind::Enemies, "ENEMIES"),
        (SectionKind::PointGoal, "POINT GOAL"),
        (SectionKind::Intels, "INTELS"),
        (SectionKind::Decorations, "DECORATIONS"),
        (SectionKind::Pickups, "PICKUPS"),
        (SectionKind::Weapons, "WEAPONS"),
        (SectionKind::End, "END"),
    ];
    for (kind, word) in table {
        assert_eq!(kind.keyword_bytes(), word.as_bytes());
    }
}

#[test]
fn a_level_outside_the_world_is_not_valid() {
    let cat = catalog();
    let mut l = Level::new(2, 2);
    assert!(l.is_valid());
    l.intels = vec![Point2::new(0, 0), Point2::new(16_777_216, -16_777_216)];
    l.pickups = vec![(Point2::new(1, 1), 1)];
    l.weapons = vec![cat[0].make_drop(Point2::new(5, 5))];
    assert!(l.is_valid());
    l.intels.push(Point2::new(16_777_217, 0));
    assert!(!l.is_valid());
    l.intels.pop();
    l.start_point = Some(Point2::new(0, i32::MIN));
    assert!(!l.is_valid());
    l.start_point = None;
    l.exit = Some(Point2::new(-16_777_217, 0));
    assert!(!l.is_valid());
    l.exit = None;
    l.pickups.push((Point2::new(0, 20_000_000), 0));
    assert!(!l.is_valid());
    l.pickups.pop();
    l.weapons.push(cat[1].make_drop(Point2::new(i32::MAX, 0)));
    assert!(!l.is_valid());
    l.weapons.pop();
    assert!(l.is_valid());
}

#[test]
fn a_level_with_weapons_needs_a_catalog_with_an_entry() {
    let cat = catalog();
    let none: Vec<Weapon> = Vec::new();
    let mut l = Level::new(2, 2);
    l.start_point = Some(Point2::new(3, 4));
    l.weapons = vec![cat[1].make_drop(Point2::new(5, 6))];
    // With no entry to look the name up in, the index written is 0.
    let bytes = l.save(&none).unwrap();
    assert_eq!(Level::load(&bytes, &none).err(), Some(LevelError::Decode));
    // Any catalog with an entry reads the file.
    let back = Level::load(&bytes, &cat).unwrap();
    assert_eq!(back.weapons[0].weapon.name, "pistol");
    assert_eq!(back.weapons[0].pos, Point2::new(5, 6));
    assert_eq!(back.start_point, Some(Point2::new(3, 4)));
}

#[test]
fn a_long_catalog_is_stored_by_the_low_byte_of_the_index() {
    let cat: Vec<Weapon> = (0..300).map(|i| weapon(&format!("w{}", i), 1 + i as u16, 1)).collect();
    let mut l = Level::new(1, 1);
    l.weapons = vec![
        cat[255].make_drop(Point2::new(1, 1)),
        cat[260].make_drop(Point2::new(2, 2)),
        cat[7].make_drop(Point2::new(3, 3)),
    ];
    let back = Level::load(&l.save(&cat).unwrap(), &cat).unwrap();
    let names: Vec<&str> = back.weapons.iter().map(|d| d.weapon.name.as_str()).collect();
    assert_eq!(names, vec!["w255", "w4", "w7"]);
    let at: Vec<Point2> = back.weapons.iter().map(|d| d.pos).collect();
    assert_eq!(at, vec![Point2::new(1, 1), Point2::new(2, 2), Point2::new(3, 3)]);
}

#[test]
fn every_cell_of_the_grid_reads_back() {
    let kinds = [
        Material::Grass,
        Material::Wall,
        Material::Floor,
        Material::Dirt,
        Material::Asphalt,
        Material::Sand,
        Material::Concrete,
        Material::WoodFloor,
        Material::Stairs,
        Material::Missing,
    ];
    let none: Vec<Weapon> = Vec::new();
    let mut l = Level::new(7, 5);
    for y in 0..5u16 {
        for x in 0..7u16 {
            l.grid.insert(x, y, kinds[usize::from(y * 7 + x) % 10]);
        }
    }
    let back = Level::load(&l.save(&none).unwrap(), &none).unwrap();
    assert_eq!((back.grid.width(), back.grid.height()), (7, 5));
    for y in 0..6u16 {
        for x in 0..8u16 {
            assert_eq!(back.grid.get(x, y), l.grid.get(x, y));
        }
    }
}
