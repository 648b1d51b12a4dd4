use topdown_core::geometry::Point2;
use topdown_core::grid::Grid;
use topdown_core::weapon::{FireMode, Object, Sound, Sprite, Weapon, WeaponDrop};
use topdown_core::world::{Enemy, Pickup, Player, World};

fn weapon(name: &str, clip_size: u16, clips: u16) -> Weapon {
    Weapon {
        name: String::from(name),
        clip_size,
        clips,
        damage: 10,
        penetration: 0,
        fire_rate: 100,
        reload_time: 1000,
        fire_mode: FireMode::Automatic,
        shot_snd: Sound(1),
        cock_snd: Sound(2),
        reload_snd: Sound(3),
        click_snd: Sound(4),
        impact_snd: Sound(5),
        entity_sprite: Sprite(6),
        hands_sprite: Sprite(7),
        spray_pattern: vec![1],
        spray_decay: 100,
        spray_repeat: 1,
    }
}

fn unarmed<'a>(x: i32, y: i32) -> Player<'a> {
    Player { obj: Object { pos: Point2::new(x, y), rot: 0 }, wep: None }
}

fn world<'a>(player: Player<'a>) -> World<'a> {
    World {
        player,
        grid: Grid::new(4, 4),
        exit: None,
        intels: Vec::new(),
        enemies: Vec::new(),
        bullets: Vec::new(),
        weapons: Vec::new(),
        decorations: Vec::new(),
        pickups: Vec::new(),
    }
}

#[test]
fn an_unarmed_player_takes_the_weapon_in_reach() {
    let kind = weapon("rifle", 5, 2);
    let mut w = world(unarmed(0, 0));
    w.weapons.push(WeaponDrop { pos: Point2::new(10, 10), cur_clip: 3, ammo: 7, weapon: &kind });
    assert_eq!(w.player_pickup(), None);
    assert!(w.weapons.is_empty());
    let held = w.player.wep.unwrap();
    assert_eq!(held.weapon.name, "rifle");
    assert_eq!((held.cur_clip, held.ammo), (3, 7));
    assert_eq!((held.loading_time, held.jerk, held.jerk_decay, held.spray_index), (0, 0, 0, 0));
}

#[test]
fn the_first_weapon_in_reach_is_taken_and_only_one() {
    let a = weapon("a", 1, 1);
    let b = weapon("b", 2, 1);
    let c = weapon("c", 3, 1);
    let mut w = world(unarmed(100, 100));
    w.weapons.push(a.make_drop(Point2::new(0, 0)));
    w.weapons.push(b.make_drop(Point2::new(100, 116)));
    w.weapons.push(c.make_drop(Point2::new(100, 100)));
    w.player_pickup();
    assert_eq!(w.player.wep.unwrap().weapon.name, "b");
    let left: Vec<&str> = w.weapons.iter().map(|d| d.weapon.name.as_str()).collect();
    assert_eq!(left, vec!["a", "c"]);
    // Armed now: the weapon underfoot stays.
    w.player_pickup();
    assert_eq!(w.player.wep.unwrap().weapon.name, "b");
    assert_eq!(w.weapons.len(), 2);
}

#[test]
fn a_weapon_out_of_reach_stays() {
    let kind = weapon("rifle", 5, 2);
    let mut w = world(unarmed(0, 0));
    w.weapons.push(kind.make_drop(Point2::new(12, 11)));
    w.player_pickup();
    assert!(w.player.wep.is_none());
    assert_eq!(w.weapons.len(), 1);
}

#[test]
fn the_first_pickup_in_reach_is_taken_and_only_one() {
    let mut w = world(unarmed(50, 50));
    w.pickups.push(Pickup { pos: Point2::new(0, 0), kind: 1 });
    w.pickups.push(Pickup { pos: Point2::new(50, 66), kind: 2 });
    w.pickups.push(Pickup { pos: Point2::new(50, 50), kind: 3 });
    assert_eq!(w.player_pickup(), Some(Pickup { pos: Point2::new(50, 66), kind: 2 }));
    assert_eq!(
        w.pickups,
        vec![
            Pickup { pos: Point2::new(0, 0), kind: 1 },
            Pickup { pos: Point2::new(50, 50), kind: 3 }
        ]
    );
    assert_eq!(w.player_pickup(), Some(Pickup { pos: Point2::new(50, 50), kind: 3 }));
    assert_eq!(w.player_pickup(), None);
    assert_eq!(w.pickups.len(), 1);
}

#[test]
fn an_armed_player_still_takes_pickups() {
    let kind = weapon("rifle", 5, 2);
    let mut player = unarmed(0, 0);
    player.wep = Some(kind.make_instance());
    let mut w = world(player);
    w.weapons.push(kind.make_drop(Point2::new(1, 1)));
    w.pickups.push(Pickup { pos: Point2::new(1, 1), kind: 9 });
    assert_eq!(w.player_pickup(), Some(Pickup { pos: Point2::new(1, 1), kind: 9 }));
    assert_eq!(w.weapons.len(), 1);
}

#[test]
fn enemies_take_their_turns_in_order() {
    let a = weapon("a", 1, 1);
    let b = weapon("b", 2, 1);
    let mut w = world(unarmed(1000, 1000));
    w.enemies.push(Enemy { pl: unarmed(0, 0) });
    w.enemies.push(Enemy { pl: unarmed(5, 5) });
    w.enemies.push(Enemy { pl: unarmed(500, 500) });
    w.weapons.push(a.make_drop(Point2::new(3, 3)));
    w.weapons.push(b.make_drop(Point2::new(4, 4)));
    w.pickups.push(Pickup { pos: Point2::new(6, 6), kind: 1 });
    let got = w.enemy_pickup();
    assert_eq!(got, vec![Some(Pickup { pos: Point2::new(6, 6), kind: 1 }), None, None]);
    assert_eq!(w.enemies[0].pl.wep.unwrap().weapon.name, "a");
    assert_eq!(w.enemies[1].pl.wep.unwrap().weapon.name, "b");
    assert!(w.enemies[2].pl.wep.is_none());
    assert!(w.weapons.is_empty());
    assert!(w.pickups.is_empty());
    assert!(w.player.wep.is_none());
}

#[test]
fn an_armed_enemy_leaves_weapons_on_the_ground() {
    let a = weapon("a", 1, 1);
    let b = weapon("b", 2, 1);
    let mut armed = unarmed(0, 0);
    armed.wep = Some(a.make_instance());
    let mut w = world(unarmed(1000, 1000));
    w.enemies.push(Enemy { pl: armed });
    w.weapons.push(b.make_drop(Point2::new(0, 0)));
    let got = w.enemy_pickup();
    assert_eq!(got, vec![None]);
    assert_eq!(w.enemies[0].pl.wep.unwrap().weapon.name, "a");
    assert_eq!(w.weapons.len(), 1);
}

#[test]
fn a_world_without_enemies_has_no_turns() {
    let mut w = world(unarmed(0, 0));
    w.pickups.push(Pickup { pos: Point2::new(0, 0), kind: 1 });
    assert!(w.enemy_pickup().is_empty());
    assert_eq!(w.pickups.len(), 1);
}
