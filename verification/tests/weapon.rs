use topdown_core::geometry::Point2;
use topdown_core::weapon::{
    add_angles, catalog_is_valid, find_in_catalog, FireMode, Object, Sound, Sprite, Weapon,
    WeaponInstance,
};

fn weapon(name: &str, clip_size: u16, clips: u16) -> Weapon {
    Weapon {
        name: String::from(name),
        clip_size,
        clips,
        damage: 34,
        penetration: 250,
        fire_rate: 500,
        reload_time: 1500,
        fire_mode: FireMode::SemiAutomatic,
        shot_snd: Sound(1),
        cock_snd: Sound(2),
        reload_snd: Sound(3),
        click_snd: Sound(4),
        impact_snd: Sound(5),
        entity_sprite: Sprite(6),
        hands_sprite: Sprite(7),
        spray_pattern: vec![10, -20, 30, 5],
        spray_decay: 400,
        spray_repeat: 2,
    }
}

#[test]
fn three_rounds_fire_and_the_fourth_clicks() {
    let kind = weapon("carbine", 3, 2);
    let mut w = kind.make_instance();
    assert_eq!((w.cur_clip, w.ammo), (3, 6));
    for left in [2u16, 1, 0] {
        let (bullet, sound) = w.shoot();
        assert!(bullet.is_some());
        assert_eq!(sound, Some(Sound(1)));
        assert_eq!(w.cur_clip, left);
        // Let the time between shots pass.
        w.loading_time = 0;
    }
    let before = (w.cur_clip, w.ammo, w.loading_time, w.jerk, w.jerk_decay, w.spray_index);
    let (bullet, sound) = w.shoot();
    assert!(bullet.is_none());
    assert_eq!(sound, Some(Sound(4)));
    assert_eq!((w.cur_clip, w.ammo, w.loading_time, w.jerk, w.jerk_decay, w.spray_index), before);
    assert_eq!(w.ammo, 6);
}

#[test]
fn a_shot_starts_the_time_between_shots() {
    let kind = weapon("carbine", 3, 2);
    let mut w = kind.make_instance();
    let (bullet, _) = w.shoot();
    assert!(bullet.is_some());
    assert_eq!(w.loading_time, 500);
    // Not idle: nothing fires and nothing sounds.
    let (bullet, sound) = w.shoot();
    assert!(bullet.is_none());
    assert_eq!(sound, None);
    assert_eq!(w.cur_clip, 2);
}

#[test]
fn the_last_round_leaves_the_weapon_idle() {
    let kind = weapon("derringer", 1, 1);
    let mut w = kind.make_instance();
    let (bullet, _) = w.shoot();
    assert!(bullet.is_some());
    assert_eq!(w.cur_clip, 0);
    assert_eq!(w.loading_time, 0);
}

#[test]
fn recoil_follows_the_spray_pattern() {
    let kind = weapon("smg", 30, 1);
    let mut w = kind.make_instance();
    let mut under = Vec::new();
    let mut places = Vec::new();
    for _ in 0..7 {
        let (bullet, _) = w.shoot();
        under.push(bullet.unwrap().1);
        places.push(w.spray_index);
        assert_eq!(w.jerk_decay, 400);
        w.loading_time = 0;
    }
    // Each shot flies under the recoil built up before it.
    assert_eq!(under, vec![0, 10, -10, 20, 25, 55, 60]);
    // From the pattern's end the burst steps two places back.
    assert_eq!(places, vec![1, 2, 3, 2, 3, 2, 3]);
    assert_eq!(w.jerk, 90);
}

#[test]
fn recoil_is_gone_when_its_timer_runs_out() {
    let kind = weapon("smg", 30, 1);
    let mut w = kind.make_instance();
    w.shoot();
    w.loading_time = 0;
    w.shoot();
    assert_eq!((w.jerk, w.jerk_decay, w.spray_index), (-10, 400, 2));
    assert_eq!(w.update(399), None);
    assert_eq!((w.jerk, w.jerk_decay, w.spray_index), (-10, 1, 2));
    w.update(1);
    assert_eq!((w.jerk, w.jerk_decay, w.spray_index), (0, 0, 0));
}

#[test]
fn the_action_cycles_once_when_loading_ends() {
    let kind = weapon("rifle", 5, 1);
    let mut w = kind.make_instance();
    w.loading_time = 30;
    assert_eq!(w.update(16), None);
    assert_eq!(w.loading_time, 14);
    assert_eq!(w.update(16), Some(Sound(2)));
    assert_eq!(w.loading_time, 0);
    assert_eq!(w.update(16), None);
    assert_eq!(w.loading_time, 0);
    w.loading_time = 16;
    assert_eq!(w.update(16), Some(Sound(2)));
    w.loading_time = 16;
    assert_eq!(w.update(0), None);
    assert_eq!(w.loading_time, 16);
}

#[test]
fn reload_without_reserve_does_nothing() {
    let kind = weapon("rifle", 5, 1);
    let mut w = kind.make_instance();
    w.cur_clip = 1;
    w.ammo = 0;
    assert_eq!(w.reload(), None);
    assert_eq!((w.cur_clip, w.ammo, w.loading_time), (1, 0, 0));
}

#[test]
fn reload_with_a_full_clip_does_nothing() {
    let kind = weapon("rifle", 5, 2);
    let mut w = kind.make_instance();
    assert_eq!(w.reload(), None);
    assert_eq!((w.cur_clip, w.ammo, w.loading_time), (5, 10, 0));
}

#[test]
fn reload_fills_the_clip_from_the_reserve() {
    let kind = weapon("rifle", 5, 2);
    let mut w = kind.make_instance();
    w.cur_clip = 1;
    assert_eq!(w.reload(), Some(Sound(3)));
    assert_eq!((w.cur_clip, w.ammo, w.loading_time), (5, 6, 1500));
}

#[test]
fn reload_with_a_short_reserve_loads_what_is_left() {
    let kind = weapon("rifle", 5, 2);
    let mut w = kind.make_instance();
    w.cur_clip = 1;
    w.ammo = 2;
    assert_eq!(w.reload(), Some(Sound(3)));
    assert_eq!((w.cur_clip, w.ammo, w.loading_time), (3, 0, 1500));
    w.ammo = 2;
    w.cur_clip = 3;
    w.reload();
    assert_eq!((w.cur_clip, w.ammo), (5, 0));
}

#[test]
fn a_weapon_laid_down_and_taken_up_keeps_its_rounds() {
    let kind = weapon("rifle", 5, 2);
    let mut w = kind.make_instance();
    w.shoot();
    assert_eq!((w.cur_clip, w.loading_time, w.jerk, w.spray_index), (4, 500, 10, 1));
    let drop = w.into_drop(Point2::new(7, 9));
    assert_eq!((drop.pos, drop.cur_clip, drop.ammo), (Point2::new(7, 9), 4, 10));
    assert_eq!(drop.weapon.name, "rifle");
    let back = WeaponInstance::from_drop(drop);
    assert_eq!((back.cur_clip, back.ammo), (4, 10));
    assert_eq!((back.loading_time, back.jerk, back.jerk_decay, back.spray_index), (0, 0, 0, 0));
    assert_eq!(back.weapon.name, "rifle");
}

#[test]
fn a_fresh_drop_is_fully_loaded() {
    let kind = weapon("shotgun", 8, 4);
    let drop = kind.make_drop(Point2::new(-3, 5));
    assert_eq!((drop.pos, drop.cur_clip, drop.ammo), (Point2::new(-3, 5), 8, 32));
}

#[test]
fn a_bullet_flies_the_way_of_the_recoil() {
    let kind = weapon("smg", 30, 1);
    let mut w = kind.make_instance();
    w.shoot();
    w.loading_time = 0;
    let (maker, _) = w.shoot();
    let bullet = maker.unwrap().make(Object { pos: Point2::new(1, 2), rot: 1000 });
    assert_eq!(bullet.obj, Object { pos: Point2::new(1, 2), rot: 1010 });
    assert_eq!(bullet.weapon.name, "smg");
}

#[test]
fn angles_are_held_to_their_range() {
    assert_eq!(add_angles(5, -7), -2);
    assert_eq!(add_angles(i32::MAX, 1), i32::MAX);
    assert_eq!(add_angles(i32::MIN, -1), i32::MIN);
    assert_eq!(add_angles(i32::MAX, i32::MIN), -1);
}

#[test]
fn only_the_automatic_mode_is_automatic() {
    assert!(FireMode::Automatic.is_auto());
    assert!(!FireMode::SemiAutomatic.is_auto());
    assert!(!FireMode::BoltAction.is_auto());
    assert!(!FireMode::PumpAction { shell_load: 2 }.is_auto());
}

#[test]
fn catalog_entries_are_checked() {
    assert!(weapon("ok", 5, 2).is_valid());
    assert!(!weapon("no clip", 0, 2).is_valid());
    assert!(!weapon("no reserve", 5, 0).is_valid());
    assert!(!weapon("too much", 300, 300).is_valid());
    assert!(weapon("just enough", 255, 257).is_valid());
    let mut w = weapon("steps too far", 5, 2);
    w.spray_repeat = 5;
    assert!(!w.is_valid());
    w.spray_repeat = 0;
    assert!(!w.is_valid());
    w.spray_repeat = 4;
    assert!(w.is_valid());
    w.spray_pattern = Vec::new();
    assert!(!w.is_valid());
    assert!(catalog_is_valid(&vec![weapon("a", 1, 1), weapon("b", 2, 2)]));
    assert!(!catalog_is_valid(&vec![weapon("a", 1, 1), weapon("b", 0, 2)]));
    assert!(catalog_is_valid(&Vec::new()));
}

#[test]
fn the_first_entry_of_a_name_is_found() {
    let catalog = vec![weapon("a", 1, 1), weapon("b", 2, 2), weapon("b", 3, 3), weapon("c", 4, 4)];
    assert_eq!(find_in_catalog(&catalog, &String::from("a")), 0);
    assert_eq!(find_in_catalog(&catalog, &String::from("b")), 1);
    assert_eq!(find_in_catalog(&catalog, &String::from("c")), 3);
    assert_eq!(find_in_catalog(&catalog, &String::from("d")), 0);
    assert_eq!(find_in_catalog(&Vec::new(), &String::from("a")), 0);
}

#[test]
fn a_weapon_is_shown_with_its_rounds() {
    let kind = weapon("rifle", 5, 4);
    let mut w = kind.make_instance();
    assert_eq!(w.label(), "rifle 5/20");
    w.cur_clip = 0;
    w.ammo = 65535;
    assert_eq!(w.label(), "rifle 0/65535");
    let named = weapon("M4 A1", 30, 10);
    assert_eq!(named.make_drop(Point2::new(0, 0)).label(), "M4 A1 30/300");
}

#[test]
fn a_weapon_that_does_not_fit_its_kind_is_not_valid() {
    let kind = weapon("rifle", 5, 2);
    let mut w = kind.make_instance();
    assert!(w.is_valid());
    w.cur_clip = 6;
    assert!(!w.is_valid());
    w.cur_clip = 5;
    w.spray_index = 4;
    assert!(!w.is_valid());
    w.spray_index = 3;
    assert!(w.is_valid());
    let mut d = kind.make_drop(Point2::new(0, 0));
    assert!(d.is_valid());
    d.cur_clip = 6;
    assert!(!d.is_valid());
    let broken = weapon("broken", 0, 1);
    let held = WeaponInstance {
        cur_clip: 0,
        ammo: 0,
        loading_time: 0,
        jerk: 0,
        jerk_decay: 0,
        spray_index: 0,
        weapon: &broken,
    };
    assert!(!held.is_valid());
}
