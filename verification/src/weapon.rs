//! Weapons: the catalog entries, a weapon in a hand, a weapon on the ground,
//! and the rules of firing and reloading.
//!
//! Durations are in milliseconds. Recoil and rotation are angles in units of
//! the caller's choosing; the library only adds them up.

use vstd::prelude::*;
use crate::geometry::Point2;

verus! {

/// How a weapon fires.
#[derive(Debug, Clone, Copy, PartialEq, Eq, Structural)]
pub enum FireMode {
    Automatic,
    SemiAutomatic,
    BoltAction,
    PumpAction { shell_load: u8 },
}

impl FireMode {
    /// Whether the weapon goes on firing while the trigger is held.
    #[inline]
    pub fn is_auto(self) -> (b: bool)
        ensures
            b == (self is Automatic),
    {
        if let FireMode::Automatic = self {
            true
        } else {
            false
        }
    }
}

/// The handle of a sound. The library never plays one: it hands the handle
/// to its caller.
#[derive(Debug, Clone, Copy, PartialEq, Eq, Structural)]
pub struct Sound(pub u16);

/// The handle of a sprite.
#[derive(Debug, Clone, Copy, PartialEq, Eq, Structural)]
pub struct Sprite(pub u16);

/// Something with a place and a heading.
#[derive(Debug, Clone, Copy, PartialEq, Eq, Structural)]
pub struct Object {
    pub pos: Point2,
    pub rot: i32,
}

/// An entry of the weapon catalog.
#[derive(Debug, Clone)]
pub struct Weapon {
    pub name: String,
    /// Rounds in a full clip; at least one.
    pub clip_size: u16,
    /// Clips of reserve that a fresh weapon comes with; at least one.
    pub clips: u16,
    pub damage: u32,
    /// Share of the damage to armour that goes through to health, in
    /// thousandths.
    pub penetration: u32,
    /// Time between two shots.
    pub fire_rate: u32,
    /// Time to load a new clip.
    pub reload_time: u32,
    pub fire_mode: FireMode,
    pub shot_snd: Sound,
    pub cock_snd: Sound,
    pub reload_snd: Sound,
    pub click_snd: Sound,
    pub impact_snd: Sound,
    pub entity_sprite: Sprite,
    pub hands_sprite: Sprite,
    /// The recoil that each shot of a burst adds.
    pub spray_pattern: Vec<i32>,
    /// Time without a shot after which the recoil is gone.
    pub spray_decay: u32,
    /// How far the burst steps back in the pattern at the pattern's end.
    pub spray_repeat: usize,
}

/// The sum of two angles, held to the range of the type.
pub open spec fn angle_sum(a: i32, b: i32) -> i32 {
    if a + b > i32::MAX {
        i32::MAX
    } else if a + b < i32::MIN {
        i32::MIN
    } else {
        (a + b) as i32
    }
}

/// The sum of two angles, held to the range of the type.
pub fn add_angles(a: i32, b: i32) -> (r: i32)
    ensures
        r == angle_sum(a, b),
{
    let s: i64 = a as i64 + b as i64;
    if s > i32::MAX as i64 {
        i32::MAX
    } else if s < i32::MIN as i64 {
        i32::MIN
    } else {
        s as i32
    }
}

/// Whether every entry of a catalog is a valid one.
pub open spec fn catalog_wf(catalog: Seq<Weapon>) -> bool {
    forall|i: int| 0 <= i < catalog.len() ==> (#[trigger] catalog[i]).wf()
}

/// The index of the first entry of the catalog, from index `start` on, that
/// has the given name.
pub open spec fn first_named(catalog: Seq<Weapon>, name: Seq<char>, start: int) -> Option<int>
    decreases catalog.len() - start,
{
    if start < 0 || start >= catalog.len() {
        None
    } else if catalog[start].name@ == name {
        Some(start)
    } else {
        first_named(catalog, name, start + 1)
    }
}

/// The index under which a weapon of the given name is stored: that of the
/// first entry of that name, and 0 where the catalog has none.
pub open spec fn catalog_index(catalog: Seq<Weapon>, name: Seq<char>) -> int {
    match first_named(catalog, name, 0) {
        Some(i) => i,
        None => 0,
    }
}

/// `first_named` finds an entry of the name that no entry of the name
/// precedes.
pub proof fn lemma_first_named(catalog: Seq<Weapon>, name: Seq<char>, start: int)
    requires
        0 <= start,
    ensures
        match first_named(catalog, name, start) {
            Some(i) => {
                &&& start <= i < catalog.len()
                &&& catalog[i].name@ == name
                &&& forall|j: int| start <= j < i ==> catalog[j].name@ != name
            },
            None => forall|j: int| start <= j < catalog.len() ==> catalog[j].name@ != name,
        },
    decreases catalog.len() - start,
{
    if start < catalog.len() && catalog[start].name@ != name {
        lemma_first_named(catalog, name, start + 1);
    }
}

/// Checks every entry of a catalog.
pub fn catalog_is_valid(catalog: &Vec<Weapon>) -> (b: bool)
    ensures
        b == catalog_wf(catalog@),
{
    let mut i: usize = 0;
    while i < catalog.len()
        invariant
            i <= catalog@.len(),
            forall|j: int| 0 <= j < i ==> (#[trigger] catalog@[j]).wf(),
        decreases catalog@.len() - i,
    {
        if !catalog[i].is_valid() {
            return false;
        }
        i = i + 1;
    }
    true
}

/// The index under which a weapon of the given name is stored.
pub fn find_in_catalog(catalog: &Vec<Weapon>, name: &String) -> (index: usize)
    ensures
        index == catalog_index(catalog@, name@),
{
    let mut i: usize = 0;
    while i < catalog.len()
        invariant
            i <= catalog@.len(),
            first_named(catalog@, name@, 0) == first_named(catalog@, name@, i as int),
        decreases catalog@.len() - i,
    {
        if catalog[i].name == *name {
            return i;
        }
        i = i + 1;
    }
    0
}

impl Weapon {
    /// What every catalog entry must meet: a clip holds a round, a fresh
    /// weapon has a clip of reserve, the reserve can be counted, and the
    /// burst steps back at least one and at most the whole pattern.
    pub open spec fn wf(self) -> bool {
        &&& self.clip_size > 0
        &&& self.clips > 0
        &&& self.clip_size * self.clips <= u16::MAX
        &&& 1 <= self.spray_repeat <= self.spray_pattern@.len()
    }

    /// Checks the entry, as a catalog does for each when it is built.
    pub fn is_valid(&self) -> (b: bool)
        ensures
            b == self.wf(),
    {
        assert(self.clip_size * self.clips <= 65535 * 65535) by (nonlinear_arith)
            requires
                self.clip_size <= 65535,
                self.clips <= 65535,
        ;
        let reserve: u32 = self.clip_size as u32 * self.clips as u32;
        self.clip_size > 0 && self.clips > 0 && reserve <= u16::MAX as u32 && 1
            <= self.spray_repeat && self.spray_repeat <= self.spray_pattern.len()
    }

    /// The reserve that a fresh weapon of this kind comes with.
    pub open spec fn full_reserve(self) -> u16
        recommends
            self.wf(),
    {
        (self.clip_size * self.clips) as u16
    }

    /// A fresh weapon of this kind in a hand: a full clip, the full reserve,
    /// ready to fire.
    pub fn make_instance(&self) -> (w: WeaponInstance<'_>)
        requires
            self.wf(),
        ensures
            w == (WeaponInstance {
                cur_clip: self.clip_size,
                ammo: self.full_reserve(),
                loading_time: 0,
                jerk: 0,
                jerk_decay: 0,
                spray_index: 0,
                weapon: self,
            }),
            w.wf(),
    {
        let cur_clip = self.clip_size;
        WeaponInstance {
            weapon: self,
            cur_clip,
            loading_time: 0,
            jerk: 0,
            jerk_decay: 0,
            spray_index: 0,
            ammo: cur_clip * self.clips,
        }
    }

    /// A fresh weapon of this kind on the ground at `pos`: a full clip and
    /// the full reserve.
    pub open spec fn fresh_drop(&self, pos: Point2) -> WeaponDrop<'_> {
        WeaponDrop { pos, cur_clip: self.clip_size, ammo: self.full_reserve(), weapon: self }
    }

    /// A fresh weapon of this kind on the ground at `pos`.
    pub fn make_drop(&self, pos: Point2) -> (d: WeaponDrop<'_>)
        requires
            self.wf(),
        ensures
            d == self.fresh_drop(pos),
            d.wf(),
    {
        let cur_clip = self.clip_size;
        WeaponDrop { pos, cur_clip, ammo: cur_clip * self.clips, weapon: self }
    }
}

/// The character of a decimal digit.
pub open spec fn digit(d: nat) -> char {
    if d == 0 {
        '0'
    } else if d == 1 {
        '1'
    } else if d == 2 {
        '2'
    } else if d == 3 {
        '3'
    } else if d == 4 {
        '4'
    } else if d == 5 {
        '5'
    } else if d == 6 {
        '6'
    } else if d == 7 {
        '7'
    } else if d == 8 {
        '8'
    } else {
        '9'
    }
}

/// A number in decimal digits, without leading zeros.
pub open spec fn decimal(n: nat) -> Seq<char>
    decreases n,
{
    if n < 10 {
        seq![digit(n)]
    } else {
        decimal(n / 10).push(digit(n % 10))
    }
}

/// How a weapon is shown: its kind's name, the rounds in its clip and the
/// rounds of its reserve, as in `rifle 3/20`.
pub open spec fn label_text(name: Seq<char>, cur_clip: u16, ammo: u16) -> Seq<char> {
    name + seq![' '] + decimal(cur_clip as nat) + seq!['/'] + decimal(ammo as nat)
}

/// Calls `format!` with the name and the two numbers. It gives the name as
/// it is, a space, the first number in decimal digits, a slash, and the
/// second number in decimal digits.
#[verifier::external_body]
fn format_label(name: &String, cur_clip: u16, ammo: u16) -> (s: String)
    ensures
        s@ == label_text(name@, cur_clip, ammo),
{
    format!("{} {}/{}", name, cur_clip, ammo)
}

/// A weapon on the ground.
#[derive(Debug, Clone, Copy)]
pub struct WeaponDrop<'a> {
    pub pos: Point2,
    pub cur_clip: u16,
    pub ammo: u16,
    pub weapon: &'a Weapon,
}

impl<'a> WeaponDrop<'a> {
    /// The clip holds no more than its size, and the kind is a valid one.
    pub open spec fn wf(self) -> bool {
        &&& self.weapon.wf()
        &&& self.cur_clip <= self.weapon.clip_size
    }

    /// Checks the weapon and its kind.
    pub fn is_valid(&self) -> (b: bool)
        ensures
            b == self.wf(),
    {
        self.weapon.is_valid() && self.cur_clip <= self.weapon.clip_size
    }

    /// How the weapon is shown.
    pub fn label(&self) -> (s: String)
        ensures
            s@ == label_text(self.weapon.name@, self.cur_clip, self.ammo),
    {
        format_label(&self.weapon.name, self.cur_clip, self.ammo)
    }
}

/// A weapon in a hand.
#[derive(Debug, Copy, Clone)]
pub struct WeaponInstance<'a> {
    pub cur_clip: u16,
    pub ammo: u16,
    /// Time until the weapon can fire again.
    pub loading_time: u32,
    /// The recoil that has built up.
    pub jerk: i32,
    /// Time until the recoil is gone.
    pub jerk_decay: u32,
    /// The place in the spray pattern of the next shot.
    pub spray_index: usize,
    pub weapon: &'a Weapon,
}

/// What a shot lets loose: the kind of the weapon and the recoil that the
/// shot was fired under.
#[derive(Debug, Copy, Clone)]
pub struct BulletMaker<'a>(pub &'a Weapon, pub i32);

/// A bullet in flight.
#[derive(Debug, Copy, Clone)]
pub struct Bullet<'a> {
    pub obj: Object,
    pub weapon: &'a Weapon,
}

impl<'a> BulletMaker<'a> {
    /// The bullet of this shot, fired from where `obj` stands: it flies the
    /// way `obj` faces, turned by the recoil.
    pub fn make(self, obj: Object) -> (b: Bullet<'a>)
        ensures
            b == (Bullet {
                obj: Object { pos: obj.pos, rot: angle_sum(obj.rot, self.1) },
                weapon: self.0,
            }),
    {
        let mut obj = obj;
        obj.rot = add_angles(obj.rot, self.1);
        Bullet { obj, weapon: self.0 }
    }
}

impl<'a> WeaponInstance<'a> {
    /// The kind is a valid one, the clip holds no more than its size, and the
    /// next shot has a place in the spray pattern.
    pub open spec fn wf(self) -> bool {
        &&& self.weapon.wf()
        &&& self.cur_clip <= self.weapon.clip_size
        &&& self.spray_index < self.weapon.spray_pattern@.len()
    }

    /// Checks the weapon and its kind.
    pub fn is_valid(&self) -> (b: bool)
        ensures
            b == self.wf(),
    {
        self.weapon.is_valid() && self.cur_clip <= self.weapon.clip_size && self.spray_index
            < self.weapon.spray_pattern.len()
    }

    /// How the weapon is shown.
    pub fn label(&self) -> (s: String)
        ensures
            s@ == label_text(self.weapon.name@, self.cur_clip, self.ammo),
    {
        format_label(&self.weapon.name, self.cur_clip, self.ammo)
    }

    /// The weapon laid down at `pos`: clip, reserve and kind stay.
    pub open spec fn spec_into_drop(self, pos: Point2) -> WeaponDrop<'a> {
        WeaponDrop { pos, cur_clip: self.cur_clip, ammo: self.ammo, weapon: self.weapon }
    }

    /// The weapon laid down at `pos`.
    pub fn into_drop(self, pos: Point2) -> (d: WeaponDrop<'a>)
        ensures
            d == self.spec_into_drop(pos),
            self.wf() ==> d.wf(),
    {
        let WeaponInstance { cur_clip, ammo, weapon, .. } = self;
        WeaponDrop { pos, cur_clip, ammo, weapon }
    }

    /// The weapon taken up: clip, reserve and kind stay; it is ready to fire
    /// and free of recoil.
    pub open spec fn spec_from_drop(wd: WeaponDrop<'a>) -> WeaponInstance<'a> {
        WeaponInstance {
            cur_clip: wd.cur_clip,
            ammo: wd.ammo,
            loading_time: 0,
            jerk: 0,
            jerk_decay: 0,
            spray_index: 0,
            weapon: wd.weapon,
        }
    }

    /// The weapon taken up from the ground.
    #[allow(clippy::needless_pass_by_value)]
    pub fn from_drop(wd: WeaponDrop<'a>) -> (w: Self)
        ensures
            w == Self::spec_from_drop(wd),
            wd.wf() ==> w.wf(),
    {
        let WeaponDrop { cur_clip, ammo, weapon, .. } = wd;
        Self { loading_time: 0, jerk: 0, jerk_decay: 0, spray_index: 0, cur_clip, ammo, weapon }
    }

    /// A weapon laid down and taken up again has its clip, its reserve and
    /// its kind as before, and is ready to fire and free of recoil; a weapon
    /// taken up and laid down again where it lay is as it was.
    pub proof fn lemma_down_and_up(self, wd: WeaponDrop<'a>, pos: Point2)
        ensures
            Self::spec_from_drop(self.spec_into_drop(pos)) == (WeaponInstance {
                loading_time: 0,
                jerk: 0,
                jerk_decay: 0,
                spray_index: 0,
                ..self
            }),
            Self::spec_from_drop(wd).spec_into_drop(wd.pos) == wd,
    {
    }

    /// The weapon after `dt` has passed.
    ///
    /// The recoil timer runs down; when it runs out, recoil and burst are
    /// gone. The loading timer runs down.
    pub open spec fn spec_update(self, dt: u32) -> WeaponInstance<'a> {
        let recovered = self.jerk_decay <= dt;
        WeaponInstance {
            jerk: if recovered {
                0
            } else {
                self.jerk
            },
            jerk_decay: if recovered {
                0
            } else {
                (self.jerk_decay - dt) as u32
            },
            spray_index: if recovered {
                0
            } else {
                self.spray_index
            },
            loading_time: if self.loading_time <= dt {
                0
            } else {
                (self.loading_time - dt) as u32
            },
            ..self
        }
    }

    /// Whether the loading timer runs out within `dt`: it is running and has
    /// at most `dt` left.
    pub open spec fn cycles_within(self, dt: u32) -> bool {
        0 < self.loading_time <= dt
    }

    /// Lets `dt` pass. Returns the sound of the action cycling in the call in
    /// which the loading timer runs out, once for each time it was set.
    pub fn update(&mut self, dt: u32) -> (snd: Option<Sound>)
        ensures
            *final(self) == old(self).spec_update(dt),
            snd == (if old(self).cycles_within(dt) {
                Some(old(self).weapon.cock_snd)
            } else {
                None
            }),
            snd is Some <==> old(self).loading_time > 0 && final(self).loading_time == 0,
            old(self).wf() ==> final(self).wf(),
    {
        if self.jerk_decay <= dt {
            self.jerk = 0;
            self.jerk_decay = 0;
            self.spray_index = 0;
        } else {
            self.jerk_decay -= dt;
        }
        if self.loading_time <= dt {
            let was_loading = self.loading_time > 0;
            self.loading_time = 0;
            if was_loading {
                return Some(self.weapon.cock_snd);
            }
        } else {
            self.loading_time -= dt;
        }
        None
    }

    /// Whether a reload does anything: the clip has room and the reserve has
    /// rounds.
    pub open spec fn can_reload(self) -> bool {
        self.cur_clip != self.weapon.clip_size && self.ammo != 0
    }

    /// The rounds that a reload moves from the reserve into the clip: what
    /// the clip lacks, or the whole reserve if that is less.
    pub open spec fn rounds_to_load(self) -> int {
        let room = self.weapon.clip_size - self.cur_clip;
        if self.ammo < room {
            self.ammo as int
        } else {
            room
        }
    }

    /// The weapon after a reload.
    pub open spec fn spec_reload(self) -> WeaponInstance<'a> {
        if self.can_reload() {
            WeaponInstance {
                loading_time: self.weapon.reload_time,
                cur_clip: (self.cur_clip + self.rounds_to_load()) as u16,
                ammo: (self.ammo - self.rounds_to_load()) as u16,
                ..self
            }
        } else {
            self
        }
    }

    /// Reloads. With a full clip or an empty reserve nothing happens and
    /// nothing sounds. Otherwise the loading timer is set to the reload
    /// time, rounds move from the reserve into the clip, and the reload
    /// sound is returned.
    pub fn reload(&mut self) -> (snd: Option<Sound>)
        requires
            old(self).wf(),
        ensures
            *final(self) == old(self).spec_reload(),
            snd == (if old(self).can_reload() {
                Some(old(self).weapon.reload_snd)
            } else {
                None
            }),
            final(self).wf(),
            final(self).cur_clip + final(self).ammo == old(self).cur_clip + old(self).ammo,
    {
        let clip_size = self.weapon.clip_size;
        if self.cur_clip == clip_size || self.ammo == 0 {
            return None;
        }
        self.loading_time = self.weapon.reload_time;

        let ammo_to_reload = clip_size - self.cur_clip;

        if self.ammo < ammo_to_reload {
            self.cur_clip += self.ammo;
            self.ammo = 0;
        } else {
            self.ammo -= ammo_to_reload;
            self.cur_clip = clip_size;
        }
        Some(self.weapon.reload_snd)
    }

    /// Whether pulling the trigger fires: a round is in the clip and the
    /// weapon is idle.
    pub open spec fn can_shoot(self) -> bool {
        self.cur_clip > 0 && self.loading_time == 0
    }

    /// The place in the spray pattern after a shot from place `index`: the
    /// next place, and from the end of the pattern `repeat` places back.
    pub open spec fn next_spray_index(index: int, len: int, repeat: int) -> int {
        if index + 1 >= len {
            index + 1 - repeat
        } else {
            index + 1
        }
    }

    /// The weapon after the trigger was pulled.
    pub open spec fn spec_shoot(self) -> WeaponInstance<'a> {
        if self.can_shoot() {
            WeaponInstance {
                cur_clip: (self.cur_clip - 1) as u16,
                loading_time: if self.cur_clip > 1 {
                    self.weapon.fire_rate
                } else {
                    self.loading_time
                },
                jerk: angle_sum(self.jerk, self.weapon.spray_pattern@[self.spray_index as int]),
                jerk_decay: self.weapon.spray_decay,
                spray_index: Self::next_spray_index(
                    self.spray_index as int,
                    self.weapon.spray_pattern@.len() as int,
                    self.weapon.spray_repeat as int,
                ) as usize,
                ..self
            }
        } else {
            self
        }
    }

    /// Pulls the trigger.
    ///
    /// With a round in the clip and the weapon idle, the shot goes off: the
    /// clip loses a round, the time between shots starts unless the clip is
    /// now empty, the recoil grows by the pattern's entry and its timer
    /// starts anew. The result is the bullet to spawn, under the recoil from
    /// before this shot, and the shot's sound. Without a round the result is
    /// the click of the empty weapon; with a round but not idle, nothing.
    pub fn shoot(&mut self) -> (r: (Option<BulletMaker<'a>>, Option<Sound>))
        requires
            old(self).wf(),
        ensures
            *final(self) == old(self).spec_shoot(),
            final(self).wf(),
            old(self).can_shoot() ==> r == (
                Some(BulletMaker(old(self).weapon, old(self).jerk)),
                Some(old(self).weapon.shot_snd),
            ),
            !old(self).can_shoot() ==> r.0 is None && r.1 == (if old(self).cur_clip == 0 {
                Some(old(self).weapon.click_snd)
            } else {
                None
            }),
    {
        if self.cur_clip > 0 && self.loading_time == 0 {
            self.cur_clip -= 1;
            if self.cur_clip > 0 {
                self.loading_time = self.weapon.fire_rate;
            }
            let jerk = self.jerk;

            let len = self.weapon.spray_pattern.len();
            self.jerk_decay = self.weapon.spray_decay;
            self.jerk = add_angles(self.jerk, self.weapon.spray_pattern[self.spray_index]);
            self.spray_index += 1;
            if self.spray_index >= len {
                self.spray_index -= self.weapon.spray_repeat;
            }
            (Some(BulletMaker(self.weapon, jerk)), Some(self.weapon.shot_snd))
        } else {
            if self.cur_clip == 0 {
                (None, Some(self.weapon.click_snd))
            } else {
                (None, None)
            }
        }
    }
}

} // verus!
