//! The live world, and how players and enemies take up what lies on the
//! ground.

use vstd::prelude::*;
use crate::geometry::Point2;
use crate::grid::Grid;
use crate::weapon::{Bullet, Object, WeaponDrop, WeaponInstance};

verus! {

/// How near a thing on the ground must be to be taken up, in world units.
pub const PICKUP_RADIUS: u16 = 16;

/// A consumable on the ground. What it does to the one who takes it is up to
/// the owner of the health pools.
#[derive(Debug, Clone, Copy, PartialEq, Eq, Structural)]
pub struct Pickup {
    pub pos: Point2,
    pub kind: u8,
}

/// Someone who can carry a weapon.
#[derive(Debug, Clone, Copy)]
pub struct Player<'a> {
    pub obj: Object,
    pub wep: Option<WeaponInstance<'a>>,
}

/// An enemy: someone who can carry a weapon, on the other side.
#[derive(Debug, Clone, Copy)]
pub struct Enemy<'a> {
    pub pl: Player<'a>,
}

/// All the objects in the current world.
#[derive(Debug)]
pub struct World<'a> {
    pub player: Player<'a>,
    pub grid: Grid,
    pub exit: Option<Point2>,
    pub intels: Vec<Point2>,
    pub enemies: Vec<Enemy<'a>>,
    pub bullets: Vec<Bullet<'a>>,
    pub weapons: Vec<WeaponDrop<'a>>,
    /// The decorations, each as the bytes that describe it.
    pub decorations: Vec<Vec<u8>>,
    pub pickups: Vec<Pickup>,
}

/// The index of the first of `positions`, from index `start` on, that lies
/// within the pickup radius of `at`.
pub open spec fn first_in_reach(positions: Seq<Point2>, at: Point2, start: int) -> Option<int>
    decreases positions.len() - start,
{
    if start < 0 || start >= positions.len() {
        None
    } else if at.spec_within(positions[start], PICKUP_RADIUS) {
        Some(start)
    } else {
        first_in_reach(positions, at, start + 1)
    }
}

/// `first_in_reach` finds a position in reach that no position in reach
/// precedes, and finds none only where none is in reach.
pub proof fn lemma_first_in_reach(positions: Seq<Point2>, at: Point2, start: int)
    requires
        0 <= start,
    ensures
        match first_in_reach(positions, at, start) {
            Some(i) => {
                &&& start <= i < positions.len()
                &&& at.spec_within(positions[i], PICKUP_RADIUS)
                &&& forall|j: int| start <= j < i ==> !at.spec_within(positions[j], PICKUP_RADIUS)
            },
            None => forall|j: int|
                start <= j < positions.len() ==> !at.spec_within(positions[j], PICKUP_RADIUS),
        },
    decreases positions.len() - start,
{
    if start < positions.len() && !at.spec_within(positions[start], PICKUP_RADIUS) {
        lemma_first_in_reach(positions, at, start + 1);
    }
}

/// Where the weapons lie.
pub open spec fn weapon_positions(weapons: Seq<WeaponDrop>) -> Seq<Point2> {
    Seq::new(weapons.len(), |i: int| weapons[i].pos)
}

/// Where the pickups lie.
pub open spec fn pickup_positions(pickups: Seq<Pickup>) -> Seq<Point2> {
    Seq::new(pickups.len(), |i: int| pickups[i].pos)
}

/// Whether every weapon on the ground is a valid one.
pub open spec fn drops_wf(weapons: Seq<WeaponDrop>) -> bool {
    forall|i: int| 0 <= i < weapons.len() ==> (#[trigger] weapons[i]).wf()
}

/// Whether every enemy holds a valid weapon or none.
pub open spec fn enemies_wf(enemies: Seq<Enemy>) -> bool {
    forall|i: int| 0 <= i < enemies.len() ==> (#[trigger] enemies[i]).pl.wf()
}

/// What a turn of taking up leaves: the one who took, the weapons and the
/// pickups still on the ground, and the pickup taken.
pub struct Taken<'a> {
    pub who: Player<'a>,
    pub weapons: Seq<WeaponDrop<'a>>,
    pub pickups: Seq<Pickup>,
    pub got: Option<Pickup>,
}

impl<'a> Player<'a> {
    /// The weapon in the hand, if there is one, is a valid one.
    pub open spec fn wf(self) -> bool {
        self.wep matches Some(w) ==> w.wf()
    }

    /// One turn of taking up.
    ///
    /// Without a weapon, the player takes the first weapon in reach: it
    /// leaves the ground and comes to hand ready and free of recoil. With or
    /// without a weapon, the player takes the first pickup in reach.
    pub open spec fn spec_pick_up(self, weapons: Seq<WeaponDrop<'a>>, pickups: Seq<Pickup>) -> Taken<
        'a,
    > {
        let found = if self.wep is Some {
            None
        } else {
            first_in_reach(weapon_positions(weapons), self.obj.pos, 0)
        };
        let got = first_in_reach(pickup_positions(pickups), self.obj.pos, 0);
        Taken {
            who: match found {
                Some(i) => Player {
                    wep: Some(WeaponInstance::spec_from_drop(weapons[i])),
                    ..self
                },
                None => self,
            },
            weapons: match found {
                Some(i) => weapons.remove(i),
                None => weapons,
            },
            pickups: match got {
                Some(i) => pickups.remove(i),
                None => pickups,
            },
            got: match got {
                Some(i) => Some(pickups[i]),
                None => None,
            },
        }
    }

    /// One turn of taking up from the weapons and pickups on the ground.
    /// Returns the pickup taken, if any.
    pub fn pick_up(&mut self, weapons: &mut Vec<WeaponDrop<'a>>, pickups: &mut Vec<Pickup>) -> (got:
        Option<Pickup>)
        ensures
            (Taken { who: *final(self), weapons: final(weapons)@, pickups: final(pickups)@, got })
                == old(self).spec_pick_up(old(weapons)@, old(pickups)@),
            old(self).wf() && drops_wf(old(weapons)@) ==> final(self).wf() && drops_wf(
                final(weapons)@,
            ),
    {
        proof {
            if old(self).wf() && drops_wf(old(weapons)@) {
                lemma_turn_keeps_valid(*old(self), old(weapons)@, old(pickups)@);
            }
        }
        let at = self.obj.pos;
        if self.wep.is_none() {
            let mut found: Option<usize> = None;
            let mut w: usize = 0;
            while w < weapons.len() && found.is_none()
                invariant
                    w <= weapons@.len(),
                    match found {
                        Some(i) => first_in_reach(weapon_positions(weapons@), at, 0) == Some(
                            i as int,
                        ),
                        None => first_in_reach(weapon_positions(weapons@), at, 0)
                            == first_in_reach(weapon_positions(weapons@), at, w as int),
                    },
                decreases weapons@.len() - w + (if found is None { 1int } else { 0int }),
            {
                if at.within(weapons[w].pos, PICKUP_RADIUS) {
                    found = Some(w);
                } else {
                    w = w + 1;
                }
            }
            if let Some(i) = found {
                proof {
                    lemma_first_in_reach(weapon_positions(weapons@), at, 0);
                }
                self.wep = Some(WeaponInstance::from_drop(weapons.remove(i)));
            }
        }
        let mut got: Option<usize> = None;
        let mut p: usize = 0;
        while p < pickups.len() && got.is_none()
            invariant
                p <= pickups@.len(),
                match got {
                    Some(i) => first_in_reach(pickup_positions(pickups@), at, 0) == Some(i as int),
                    None => first_in_reach(pickup_positions(pickups@), at, 0) == first_in_reach(
                        pickup_positions(pickups@),
                        at,
                        p as int,
                    ),
                },
            decreases pickups@.len() - p + (if got is None { 1int } else { 0int }),
        {
            if at.within(pickups[p].pos, PICKUP_RADIUS) {
                got = Some(p);
            } else {
                p = p + 1;
            }
        }
        match got {
            Some(i) => {
                proof {
                    lemma_first_in_reach(pickup_positions(pickups@), at, 0);
                }
                Some(pickups.remove(i))
            },
            None => None,
        }
    }
}

/// A turn of taking up takes at most one weapon and at most one pickup off
/// the ground, and takes a weapon only into an empty hand.
pub proof fn lemma_one_of_each<'a>(
    who: Player<'a>,
    weapons: Seq<WeaponDrop<'a>>,
    pickups: Seq<Pickup>,
)
    ensures
        ({
            let turn = who.spec_pick_up(weapons, pickups);
            &&& weapons.len() - 1 <= turn.weapons.len() <= weapons.len()
            &&& pickups.len() - 1 <= turn.pickups.len() <= pickups.len()
            &&& turn.weapons.len() < weapons.len() <==> who.wep is None && turn.who.wep is Some
            &&& turn.pickups.len() < pickups.len() <==> turn.got is Some
            &&& who.wep is Some ==> turn.who == who && turn.weapons == weapons
        }),
{
    lemma_first_in_reach(weapon_positions(weapons), who.obj.pos, 0);
    lemma_first_in_reach(pickup_positions(pickups), who.obj.pos, 0);
}

/// Valid weapons stay valid through a turn of taking up, in the hand and on
/// the ground.
pub proof fn lemma_turn_keeps_valid<'a>(
    who: Player<'a>,
    weapons: Seq<WeaponDrop<'a>>,
    pickups: Seq<Pickup>,
)
    requires
        who.wf(),
        drops_wf(weapons),
    ensures
        who.spec_pick_up(weapons, pickups).who.wf(),
        drops_wf(who.spec_pick_up(weapons, pickups).weapons),
{
    lemma_first_in_reach(weapon_positions(weapons), who.obj.pos, 0);
    let turn = who.spec_pick_up(weapons, pickups);
    assert forall|i: int| 0 <= i < turn.weapons.len() implies (#[trigger] turn.weapons[i]).wf() by {
        if turn.weapons.len() < weapons.len() {
            let taken = first_in_reach(weapon_positions(weapons), who.obj.pos, 0).unwrap();
            if i < taken {
                assert(turn.weapons[i] == weapons[i]);
            } else {
                assert(turn.weapons[i] == weapons[i + 1]);
            }
        }
    }
}

/// What the enemies' turns leave after the first `upto` enemies have had
/// theirs, each on what the one before left on the ground.
pub struct EnemiesTaken<'a> {
    pub enemies: Seq<Enemy<'a>>,
    pub weapons: Seq<WeaponDrop<'a>>,
    pub pickups: Seq<Pickup>,
    pub got: Seq<Option<Pickup>>,
}

pub open spec fn enemies_pick_up<'a>(
    enemies: Seq<Enemy<'a>>,
    weapons: Seq<WeaponDrop<'a>>,
    pickups: Seq<Pickup>,
    upto: int,
) -> EnemiesTaken<'a>
    decreases upto,
{
    if upto <= 0 || upto > enemies.len() {
        EnemiesTaken { enemies, weapons, pickups, got: Seq::empty() }
    } else {
        let before = enemies_pick_up(enemies, weapons, pickups, upto - 1);
        let turn = before.enemies[upto - 1].pl.spec_pick_up(before.weapons, before.pickups);
        EnemiesTaken {
            enemies: before.enemies.update(upto - 1, Enemy { pl: turn.who }),
            weapons: turn.weapons,
            pickups: turn.pickups,
            got: before.got.push(turn.got),
        }
    }
}

/// Valid weapons stay valid through the enemies' turns.
pub proof fn lemma_turns_keep_valid<'a>(
    enemies: Seq<Enemy<'a>>,
    weapons: Seq<WeaponDrop<'a>>,
    pickups: Seq<Pickup>,
    upto: int,
)
    requires
        enemies_wf(enemies),
        drops_wf(weapons),
    ensures
        enemies_wf(enemies_pick_up(enemies, weapons, pickups, upto).enemies),
        drops_wf(enemies_pick_up(enemies, weapons, pickups, upto).weapons),
        enemies_pick_up(enemies, weapons, pickups, upto).enemies.len() == enemies.len(),
    decreases upto,
{
    if 0 < upto <= enemies.len() {
        lemma_turns_keep_valid(enemies, weapons, pickups, upto - 1);
        let before = enemies_pick_up(enemies, weapons, pickups, upto - 1);
        lemma_turn_keeps_valid(before.enemies[upto - 1].pl, before.weapons, before.pickups);
    }
}

impl<'a> World<'a> {
    /// The grid is well formed and every weapon, in a hand or on the ground,
    /// is a valid one.
    pub open spec fn wf(self) -> bool {
        &&& self.grid.wf()
        &&& self.player.wf()
        &&& enemies_wf(self.enemies@)
        &&& drops_wf(self.weapons@)
    }

    /// The player's turn of taking up. Returns the pickup taken, if any, for
    /// its effect to be applied; nothing but the player, the weapons and the
    /// pickups changes.
    pub fn player_pickup(&mut self) -> (got: Option<Pickup>)
        ensures
            (Taken {
                who: final(self).player,
                weapons: final(self).weapons@,
                pickups: final(self).pickups@,
                got,
            }) == old(self).player.spec_pick_up(old(self).weapons@, old(self).pickups@),
            final(self).grid == old(self).grid,
            final(self).exit == old(self).exit,
            final(self).intels == old(self).intels,
            final(self).enemies == old(self).enemies,
            final(self).bullets == old(self).bullets,
            final(self).decorations == old(self).decorations,
            old(self).wf() ==> final(self).wf(),
    {
        let mut player = self.player;
        let got = player.pick_up(&mut self.weapons, &mut self.pickups);
        self.player = player;
        got
    }

    /// The enemies' turns of taking up, in their order, each on what the
    /// enemies before left on the ground. Returns for each enemy the pickup
    /// that it took, if any; nothing but the enemies, the weapons and the
    /// pickups changes.
    pub fn enemy_pickup(&mut self) -> (got: Vec<Option<Pickup>>)
        ensures
            (EnemiesTaken {
                enemies: final(self).enemies@,
                weapons: final(self).weapons@,
                pickups: final(self).pickups@,
                got: got@,
            }) == enemies_pick_up(
                old(self).enemies@,
                old(self).weapons@,
                old(self).pickups@,
                old(self).enemies@.len() as int,
            ),
            final(self).player == old(self).player,
            final(self).grid == old(self).grid,
            final(self).exit == old(self).exit,
            final(self).intels == old(self).intels,
            final(self).bullets == old(self).bullets,
            final(self).decorations == old(self).decorations,
            old(self).wf() ==> final(self).wf(),
    {
        proof {
            if old(self).wf() {
                lemma_turns_keep_valid(
                    old(self).enemies@,
                    old(self).weapons@,
                    old(self).pickups@,
                    old(self).enemies@.len() as int,
                );
            }
        }
        let mut got: Vec<Option<Pickup>> = Vec::new();
        let mut i: usize = 0;
        while i < self.enemies.len()
            invariant
                i <= self.enemies@.len(),
                self.enemies@.len() == old(self).enemies@.len(),
                (EnemiesTaken {
                    enemies: self.enemies@,
                    weapons: self.weapons@,
                    pickups: self.pickups@,
                    got: got@,
                }) == enemies_pick_up(
                    old(self).enemies@,
                    old(self).weapons@,
                    old(self).pickups@,
                    i as int,
                ),
                self.player == old(self).player,
                self.grid == old(self).grid,
                self.exit == old(self).exit,
                self.intels == old(self).intels,
                self.bullets == old(self).bullets,
                self.decorations == old(self).decorations,
            decreases self.enemies@.len() - i,
        {
            let mut pl = self.enemies[i].pl;
            let taken = pl.pick_up(&mut self.weapons, &mut self.pickups);
            self.enemies.set(i, Enemy { pl });
            got.push(taken);
            i = i + 1;
        }
        got
    }
}

} // verus!
