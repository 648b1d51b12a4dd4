//! The level file: lines that name sections, each followed by the section's
//! payload, up to the `END` line.
//!
//! This module says what a level file holds and what a file says; the
//! functions that write and read one are `Level::save` and `Level::load`.
//!
//! The payloads:
//!
//! | Section | Payload |
//! |---|---|
//! | `GRD` | the width in two bytes, then the list of the cells' codes, a byte each |
//! | `GRID` | the older form of the grid: the width in eight bytes, then the list of the cells' codes, two bytes each |
//! | `START`, `POINT GOAL` | a position |
//! | `INTELS` | a list of positions |
//! | `PICKUPS` | a list of positions, each with the byte of the pickup's kind |
//! | `WEAPONS` | a list of positions, each with the byte of the weapon's index in the catalog |
//! | `ENEMIES`, `DECORATIONS` | a list of descriptors, each a byte string |
//!
//! A position is two single-precision numbers, x and then y; a list is the
//! count of its items in eight bytes and then the items. A code that names
//! no material reads as `Missing`, in either form of the grid.
//!
//! An enemy or a decoration is kept as the bytes that describe it, and is
//! written as a byte string: the count of its bytes in eight bytes, and the
//! bytes. The library does not look into a descriptor, so it cannot tell
//! where one ends unless the file says so. A file whose descriptors were
//! written field by field, without their length before them, is therefore
//! not one that this library reads: its `ENEMIES` and `DECORATIONS` sections
//! will be taken for something else or fail to decode.

use vstd::prelude::*;
use vstd::string::StringSliceAdditionalSpecFns;
use crate::codec::{
    RawPoint,
    RawTagged,
    blobs_layout,
    grid_layout,
    parse_blob_run,
    parse_blobs,
    parse_grid,
    parse_legacy_grid,
    parse_point,
    parse_points,
    parse_tagged_list,
    point_layout,
    points_layout,
    tagged_list_layout,
    u64_at,
};
use crate::geometry::Point2;
use crate::grid::whole_rows;
use crate::level::{LevelError, LevelView};
use crate::material::{codes_of, materials_of};
use crate::single::{coord_of_single, single_of_coord};
use crate::weapon::{Weapon, WeaponDrop, catalog_index};

verus! {

/// The byte that ends a line.
pub const NEWLINE: u8 = 10;

/// The sections of a level file.
#[derive(Debug, Clone, Copy, PartialEq, Eq, Structural)]
pub enum SectionKind {
    Grd,
    LegacyGrid,
    Start,
    Enemies,
    PointGoal,
    Intels,
    Decorations,
    Pickups,
    Weapons,
    End,
}

impl SectionKind {
    /// The word that introduces the section.
    pub open spec fn spec_word(self) -> &'static str {
        match self {
            SectionKind::Grd => "GRD",
            SectionKind::LegacyGrid => "GRID",
            SectionKind::Start => "START",
            SectionKind::Enemies => "ENEMIES",
            SectionKind::PointGoal => "POINT GOAL",
            SectionKind::Intels => "INTELS",
            SectionKind::Decorations => "DECORATIONS",
            SectionKind::Pickups => "PICKUPS",
            SectionKind::Weapons => "WEAPONS",
            SectionKind::End => "END",
        }
    }

    /// The word that introduces the section.
    pub fn word(self) -> (s: &'static str)
        ensures
            s@ == self.spec_word()@,
    {
        match self {
            SectionKind::Grd => "GRD",
            SectionKind::LegacyGrid => "GRID",
            SectionKind::Start => "START",
            SectionKind::Enemies => "ENEMIES",
            SectionKind::PointGoal => "POINT GOAL",
            SectionKind::Intels => "INTELS",
            SectionKind::Decorations => "DECORATIONS",
            SectionKind::Pickups => "PICKUPS",
            SectionKind::Weapons => "WEAPONS",
            SectionKind::End => "END",
        }
    }

    /// The line that introduces the section: the bytes of its word.
    pub open spec fn keyword(self) -> Seq<u8> {
        self.spec_word().spec_bytes()
    }

    /// The line that introduces the section.
    pub fn keyword_bytes(self) -> (v: &'static [u8])
        ensures
            v@ == self.keyword(),
    {
        self.word().as_bytes()
    }
}

/// The letters of a word as bytes.
proof fn lemma_word_bytes(word: &str)
    requires
        vstd::string::is_ascii(word),
    ensures
        word.spec_bytes() == Seq::new(word@.len(), |i: int| word@[i] as u8),
{
    vstd::string::is_ascii_spec_bytes(word);
}

/// The keywords are lines: none holds a line feed, none ends in a blank, and
/// each is the keyword of its own section alone.
pub proof fn lemma_keywords(kind: SectionKind)
    ensures
        3 <= kind.keyword().len() <= 11,
        forall|j: int| 0 <= j < kind.keyword().len() ==> kind.keyword()[j] != NEWLINE,
        !is_blank(kind.keyword().last()),
        section_of(kind.keyword()) == Some(kind),
{
    reveal_strlit("GRD");
    reveal_strlit("GRID");
    reveal_strlit("START");
    reveal_strlit("ENEMIES");
    reveal_strlit("POINT GOAL");
    reveal_strlit("INTELS");
    reveal_strlit("DECORATIONS");
    reveal_strlit("PICKUPS");
    reveal_strlit("WEAPONS");
    reveal_strlit("END");
    lemma_word_bytes("GRD");
    lemma_word_bytes("GRID");
    lemma_word_bytes("START");
    lemma_word_bytes("ENEMIES");
    lemma_word_bytes("POINT GOAL");
    lemma_word_bytes("INTELS");
    lemma_word_bytes("DECORATIONS");
    lemma_word_bytes("PICKUPS");
    lemma_word_bytes("WEAPONS");
    lemma_word_bytes("END");
    assert(SectionKind::Grd.keyword().len() == 3);
    assert(SectionKind::LegacyGrid.keyword().len() == 4);
    assert(SectionKind::Start.keyword().len() == 5);
    assert(SectionKind::Enemies.keyword().len() == 7);
    assert(SectionKind::PointGoal.keyword().len() == 10);
    assert(SectionKind::Intels.keyword().len() == 6);
    assert(SectionKind::Decorations.keyword().len() == 11);
    assert(SectionKind::Pickups.keyword().len() == 7);
    assert(SectionKind::Weapons.keyword().len() == 7);
    assert(SectionKind::End.keyword().len() == 3);
    assert(SectionKind::Grd.keyword()[0] == 71);
    assert(SectionKind::End.keyword()[0] == 69);
    assert(SectionKind::Enemies.keyword()[0] == 69);
    assert(SectionKind::Pickups.keyword()[0] == 80);
    assert(SectionKind::Weapons.keyword()[0] == 87);
}

/// The section that a line introduces, if it is the keyword of one.
pub open spec fn section_of(word: Seq<u8>) -> Option<SectionKind> {
    if word == SectionKind::Grd.keyword() {
        Some(SectionKind::Grd)
    } else if word == SectionKind::LegacyGrid.keyword() {
        Some(SectionKind::LegacyGrid)
    } else if word == SectionKind::Start.keyword() {
        Some(SectionKind::Start)
    } else if word == SectionKind::Enemies.keyword() {
        Some(SectionKind::Enemies)
    } else if word == SectionKind::PointGoal.keyword() {
        Some(SectionKind::PointGoal)
    } else if word == SectionKind::Intels.keyword() {
        Some(SectionKind::Intels)
    } else if word == SectionKind::Decorations.keyword() {
        Some(SectionKind::Decorations)
    } else if word == SectionKind::Pickups.keyword() {
        Some(SectionKind::Pickups)
    } else if word == SectionKind::Weapons.keyword() {
        Some(SectionKind::Weapons)
    } else if word == SectionKind::End.keyword() {
        Some(SectionKind::End)
    } else {
        None
    }
}

/// Whether a byte is blank at the end of a line: a space, a tab, a line feed,
/// a vertical tab, a form feed or a carriage return.
pub open spec fn is_blank(b: u8) -> bool {
    b == 32 || 9 <= b <= 13
}

/// Where the line that starts at `at` ends: behind its line feed, or at the
/// end of the bytes where no line feed follows.
pub open spec fn line_end(bytes: Seq<u8>, at: int) -> int
    decreases bytes.len() - at,
{
    if at < 0 || at >= bytes.len() {
        at
    } else if bytes[at] == NEWLINE {
        at + 1
    } else {
        line_end(bytes, at + 1)
    }
}

/// A line without the blanks at its end.
pub open spec fn trim_end(line: Seq<u8>) -> Seq<u8>
    decreases line.len(),
{
    if line.len() > 0 && is_blank(line.last()) {
        trim_end(line.drop_last())
    } else {
        line
    }
}

/// The position that a stored position stands for: each coordinate rounded
/// down to a whole unit and held to the world.
pub open spec fn point_of_raw(p: RawPoint) -> Point2 {
    Point2 { x: coord_of_single(p.0) as i32, y: coord_of_single(p.1) as i32 }
}

/// The stored form of a position.
pub open spec fn raw_of_point(p: Point2) -> RawPoint {
    (single_of_coord(p.x as int), single_of_coord(p.y as int))
}

/// The positions that stored positions stand for.
pub open spec fn points_of_raw(v: Seq<RawPoint>) -> Seq<Point2> {
    Seq::new(v.len(), |i: int| point_of_raw(v[i]))
}

/// The stored forms of positions.
pub open spec fn raw_of_points(v: Seq<Point2>) -> Seq<RawPoint> {
    Seq::new(v.len(), |i: int| raw_of_point(v[i]))
}

/// The pickups that stored pickups stand for.
pub open spec fn pickups_of_raw(v: Seq<RawTagged>) -> Seq<(Point2, u8)> {
    Seq::new(v.len(), |i: int| (point_of_raw(v[i].0), v[i].1))
}

/// The stored forms of pickups.
pub open spec fn raw_of_pickups(v: Seq<(Point2, u8)>) -> Seq<RawTagged> {
    Seq::new(v.len(), |i: int| (raw_of_point(v[i].0), v[i].1))
}

/// Whether the catalog has an entry for every stored weapon.
pub open spec fn weapons_known(v: Seq<RawTagged>, catalog: Seq<Weapon>) -> bool {
    forall|i: int| 0 <= i < v.len() ==> (#[trigger] v[i]).1 < catalog.len()
}

/// The weapons that stored weapons stand for: each a fresh weapon of the
/// catalog's entry.
pub open spec fn weapons_of_raw<'a>(v: Seq<RawTagged>, catalog: Seq<Weapon>) -> Seq<
    WeaponDrop<'a>,
> {
    Seq::new(v.len(), |i: int| catalog[v[i].1 as int].fresh_drop(point_of_raw(v[i].0)))
}

/// The stored forms of weapons: the position, and the low byte of the index
/// of the first catalog entry of the weapon's name.
pub open spec fn raw_of_weapons(v: Seq<WeaponDrop>, catalog: Seq<Weapon>) -> Seq<RawTagged> {
    Seq::new(
        v.len(),
        |i: int| (raw_of_point(v[i].pos), (catalog_index(catalog, v[i].weapon.name@) % 256) as u8),
    )
}

/// The code that a two-byte code of a grid in its older form stands for: the
/// code itself where a byte holds it, and else the code of `Missing`, as for
/// every code that names no material.
pub open spec fn narrow_code(code: u16) -> u8 {
    if code <= 255 {
        code as u8
    } else {
        255
    }
}

/// The codes that the two-byte codes of a grid in its older form stand for.
pub open spec fn narrow_codes(v: Seq<u16>) -> Seq<u8> {
    Seq::new(v.len(), |i: int| narrow_code(v[i]))
}

/// A two-byte code that names no material stands for `Missing`.
pub proof fn lemma_narrow_code(code: u16)
    ensures
        code > 8 ==> crate::material::material_of_code(narrow_code(code))
            == crate::material::Material::Missing,
        code <= 8 ==> crate::material::material_of_code(narrow_code(code))
            == crate::material::material_of_code(code as u8),
{
}

/// The level with the payload of a section read into it, and the place
/// behind the payload; `None` where the payload is cut short or holds what
/// no level can.
pub open spec fn read_payload<'a>(
    kind: SectionKind,
    bytes: Seq<u8>,
    at: int,
    catalog: Seq<Weapon>,
    level: LevelView<'a>,
) -> Option<(LevelView<'a>, int)> {
    match kind {
        SectionKind::Grd => match parse_grid(bytes, at) {
            Some(((width, codes), end)) => if whole_rows(width as nat, codes.len()) {
                Some((LevelView { width: width as nat, cells: materials_of(codes), ..level }, end))
            } else {
                None
            },
            None => None,
        },
        SectionKind::LegacyGrid => match parse_legacy_grid(bytes, at) {
            Some(((width, codes), end)) => if whole_rows((width % 65536) as nat, codes.len()) {
                Some(
                    (
                        LevelView {
                            width: (width % 65536) as nat,
                            cells: materials_of(narrow_codes(codes)),
                            ..level
                        },
                        end,
                    ),
                )
            } else {
                None
            },
            None => None,
        },
        SectionKind::Start => match parse_point(bytes, at) {
            Some((p, end)) => Some((LevelView { start_point: Some(point_of_raw(p)), ..level }, end)),
            None => None,
        },
        SectionKind::Enemies => match parse_blobs(bytes, at) {
            Some((v, end)) => Some((LevelView { enemies: v, ..level }, end)),
            None => None,
        },
        SectionKind::PointGoal => match parse_point(bytes, at) {
            Some((p, end)) => Some((LevelView { exit: Some(point_of_raw(p)), ..level }, end)),
            None => None,
        },
        SectionKind::Intels => match parse_points(bytes, at) {
            Some((v, end)) => Some((LevelView { intels: points_of_raw(v), ..level }, end)),
            None => None,
        },
        SectionKind::Decorations => match parse_blobs(bytes, at) {
            Some((v, end)) => Some((LevelView { decorations: v, ..level }, end)),
            None => None,
        },
        SectionKind::Pickups => match parse_tagged_list(bytes, at) {
            Some((v, end)) => Some((LevelView { pickups: pickups_of_raw(v), ..level }, end)),
            None => None,
        },
        SectionKind::Weapons => match parse_tagged_list(bytes, at) {
            Some((v, end)) => if weapons_known(v, catalog) {
                Some((LevelView { weapons: weapons_of_raw(v, catalog), ..level }, end))
            } else {
                None
            },
            None => None,
        },
        SectionKind::End => None,
    }
}

/// Every cell of a grid read in its older form is the material that its code
/// names, and `Missing` where its code names none: no code fails the
/// reading, and none beyond the table is read as a material of the table.
pub proof fn lemma_older_cells<'a>(
    bytes: Seq<u8>,
    at: int,
    catalog: Seq<Weapon>,
    level: LevelView<'a>,
    i: int,
)
    requires
        parse_legacy_grid(bytes, at) is Some,
        read_payload(SectionKind::LegacyGrid, bytes, at, catalog, level) is Some,
        0 <= i < parse_legacy_grid(bytes, at).unwrap().0.1.len(),
    ensures
        ({
            let codes = parse_legacy_grid(bytes, at).unwrap().0.1;
            let read = read_payload(SectionKind::LegacyGrid, bytes, at, catalog, level);
            let cells = read.unwrap().0.cells;
            &&& cells.len() == codes.len()
            &&& codes[i] > 8 ==> cells[i] == crate::material::Material::Missing
            &&& codes[i] <= 8 ==> cells[i] == crate::material::material_of_code(codes[i] as u8)
        }),
{
    lemma_narrow_code(parse_legacy_grid(bytes, at).unwrap().0.1[i]);
}

/// What reading one line of a level file comes to.
pub enum LoadStep<'a> {
    /// The reading is over, with this outcome.
    Done(Result<LevelView<'a>, LevelError>),
    /// The reading goes on with this level from this place.
    More(LevelView<'a>, int),
}

/// Reads the line at `at`, and the payload behind it if the line introduces
/// a section.
///
/// A blank line is passed over. The `END` line ends the reading with the
/// level read so far. The end of the bytes, a line that is no keyword, and a
/// payload that cannot be read end it with an error.
pub open spec fn load_step<'a>(
    bytes: Seq<u8>,
    catalog: Seq<Weapon>,
    at: int,
    level: LevelView<'a>,
) -> LoadStep<'a> {
    if at < 0 || at >= bytes.len() {
        LoadStep::Done(Err(LevelError::MissingEnd))
    } else {
        let end = line_end(bytes, at);
        let word = trim_end(bytes.subrange(at, end));
        if word.len() == 0 {
            LoadStep::More(level, end)
        } else {
            match section_of(word) {
                None => LoadStep::Done(Err(LevelError::BadSection)),
                Some(SectionKind::End) => LoadStep::Done(Ok(level)),
                Some(kind) => match read_payload(kind, bytes, end, catalog, level) {
                    Some((next, behind)) => LoadStep::More(next, behind),
                    None => LoadStep::Done(Err(LevelError::Decode)),
                },
            }
        }
    }
}

/// Reads a level file from `at` on into `level`.
pub open spec fn load_from<'a>(
    bytes: Seq<u8>,
    catalog: Seq<Weapon>,
    at: int,
    level: LevelView<'a>,
) -> Result<LevelView<'a>, LevelError>
    decreases bytes.len() - at,
    via load_from_decreases
{
    match load_step(bytes, catalog, at, level) {
        LoadStep::Done(r) => r,
        LoadStep::More(next, behind) => load_from(bytes, catalog, behind, next),
    }
}

#[via_fn]
proof fn load_from_decreases<'a>(
    bytes: Seq<u8>,
    catalog: Seq<Weapon>,
    at: int,
    level: LevelView<'a>,
) {
    lemma_step_advances(bytes, catalog, at, level);
}

/// A line that starts inside the bytes ends behind its start and inside the
/// bytes.
pub proof fn lemma_line_end(bytes: Seq<u8>, at: int)
    requires
        0 <= at < bytes.len(),
    ensures
        at < line_end(bytes, at) <= bytes.len(),
    decreases bytes.len() - at,
{
    if bytes[at] != NEWLINE {
        if at + 1 < bytes.len() {
            lemma_line_end(bytes, at + 1);
        } else {
            assert(line_end(bytes, at + 1) == at + 1);
        }
    }
}

/// A run of byte strings that can be read ends at or behind its start and
/// inside the bytes.
pub proof fn lemma_blob_run_end(b: Seq<u8>, at: int, count: nat)
    ensures
        match parse_blob_run(b, at, count) {
            Some((_, end)) => 0 <= at <= end <= b.len(),
            None => true,
        },
    decreases count,
{
    if count > 0 && 0 <= at && at + 8 <= b.len() && at + 8 + u64_at(b, at)
        <= b.len() {
        lemma_blob_run_end(b, at + 8 + u64_at(b, at), (count - 1) as nat);
    }
}

/// A payload that can be read ends at or behind its start and inside the
/// bytes.
pub proof fn lemma_payload_end<'a>(
    kind: SectionKind,
    bytes: Seq<u8>,
    at: int,
    catalog: Seq<Weapon>,
    level: LevelView<'a>,
)
    ensures
        match read_payload(kind, bytes, at, catalog, level) {
            Some((_, end)) => 0 <= at <= end <= bytes.len(),
            None => true,
        },
{
    if 0 <= at && at + 8 <= bytes.len() {
        lemma_blob_run_end(bytes, at + 8, u64_at(bytes, at) as nat);
    }
}

/// Every step that goes on goes on behind where it started.
pub proof fn lemma_step_advances<'a>(
    bytes: Seq<u8>,
    catalog: Seq<Weapon>,
    at: int,
    level: LevelView<'a>,
)
    ensures
        match load_step(bytes, catalog, at, level) {
            LoadStep::More(_, behind) => 0 <= at < behind <= bytes.len(),
            LoadStep::Done(_) => true,
        },
{
    if 0 <= at < bytes.len() {
        lemma_line_end(bytes, at);
        let end = line_end(bytes, at);
        let word = trim_end(bytes.subrange(at, end));
        match section_of(word) {
            Some(kind) => {
                lemma_payload_end(kind, bytes, end, catalog, level);
            },
            None => {},
        }
    }
}

/// A level without columns, rows or anything on it: what a file that says
/// nothing describes.
pub open spec fn empty_level<'a>() -> LevelView<'a> {
    LevelView {
        width: 0,
        cells: Seq::empty(),
        start_point: None,
        enemies: Seq::empty(),
        exit: None,
        intels: Seq::empty(),
        pickups: Seq::empty(),
        decorations: Seq::empty(),
        weapons: Seq::empty(),
    }
}

/// The level that a level file describes, or why it describes none.
///
/// The file is read line by line from its start. Each section that it names
/// replaces what an earlier section of that name gave.
pub open spec fn spec_load<'a>(bytes: Seq<u8>, catalog: Seq<Weapon>) -> Result<
    LevelView<'a>,
    LevelError,
> {
    load_from(bytes, catalog, 0, empty_level())
}

/// A section as it is written: a blank line, the keyword's line, and the
/// payload. A section that is not present is not written.
pub open spec fn written_section(present: bool, kind: SectionKind, payload: Seq<u8>) -> Seq<u8> {
    if present {
        seq![NEWLINE] + kind.keyword() + seq![NEWLINE] + payload
    } else {
        Seq::empty()
    }
}

/// The payload of the section for a position.
pub open spec fn point_payload(p: Option<Point2>) -> Seq<u8> {
    match p {
        Some(p) => point_layout(raw_of_point(p)),
        None => Seq::empty(),
    }
}

/// The number of parts that a level file is written in: the grid, the seven
/// sections that may be absent, and the `END` line.
pub open spec fn save_stages() -> int {
    9
}

/// The part of a level file that stage `stage` writes.
pub open spec fn save_part(level: LevelView, catalog: Seq<Weapon>, stage: int) -> Seq<u8> {
    if stage == 0 {
        SectionKind::Grd.keyword() + seq![NEWLINE] + grid_layout(
            level.width as u16,
            codes_of(level.cells),
        )
    } else if stage == 1 {
        written_section(
            level.start_point is Some,
            SectionKind::Start,
            point_payload(level.start_point),
        )
    } else if stage == 2 {
        written_section(level.enemies.len() > 0, SectionKind::Enemies, blobs_layout(level.enemies))
    } else if stage == 3 {
        written_section(level.exit is Some, SectionKind::PointGoal, point_payload(level.exit))
    } else if stage == 4 {
        written_section(
            level.intels.len() > 0,
            SectionKind::Intels,
            points_layout(raw_of_points(level.intels)),
        )
    } else if stage == 5 {
        written_section(
            level.decorations.len() > 0,
            SectionKind::Decorations,
            blobs_layout(level.decorations),
        )
    } else if stage == 6 {
        written_section(
            level.pickups.len() > 0,
            SectionKind::Pickups,
            tagged_list_layout(raw_of_pickups(level.pickups)),
        )
    } else if stage == 7 {
        written_section(
            level.weapons.len() > 0,
            SectionKind::Weapons,
            tagged_list_layout(raw_of_weapons(level.weapons, catalog)),
        )
    } else {
        seq![NEWLINE] + SectionKind::End.keyword() + seq![NEWLINE]
    }
}

/// The level file as far as its first `stages` parts.
pub open spec fn save_upto(level: LevelView, catalog: Seq<Weapon>, stages: int) -> Seq<u8>
    decreases stages,
{
    if stages <= 0 {
        Seq::empty()
    } else {
        save_upto(level, catalog, stages - 1) + save_part(level, catalog, stages - 1)
    }
}

/// The bytes of the level file of a level.
///
/// The grid comes first, under `GRD`. Then come, each only where the level
/// has it, the start, the enemies, the exit, the intels, the decorations, the
/// pickups and the weapons; then the `END` line. A weapon is stored as its
/// position and the index of its kind's name in the catalog.
pub open spec fn spec_save(level: LevelView, catalog: Seq<Weapon>) -> Seq<u8> {
    save_upto(level, catalog, save_stages())
}

} // verus!
