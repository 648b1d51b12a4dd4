//! Levels: the grid and what stands on it at the start, and the writing and
//! reading of level files.

use vstd::prelude::*;
use crate::codec::{
    RawPoint,
    RawTagged,
    blobs_view,
    decode_blobs,
    decode_grid,
    decode_legacy_grid,
    decode_point,
    decode_points,
    decode_tagged_list,
    encode_blobs,
    encode_grid,
    encode_point,
    encode_points,
    encode_tagged_list,
};
use crate::format::{
    NEWLINE,
    SectionKind,
    empty_level,
    lemma_line_end,
    lemma_payload_end,
    line_end,
    load_from,
    narrow_codes,
    pickups_of_raw,
    point_of_raw,
    points_of_raw,
    raw_of_pickups,
    raw_of_point,
    raw_of_points,
    raw_of_weapons,
    read_payload,
    save_part,
    save_stages,
    save_upto,
    section_of,
    spec_load,
    spec_save,
    trim_end,
    weapons_known,
    weapons_of_raw,
    written_section,
};
use crate::geometry::Point2;
use crate::grid::{Grid, whole_rows};
use crate::material::Material;
use crate::single::{coord_from_single, coord_to_single};
use crate::weapon::{Weapon, WeaponDrop, catalog_wf, find_in_catalog};

verus! {

/// Why a level could not be read or written.
#[derive(Debug, Clone, Copy, PartialEq, Eq, Structural)]
pub enum LevelError {
    /// A payload is cut short, or holds what no level can: a grid whose cells
    /// do not fill its rows, or a weapon that the catalog lacks.
    Decode,
    /// A line is not the keyword of a section.
    BadSection,
    /// The bytes end before the `END` line.
    MissingEnd,
    /// A payload could not be written.
    Encode,
}

/// A level as values: what a `Level` holds.
pub struct LevelView<'a> {
    pub width: nat,
    pub cells: Seq<Material>,
    pub start_point: Option<Point2>,
    pub enemies: Seq<Seq<u8>>,
    pub exit: Option<Point2>,
    pub intels: Seq<Point2>,
    pub pickups: Seq<(Point2, u8)>,
    pub decorations: Seq<Seq<u8>>,
    pub weapons: Seq<WeaponDrop<'a>>,
}

/// A level: the grid and what stands on it at the start.
///
/// Enemies and decorations are kept as the bytes that describe each of them.
#[derive(Debug, Clone)]
pub struct Level<'a> {
    pub grid: Grid,
    pub start_point: Option<Point2>,
    pub enemies: Vec<Vec<u8>>,
    pub exit: Option<Point2>,
    pub intels: Vec<Point2>,
    pub pickups: Vec<(Point2, u8)>,
    pub decorations: Vec<Vec<u8>>,
    pub weapons: Vec<WeaponDrop<'a>>,
}

impl<'a> View for Level<'a> {
    type V = LevelView<'a>;

    open spec fn view(&self) -> LevelView<'a> {
        LevelView {
            width: self.grid.spec_width(),
            cells: self.grid.cells(),
            start_point: self.start_point,
            enemies: blobs_view(self.enemies@),
            exit: self.exit,
            intels: self.intels@,
            pickups: self.pickups@,
            decorations: blobs_view(self.decorations@),
            weapons: self.weapons@,
        }
    }
}

impl<'a> LevelView<'a> {
    /// The cells fill the rows of the grid, and everything on the level
    /// stands in the world.
    pub open spec fn wf(self) -> bool {
        &&& self.width <= 65535
        &&& whole_rows(self.width, self.cells.len())
        &&& self.start_point matches Some(p) ==> p.in_world()
        &&& self.exit matches Some(p) ==> p.in_world()
        &&& forall|i: int| 0 <= i < self.intels.len() ==> (#[trigger] self.intels[i]).in_world()
        &&& forall|i: int|
            0 <= i < self.pickups.len() ==> (#[trigger] self.pickups[i]).0.in_world()
        &&& forall|i: int|
            0 <= i < self.weapons.len() ==> (#[trigger] self.weapons[i]).pos.in_world()
    }
}

/// Appends `part` to `out`.
fn put(out: &mut Vec<u8>, part: &[u8])
    ensures
        final(out)@ == old(out)@ + part@,
{
    let mut i: usize = 0;
    while i < part.len()
        invariant
            i <= part@.len(),
            out@ == old(out)@ + part@.subrange(0, i as int),
        decreases part@.len() - i,
    {
        out.push(part[i]);
        i = i + 1;
        assert(out@ =~= old(out)@ + part@.subrange(0, i as int));
    }
    assert(part@.subrange(0, part@.len() as int) =~= part@);
}

/// Appends a section to `out`.
fn put_section(out: &mut Vec<u8>, kind: SectionKind, payload: &Vec<u8>)
    ensures
        final(out)@ == old(out)@ + written_section(true, kind, payload@),
{
    out.push(NEWLINE);
    put(out, kind.keyword_bytes());
    out.push(NEWLINE);
    put(out, payload.as_slice());
    assert(out@ =~= old(out)@ + written_section(true, kind, payload@));
}

/// What an error of `bincode` comes to while a payload is read.
fn decode_failed(_e: Box<bincode::ErrorKind>) -> (r: LevelError)
    ensures
        r == LevelError::Decode,
{
    LevelError::Decode
}

/// What an error of `bincode` comes to while a payload is written.
fn encode_failed(_e: Box<bincode::ErrorKind>) -> (r: LevelError)
    ensures
        r == LevelError::Encode,
{
    LevelError::Encode
}

fn point_from_raw(p: RawPoint) -> (r: Point2)
    ensures
        r == point_of_raw(p),
        r.in_world(),
{
    Point2::new(coord_from_single(p.0), coord_from_single(p.1))
}

fn point_to_raw(p: Point2) -> (r: RawPoint)
    requires
        p.in_world(),
    ensures
        r == raw_of_point(p),
{
    (coord_to_single(p.x), coord_to_single(p.y))
}

fn points_from_raw(v: &Vec<RawPoint>) -> (r: Vec<Point2>)
    ensures
        r@ == points_of_raw(v@),
        forall|i: int| 0 <= i < r@.len() ==> (#[trigger] r@[i]).in_world(),
{
    let mut r: Vec<Point2> = Vec::new();
    let mut i: usize = 0;
    while i < v.len()
        invariant
            i <= v@.len(),
            r@ == points_of_raw(v@.subrange(0, i as int)),
            forall|k: int| 0 <= k < r@.len() ==> (#[trigger] r@[k]).in_world(),
        decreases v@.len() - i,
    {
        r.push(point_from_raw(v[i]));
        i = i + 1;
        assert(r@ =~= points_of_raw(v@.subrange(0, i as int)));
    }
    assert(v@.subrange(0, v@.len() as int) =~= v@);
    r
}

fn points_to_raw(v: &Vec<Point2>) -> (r: Vec<RawPoint>)
    requires
        forall|i: int| 0 <= i < v@.len() ==> (#[trigger] v@[i]).in_world(),
    ensures
        r@ == raw_of_points(v@),
{
    let mut r: Vec<RawPoint> = Vec::new();
    let mut i: usize = 0;
    while i < v.len()
        invariant
            i <= v@.len(),
            r@ == raw_of_points(v@.subrange(0, i as int)),
            forall|k: int| 0 <= k < v@.len() ==> (#[trigger] v@[k]).in_world(),
        decreases v@.len() - i,
    {
        r.push(point_to_raw(v[i]));
        i = i + 1;
        assert(r@ =~= raw_of_points(v@.subrange(0, i as int)));
    }
    assert(v@.subrange(0, v@.len() as int) =~= v@);
    r
}

fn pickups_from_raw(v: &Vec<RawTagged>) -> (r: Vec<(Point2, u8)>)
    ensures
        r@ == pickups_of_raw(v@),
        forall|i: int| 0 <= i < r@.len() ==> (#[trigger] r@[i]).0.in_world(),
{
    let mut r: Vec<(Point2, u8)> = Vec::new();
    let mut i: usize = 0;
    while i < v.len()
        invariant
            i <= v@.len(),
            r@ == pickups_of_raw(v@.subrange(0, i as int)),
            forall|k: int| 0 <= k < r@.len() ==> (#[trigger] r@[k]).0.in_world(),
        decreases v@.len() - i,
    {
        r.push((point_from_raw(v[i].0), v[i].1));
        i = i + 1;
        assert(r@ =~= pickups_of_raw(v@.subrange(0, i as int)));
    }
    assert(v@.subrange(0, v@.len() as int) =~= v@);
    r
}

fn pickups_to_raw(v: &Vec<(Point2, u8)>) -> (r: Vec<RawTagged>)
    requires
        forall|i: int| 0 <= i < v@.len() ==> (#[trigger] v@[i]).0.in_world(),
    ensures
        r@ == raw_of_pickups(v@),
{
    let mut r: Vec<RawTagged> = Vec::new();
    let mut i: usize = 0;
    while i < v.len()
        invariant
            i <= v@.len(),
            r@ == raw_of_pickups(v@.subrange(0, i as int)),
            forall|k: int| 0 <= k < v@.len() ==> (#[trigger] v@[k]).0.in_world(),
        decreases v@.len() - i,
    {
        r.push((point_to_raw(v[i].0), v[i].1));
        i = i + 1;
        assert(r@ =~= raw_of_pickups(v@.subrange(0, i as int)));
    }
    assert(v@.subrange(0, v@.len() as int) =~= v@);
    r
}

/// The weapons that stored weapons stand for, or `None` where the catalog
/// lacks one of them.
fn weapons_from_raw<'a>(v: &Vec<RawTagged>, catalog: &'a Vec<Weapon>) -> (r: Option<
    Vec<WeaponDrop<'a>>,
>)
    requires
        catalog_wf(catalog@),
    ensures
        match r {
            Some(w) => {
                &&& weapons_known(v@, catalog@)
                &&& w@ == weapons_of_raw::<'a>(v@, catalog@)
                &&& forall|i: int| 0 <= i < w@.len() ==> (#[trigger] w@[i]).pos.in_world()
            },
            None => !weapons_known(v@, catalog@),
        },
{
    let mut r: Vec<WeaponDrop<'a>> = Vec::new();
    let mut i: usize = 0;
    while i < v.len()
        invariant
            i <= v@.len(),
            catalog_wf(catalog@),
            weapons_known(v@.subrange(0, i as int), catalog@),
            r@ == weapons_of_raw::<'a>(v@.subrange(0, i as int), catalog@),
            forall|k: int| 0 <= k < r@.len() ==> (#[trigger] r@[k]).pos.in_world(),
        decreases v@.len() - i,
    {
        let index = v[i].1 as usize;
        if index >= catalog.len() {
            return None;
        }
        r.push(catalog[index].make_drop(point_from_raw(v[i].0)));
        i = i + 1;
        assert(r@ =~= weapons_of_raw::<'a>(v@.subrange(0, i as int), catalog@));
    }
    assert(v@.subrange(0, v@.len() as int) =~= v@);
    Some(r)
}

/// The stored forms of weapons.
fn weapons_to_raw(v: &Vec<WeaponDrop>, catalog: &Vec<Weapon>) -> (r: Vec<RawTagged>)
    requires
        forall|i: int| 0 <= i < v@.len() ==> (#[trigger] v@[i]).pos.in_world(),
    ensures
        r@ == raw_of_weapons(v@, catalog@),
{
    let mut r: Vec<RawTagged> = Vec::new();
    let mut i: usize = 0;
    while i < v.len()
        invariant
            i <= v@.len(),
            r@ == raw_of_weapons(v@.subrange(0, i as int), catalog@),
            forall|k: int| 0 <= k < v@.len() ==> (#[trigger] v@[k]).pos.in_world(),
        decreases v@.len() - i,
    {
        let index = find_in_catalog(catalog, &v[i].weapon.name);
        r.push((point_to_raw(v[i].pos), (index % 256) as u8));
        i = i + 1;
        assert(r@ =~= raw_of_weapons(v@.subrange(0, i as int), catalog@));
    }
    assert(v@.subrange(0, v@.len() as int) =~= v@);
    r
}

/// The codes that the two-byte codes of a grid in its older form stand for.
fn narrow_codes_of(v: &Vec<u16>) -> (r: Vec<u8>)
    ensures
        r@ == narrow_codes(v@),
{
    let mut r: Vec<u8> = Vec::new();
    let mut i: usize = 0;
    while i < v.len()
        invariant
            i <= v@.len(),
            r@ == narrow_codes(v@.subrange(0, i as int)),
        decreases v@.len() - i,
    {
        let code = v[i];
        r.push(if code <= 255 { code as u8 } else { 255 });
        i = i + 1;
        assert(r@ =~= narrow_codes(v@.subrange(0, i as int)));
    }
    assert(v@.subrange(0, v@.len() as int) =~= v@);
    r
}

/// Where the line that starts at `at` ends.
fn find_line_end(bytes: &[u8], at: usize) -> (end: usize)
    requires
        at < bytes@.len(),
    ensures
        end == line_end(bytes@, at as int),
        at < end <= bytes@.len(),
{
    let mut i: usize = at;
    while i < bytes.len() && bytes[i] != NEWLINE
        invariant
            at <= i <= bytes@.len(),
            line_end(bytes@, at as int) == line_end(bytes@, i as int),
        decreases bytes@.len() - i,
    {
        i = i + 1;
    }
    if i < bytes.len() {
        i + 1
    } else {
        proof {
            lemma_line_end(bytes@, at as int);
        }
        i
    }
}

/// Where the line from `at` to `end` ends without the blanks at its end.
fn trimmed_end(bytes: &[u8], at: usize, end: usize) -> (w: usize)
    requires
        at <= end <= bytes@.len(),
    ensures
        at <= w <= end,
        bytes@.subrange(at as int, w as int) == trim_end(bytes@.subrange(at as int, end as int)),
{
    let mut w: usize = end;
    while w > at && (bytes[w - 1] == 32 || (9 <= bytes[w - 1] && bytes[w - 1] <= 13))
        invariant
            at <= w <= end <= bytes@.len(),
            trim_end(bytes@.subrange(at as int, w as int)) == trim_end(
                bytes@.subrange(at as int, end as int),
            ),
        decreases w,
    {
        assert(bytes@.subrange(at as int, w as int).drop_last() =~= bytes@.subrange(
            at as int,
            w - 1,
        ));
        w = w - 1;
    }
    w
}

/// Whether the bytes from `at` to `end` are the given word.
fn is_word(bytes: &[u8], at: usize, end: usize, word: &[u8]) -> (b: bool)
    requires
        at <= end <= bytes@.len(),
    ensures
        b == (bytes@.subrange(at as int, end as int) == word@),
{
    if end - at != word.len() {
        return false;
    }
    let mut i: usize = 0;
    while i < word.len()
        invariant
            i <= word@.len(),
            end - at == word@.len(),
            at <= end <= bytes@.len(),
            forall|k: int| 0 <= k < i ==> bytes@[at + k] == word@[k],
        decreases word@.len() - i,
    {
        if bytes[at + i] != word[i] {
            assert(bytes@.subrange(at as int, end as int)[i as int] != word@[i as int]);
            return false;
        }
        i = i + 1;
    }
    assert(bytes@.subrange(at as int, end as int) =~= word@);
    true
}

/// The section that the bytes from `at` to `end` introduce.
fn classify(bytes: &[u8], at: usize, end: usize) -> (k: Option<SectionKind>)
    requires
        at <= end <= bytes@.len(),
    ensures
        k == section_of(bytes@.subrange(at as int, end as int)),
{
    if is_word(bytes, at, end, SectionKind::Grd.keyword_bytes()) {
        Some(SectionKind::Grd)
    } else if is_word(bytes, at, end, SectionKind::LegacyGrid.keyword_bytes()) {
        Some(SectionKind::LegacyGrid)
    } else if is_word(bytes, at, end, SectionKind::Start.keyword_bytes()) {
        Some(SectionKind::Start)
    } else if is_word(bytes, at, end, SectionKind::Enemies.keyword_bytes()) {
        Some(SectionKind::Enemies)
    } else if is_word(bytes, at, end, SectionKind::PointGoal.keyword_bytes()) {
        Some(SectionKind::PointGoal)
    } else if is_word(bytes, at, end, SectionKind::Intels.keyword_bytes()) {
        Some(SectionKind::Intels)
    } else if is_word(bytes, at, end, SectionKind::Decorations.keyword_bytes()) {
        Some(SectionKind::Decorations)
    } else if is_word(bytes, at, end, SectionKind::Pickups.keyword_bytes()) {
        Some(SectionKind::Pickups)
    } else if is_word(bytes, at, end, SectionKind::Weapons.keyword_bytes()) {
        Some(SectionKind::Weapons)
    } else if is_word(bytes, at, end, SectionKind::End.keyword_bytes()) {
        Some(SectionKind::End)
    } else {
        None
    }
}

impl<'a> Level<'a> {
    /// The grid is well formed and everything on the level stands in the
    /// world.
    pub open spec fn wf(self) -> bool {
        self.grid.wf() && self@.wf()
    }

    /// Checks the grid and that everything on the level stands in the world.
    pub fn is_valid(&self) -> (b: bool)
        ensures
            b == self.wf(),
    {
        if !self.grid.is_valid() {
            return false;
        }
        if let Some(p) = self.start_point {
            if !p.is_in_world() {
                return false;
            }
        }
        if let Some(p) = self.exit {
            if !p.is_in_world() {
                return false;
            }
        }
        let mut i: usize = 0;
        while i < self.intels.len()
            invariant
                i <= self.intels@.len(),
                forall|k: int| 0 <= k < i ==> (#[trigger] self@.intels[k]).in_world(),
            decreases self.intels@.len() - i,
        {
            if !self.intels[i].is_in_world() {
                assert(!self@.intels[i as int].in_world());
                return false;
            }
            i = i + 1;
        }
        let mut i: usize = 0;
        while i < self.pickups.len()
            invariant
                i <= self.pickups@.len(),
                forall|k: int| 0 <= k < i ==> (#[trigger] self@.pickups[k]).0.in_world(),
            decreases self.pickups@.len() - i,
        {
            if !self.pickups[i].0.is_in_world() {
                assert(!self@.pickups[i as int].0.in_world());
                return false;
            }
            i = i + 1;
        }
        let mut i: usize = 0;
        while i < self.weapons.len()
            invariant
                i <= self.weapons@.len(),
                forall|k: int| 0 <= k < i ==> (#[trigger] self@.weapons[k]).pos.in_world(),
            decreases self.weapons@.len() - i,
        {
            if !self.weapons[i].pos.is_in_world() {
                assert(!self@.weapons[i as int].pos.in_world());
                return false;
            }
            i = i + 1;
        }
        proof {
            self.grid.lemma_cells();
        }
        true
    }

    /// An all-grass level of the given size with nothing on it.
    pub fn new(width: u16, height: u16) -> (l: Level<'a>)
        ensures
            l.wf(),
            l@ == (LevelView {
                width: width as nat,
                cells: Seq::new((width * height) as nat, |i: int| Material::Grass),
                ..empty_level()
            }),
    {
        let l = Level {
            grid: Grid::new(width, height),
            start_point: None,
            enemies: Vec::new(),
            exit: None,
            intels: Vec::new(),
            pickups: Vec::new(),
            decorations: Vec::new(),
            weapons: Vec::new(),
        };
        assert(blobs_view(l.enemies@) =~= Seq::empty());
        assert(blobs_view(l.decorations@) =~= Seq::empty());
        assert(l@.intels =~= Seq::empty() && l@.pickups =~= Seq::empty() && l@.weapons
            =~= Seq::empty());
        l
    }

    /// Reads the payload of a section at `at` into the level.
    fn read_section(&mut self, kind: SectionKind, bytes: &[u8], at: usize, catalog: &'a Vec<Weapon>)
        -> (r: Result<usize, LevelError>)
        requires
            old(self).wf(),
            catalog_wf(catalog@),
        ensures
            match r {
                Ok(end) => {
                    &&& read_payload(kind, bytes@, at as int, catalog@, old(self)@) == Some(
                        (final(self)@, end as int),
                    )
                    &&& final(self).wf()
                },
                Err(e) => {
                    &&& e == LevelError::Decode
                    &&& read_payload(kind, bytes@, at as int, catalog@, old(self)@) is None
                },
            },
    {
        match kind {
            SectionKind::Grd => match decode_grid(bytes, at) {
                Ok(((width, codes), end)) => match Grid::from_codes(width, &codes) {
                    Some(grid) => {
                        self.grid = grid;
                        Ok(end)
                    },
                    None => Err(LevelError::Decode),
                },
                Err(e) => Err(decode_failed(e)),
            },
            SectionKind::LegacyGrid => match decode_legacy_grid(bytes, at) {
                Ok(((width, codes), end)) => {
                    let codes = narrow_codes_of(&codes);
                    match Grid::from_codes((width % 65536) as u16, &codes) {
                        Some(grid) => {
                            self.grid = grid;
                            Ok(end)
                        },
                        None => Err(LevelError::Decode),
                    }
                },
                Err(e) => Err(decode_failed(e)),
            },
            SectionKind::Start => match decode_point(bytes, at) {
                Ok((p, end)) => {
                    self.start_point = Some(point_from_raw(p));
                    Ok(end)
                },
                Err(e) => Err(decode_failed(e)),
            },
            SectionKind::Enemies => match decode_blobs(bytes, at) {
                Ok((v, end)) => {
                    self.enemies = v;
                    Ok(end)
                },
                Err(e) => Err(decode_failed(e)),
            },
            SectionKind::PointGoal => match decode_point(bytes, at) {
                Ok((p, end)) => {
                    self.exit = Some(point_from_raw(p));
                    Ok(end)
                },
                Err(e) => Err(decode_failed(e)),
            },
            SectionKind::Intels => match decode_points(bytes, at) {
                Ok((v, end)) => {
                    self.intels = points_from_raw(&v);
                    Ok(end)
                },
                Err(e) => Err(decode_failed(e)),
            },
            SectionKind::Decorations => match decode_blobs(bytes, at) {
                Ok((v, end)) => {
                    self.decorations = v;
                    Ok(end)
                },
                Err(e) => Err(decode_failed(e)),
            },
            SectionKind::Pickups => match decode_tagged_list(bytes, at) {
                Ok((v, end)) => {
                    self.pickups = pickups_from_raw(&v);
                    Ok(end)
                },
                Err(e) => Err(decode_failed(e)),
            },
            SectionKind::Weapons => match decode_tagged_list(bytes, at) {
                Ok((v, end)) => match weapons_from_raw(&v, catalog) {
                    Some(w) => {
                        self.weapons = w;
                        Ok(end)
                    },
                    None => Err(LevelError::Decode),
                },
                Err(e) => Err(decode_failed(e)),
            },
            SectionKind::End => Err(LevelError::Decode),
        }
    }

    /// Appends a section with the payload that `bincode` gave for it.
    fn put_encoded(
        out: &mut Vec<u8>,
        kind: SectionKind,
        encoded: Result<Vec<u8>, Box<bincode::ErrorKind>>,
    ) -> (r: Result<(), LevelError>)
        ensures
            match encoded {
                Ok(payload) => r is Ok && final(out)@ == old(out)@ + written_section(
                    true,
                    kind,
                    payload@,
                ),
                Err(_) => r == Err::<(), LevelError>(LevelError::Encode),
            },
    {
        match encoded {
            Ok(payload) => {
                put_section(out, kind, &payload);
                Ok(())
            },
            Err(e) => Err(encode_failed(e)),
        }
    }

    /// Appends the part of the level file that stage `stage` writes.
    fn put_part(&self, catalog: &Vec<Weapon>, stage: u8, out: &mut Vec<u8>) -> (r: Result<
        (),
        LevelError,
    >)
        requires
            self.wf(),
            stage < save_stages(),
        ensures
            match r {
                Ok(_) => final(out)@ == old(out)@ + save_part(self@, catalog@, stage as int),
                Err(_) => false,
            },
    {
        if stage == 0 {
            put(out, SectionKind::Grd.keyword_bytes());
            out.push(NEWLINE);
            match encode_grid(self.grid.width(), &self.grid.codes()) {
                Ok(payload) => {
                    put(out, payload.as_slice());
                    assert(out@ =~= old(out)@ + save_part(self@, catalog@, 0));
                    Ok(())
                },
                Err(e) => Err(encode_failed(e)),
            }
        } else if stage == 1 {
            if let Some(start) = self.start_point {
                Self::put_encoded(out, SectionKind::Start, encode_point(&point_to_raw(start)))
            } else {
                assert(out@ =~= old(out)@ + save_part(self@, catalog@, 1));
                Ok(())
            }
        } else if stage == 2 {
            if !self.enemies.is_empty() {
                Self::put_encoded(out, SectionKind::Enemies, encode_blobs(&self.enemies))
            } else {
                assert(out@ =~= old(out)@ + save_part(self@, catalog@, 2));
                Ok(())
            }
        } else if stage == 3 {
            if let Some(exit) = self.exit {
                Self::put_encoded(out, SectionKind::PointGoal, encode_point(&point_to_raw(exit)))
            } else {
                assert(out@ =~= old(out)@ + save_part(self@, catalog@, 3));
                Ok(())
            }
        } else if stage == 4 {
            if !self.intels.is_empty() {
                assert forall|i: int| 0 <= i < self.intels@.len() implies (
                #[trigger] self.intels@[i]).in_world() by {
                    assert(self@.intels[i].in_world());
                }
                Self::put_encoded(
                    out,
                    SectionKind::Intels,
                    encode_points(&points_to_raw(&self.intels)),
                )
            } else {
                assert(out@ =~= old(out)@ + save_part(self@, catalog@, 4));
                Ok(())
            }
        } else if stage == 5 {
            if !self.decorations.is_empty() {
                Self::put_encoded(out, SectionKind::Decorations, encode_blobs(&self.decorations))
            } else {
                assert(out@ =~= old(out)@ + save_part(self@, catalog@, 5));
                Ok(())
            }
        } else if stage == 6 {
            if !self.pickups.is_empty() {
                assert forall|i: int| 0 <= i < self.pickups@.len() implies (
                #[trigger] self.pickups@[i]).0.in_world() by {
                    assert(self@.pickups[i].0.in_world());
                }
                Self::put_encoded(
                    out,
                    SectionKind::Pickups,
                    encode_tagged_list(&pickups_to_raw(&self.pickups)),
                )
            } else {
                assert(out@ =~= old(out)@ + save_part(self@, catalog@, 6));
                Ok(())
            }
        } else if stage == 7 {
            if !self.weapons.is_empty() {
                assert forall|i: int| 0 <= i < self.weapons@.len() implies (
                #[trigger] self.weapons@[i]).pos.in_world() by {
                    assert(self@.weapons[i].pos.in_world());
                }
                Self::put_encoded(
                    out,
                    SectionKind::Weapons,
                    encode_tagged_list(&weapons_to_raw(&self.weapons, catalog)),
                )
            } else {
                assert(out@ =~= old(out)@ + save_part(self@, catalog@, 7));
                Ok(())
            }
        } else {
            out.push(NEWLINE);
            put(out, SectionKind::End.keyword_bytes());
            out.push(NEWLINE);
            assert(out@ =~= old(out)@ + save_part(self@, catalog@, stage as int));
            Ok(())
        }
    }

    /// Writes the level as the bytes of a level file. Writing into memory
    /// does not fail.
    pub fn save(&self, catalog: &Vec<Weapon>) -> (r: Result<Vec<u8>, LevelError>)
        requires
            self.wf(),
        ensures
            match r {
                Ok(bytes) => bytes@ == spec_save(self@, catalog@),
                Err(_) => false,
            },
    {
        let mut out: Vec<u8> = Vec::new();
        let mut stage: u8 = 0;
        while stage < 9
            invariant
                self.wf(),
                stage <= save_stages(),
                out@ == save_upto(self@, catalog@, stage as int),
            decreases save_stages() - stage,
        {
            match self.put_part(catalog, stage, &mut out) {
                Ok(_) => {},
                Err(e) => {
                    return Err(e);
                },
            }
            stage = stage + 1;
        }
        Ok(out)
    }

    /// Reads a level from the bytes of a level file. The weapons of the level
    /// are fresh weapons of the catalog's entries.
    pub fn load(bytes: &[u8], catalog: &'a Vec<Weapon>) -> (r: Result<Level<'a>, LevelError>)
        requires
            catalog_wf(catalog@),
        ensures
            match r {
                Ok(l) => spec_load::<'a>(bytes@, catalog@) == Ok::<LevelView<'a>, LevelError>(l@)
                    && l.wf(),
                Err(e) => spec_load::<'a>(bytes@, catalog@) == Err::<LevelView<'a>, LevelError>(e),
            },
    {
        let mut ret: Level<'a> = Level::new(0, 0);
        let mut at: usize = 0;
        assert(ret@.cells =~= Seq::empty());
        loop
            invariant
                at <= bytes@.len(),
                catalog_wf(catalog@),
                ret.wf(),
                load_from(bytes@, catalog@, at as int, ret@) == spec_load::<'a>(bytes@, catalog@),
            decreases bytes@.len() - at,
        {
            if at >= bytes.len() {
                return Err(LevelError::MissingEnd);
            }
            let end = find_line_end(bytes, at);
            let word_end = trimmed_end(bytes, at, end);
            if word_end == at {
                at = end;
            } else {
                match classify(bytes, at, word_end) {
                    None => {
                        return Err(LevelError::BadSection);
                    },
                    Some(SectionKind::End) => {
                        return Ok(ret);
                    },
                    Some(kind) => {
                        proof {
                            lemma_payload_end(kind, bytes@, end as int, catalog@, ret@);
                        }
                        match ret.read_section(kind, bytes, end, catalog) {
                            Ok(behind) => {
                                at = behind;
                            },
                            Err(e) => {
                                return Err(e);
                            },
                        }
                    },
                }
            }
        }
    }
}

} // verus!
