//! A level that was written reads back.

use vstd::prelude::*;
use crate::codec::{
    blobs_layout,
    blobs_view,
    grid_layout,
    holds_at,
    lemma_holds_part,
    lemma_holds_sum,
    lemma_parse_blobs,
    lemma_parse_grid,
    lemma_parse_point,
    lemma_parse_points,
    lemma_parse_tagged_list,
    points_layout,
    tagged_list_layout,
};
use crate::geometry::Point2;
use crate::format::{
    LoadStep,
    NEWLINE,
    SectionKind,
    empty_level,
    is_blank,
    lemma_keywords,
    line_end,
    load_from,
    load_step,
    pickups_of_raw,
    point_of_raw,
    point_payload,
    points_of_raw,
    raw_of_pickups,
    raw_of_point,
    raw_of_points,
    raw_of_weapons,
    read_payload,
    save_part,
    save_stages,
    save_upto,
    spec_load,
    spec_save,
    trim_end,
    weapons_known,
    weapons_of_raw,
    written_section,
};
use crate::level::{Level, LevelError, LevelView};
use crate::material::{codes_of, lemma_code_round_trip, materials_of};
use crate::single::lemma_single_round_trip;
use crate::weapon::{Weapon, WeaponDrop, catalog_index, lemma_first_named};

verus! {

/// The catalog entry that a weapon of the given name reads back as: the
/// entry at the index that was stored for it, which is the low byte of the
/// index of the first entry of that name, or of 0 where no entry has the
/// name.
pub open spec fn reloaded_index(catalog: Seq<Weapon>, name: Seq<char>) -> int {
    catalog_index(catalog, name) % 256
}

/// The weapons of a level as they read back: each a fresh weapon, where it
/// lay, of the catalog entry that was stored for it.
pub open spec fn reloaded_weapons<'a>(weapons: Seq<WeaponDrop<'a>>, catalog: Seq<Weapon>) -> Seq<
    WeaponDrop<'a>,
> {
    Seq::new(
        weapons.len(),
        |i: int|
            catalog[reloaded_index(catalog, weapons[i].weapon.name@)].fresh_drop(weapons[i].pos),
    )
}

/// Whether the file of the level can be read with the catalog: a level with
/// weapons needs a catalog with an entry.
pub open spec fn readable_with(level: LevelView, catalog: Seq<Weapon>) -> bool {
    level.weapons.len() == 0 || catalog.len() > 0
}

/// A level as it reads back: the same but for its weapons.
pub open spec fn reloaded<'a>(level: LevelView<'a>, catalog: Seq<Weapon>) -> LevelView<'a> {
    LevelView { weapons: reloaded_weapons(level.weapons, catalog), ..level }
}

/// Whether the lists of a level are short enough for their counts to be
/// written. Every list that memory holds is.
pub open spec fn countable(level: LevelView) -> bool {
    &&& level.cells.len() <= u64::MAX
    &&& level.enemies.len() <= u64::MAX
    &&& forall|i: int| 0 <= i < level.enemies.len() ==> (#[trigger] level.enemies[i]).len()
        <= u64::MAX
    &&& level.intels.len() <= u64::MAX
    &&& level.decorations.len() <= u64::MAX
    &&& forall|i: int|
        0 <= i < level.decorations.len() ==> (#[trigger] level.decorations[i]).len() <= u64::MAX
    &&& level.pickups.len() <= u64::MAX
    &&& level.weapons.len() <= u64::MAX
}

/// The level as it has been read when the first `stages` parts of its file
/// have been.
pub open spec fn loaded_upto<'a>(level: LevelView<'a>, catalog: Seq<Weapon>, stages: int)
    -> LevelView<'a> {
    LevelView {
        width: if stages >= 1 {
            level.width
        } else {
            0
        },
        cells: if stages >= 1 {
            level.cells
        } else {
            Seq::empty()
        },
        start_point: if stages >= 2 {
            level.start_point
        } else {
            None
        },
        enemies: if stages >= 3 {
            level.enemies
        } else {
            Seq::empty()
        },
        exit: if stages >= 4 {
            level.exit
        } else {
            None
        },
        intels: if stages >= 5 {
            level.intels
        } else {
            Seq::empty()
        },
        decorations: if stages >= 6 {
            level.decorations
        } else {
            Seq::empty()
        },
        pickups: if stages >= 7 {
            level.pickups
        } else {
            Seq::empty()
        },
        weapons: if stages >= 8 {
            reloaded_weapons(level.weapons, catalog)
        } else {
            Seq::empty()
        },
    }
}

/// A position of the world, stored and read back, is unchanged.
pub proof fn lemma_point_round_trip(p: Point2)
    requires
        p.in_world(),
    ensures
        point_of_raw(raw_of_point(p)) == p,
{
    lemma_single_round_trip(p.x as int);
    lemma_single_round_trip(p.y as int);
}

/// The file as far as `i` parts starts the file as far as `j`, for `i` up to
/// `j`.
proof fn lemma_save_prefix(level: LevelView, catalog: Seq<Weapon>, i: int, j: int)
    requires
        0 <= i <= j,
    ensures
        holds_at(save_upto(level, catalog, j), 0, save_upto(level, catalog, i)),
    decreases j - i,
{
    if i == j {
        assert(save_upto(level, catalog, j).subrange(0, save_upto(level, catalog, j).len() as int)
            =~= save_upto(level, catalog, j));
    } else {
        lemma_save_prefix(level, catalog, i, j - 1);
        lemma_holds_sum(save_upto(level, catalog, j - 1), save_part(level, catalog, j - 1));
        lemma_holds_part(
            save_upto(level, catalog, j),
            0,
            save_upto(level, catalog, j - 1),
            0,
            save_upto(level, catalog, i),
        );
    }
}

/// The file holds each of its parts behind the parts before it.
proof fn lemma_part_in_file(level: LevelView, catalog: Seq<Weapon>, i: int)
    requires
        0 <= i < save_stages(),
    ensures
        holds_at(
            spec_save(level, catalog),
            save_upto(level, catalog, i).len() as int,
            save_part(level, catalog, i),
        ),
        save_upto(level, catalog, i + 1).len() == save_upto(level, catalog, i).len() + save_part(
            level,
            catalog,
            i,
        ).len(),
{
    lemma_save_prefix(level, catalog, i + 1, save_stages());
    lemma_holds_sum(save_upto(level, catalog, i), save_part(level, catalog, i));
    lemma_holds_part(
        spec_save(level, catalog),
        0,
        save_upto(level, catalog, i + 1),
        save_upto(level, catalog, i).len() as int,
        save_part(level, catalog, i),
    );
}

/// A line feed alone is a blank line: the reading goes on behind it.
proof fn lemma_blank_line<'a>(bytes: Seq<u8>, catalog: Seq<Weapon>, at: int, level: LevelView<'a>)
    requires
        0 <= at < bytes.len(),
        bytes[at] == NEWLINE,
    ensures
        load_step(bytes, catalog, at, level) == LoadStep::More(level, at + 1),
{
    let line = bytes.subrange(at, at + 1);
    assert(line.drop_last() =~= Seq::<u8>::empty());
    assert(trim_end(line.drop_last()) == Seq::<u8>::empty());
    assert(is_blank(line.last()));
    assert(trim_end(line).len() == 0);
}

/// A line without a line feed before its end ends behind the line feed.
proof fn lemma_line_runs(bytes: Seq<u8>, at: int, n: int)
    requires
        0 <= at,
        0 <= n,
        at + n < bytes.len(),
        forall|j: int| at <= j < at + n ==> bytes[j] != NEWLINE,
        bytes[at + n] == NEWLINE,
    ensures
        line_end(bytes, at) == at + n + 1,
    decreases n,
{
    if n > 0 {
        lemma_line_runs(bytes, at + 1, n - 1);
    }
}

/// A keyword's line, trimmed, is the keyword.
proof fn lemma_keyword_line(bytes: Seq<u8>, at: int, kind: SectionKind)
    requires
        holds_at(bytes, at, kind.keyword() + seq![NEWLINE]),
    ensures
        line_end(bytes, at) == at + kind.keyword().len() + 1,
        trim_end(bytes.subrange(at, at + kind.keyword().len() + 1)) == kind.keyword(),
{
    let k = kind.keyword();
    let n = k.len() as int;
    let line = k + seq![NEWLINE];
    lemma_keywords(kind);
    assert(bytes.subrange(at, at + n + 1) == line);
    assert forall|j: int| at <= j < at + n implies bytes[j] != NEWLINE by {
        assert(bytes.subrange(at, at + n + 1)[j - at] == line[j - at]);
        assert(line[j - at] == k[j - at]);
    }
    assert(bytes[at + n] == NEWLINE) by {
        assert(bytes.subrange(at, at + n + 1)[n] == line[n]);
    }
    lemma_line_runs(bytes, at, n);
    assert(line.drop_last() =~= k);
    assert(is_blank(line.last()));
    assert(trim_end(line) == trim_end(k));
    assert(trim_end(k) == k);
}

/// The line of a section's keyword with a payload that can be read: the
/// reading goes on behind the payload with the payload read.
proof fn lemma_keyword_step<'a>(
    bytes: Seq<u8>,
    catalog: Seq<Weapon>,
    at: int,
    kind: SectionKind,
    level: LevelView<'a>,
    next: LevelView<'a>,
    behind: int,
)
    requires
        holds_at(bytes, at, kind.keyword() + seq![NEWLINE]),
        kind != SectionKind::End,
        read_payload(kind, bytes, at + kind.keyword().len() + 1, catalog, level) == Some(
            (next, behind),
        ),
    ensures
        load_step(bytes, catalog, at, level) == LoadStep::More(next, behind),
{
    lemma_keyword_line(bytes, at, kind);
    lemma_keywords(kind);
}

/// The `END` line: the reading is over with the level read so far.
proof fn lemma_end_step<'a>(bytes: Seq<u8>, catalog: Seq<Weapon>, at: int, level: LevelView<'a>)
    requires
        holds_at(bytes, at, SectionKind::End.keyword() + seq![NEWLINE]),
    ensures
        load_step(bytes, catalog, at, level) == LoadStep::<'a>::Done(Ok(level)),
{
    lemma_keyword_line(bytes, at, SectionKind::End);
    lemma_keywords(SectionKind::End);
}

/// A section as it is written, with a payload that can be read: the reading
/// goes on behind the section with the payload read. A section that is not
/// written changes nothing.
proof fn lemma_section_read<'a>(
    bytes: Seq<u8>,
    catalog: Seq<Weapon>,
    at: int,
    present: bool,
    kind: SectionKind,
    payload: Seq<u8>,
    level: LevelView<'a>,
    next: LevelView<'a>,
)
    requires
        holds_at(bytes, at, written_section(present, kind, payload)),
        kind != SectionKind::End,
        present ==> read_payload(kind, bytes, at + kind.keyword().len() + 2, catalog, level)
            == Some((next, at + kind.keyword().len() + 2 + payload.len())),
        !present ==> next == level,
    ensures
        load_from(bytes, catalog, at, level) == load_from(
            bytes,
            catalog,
            at + written_section(present, kind, payload).len(),
            next,
        ),
{
    if present {
        let whole = written_section(present, kind, payload);
        let line = kind.keyword() + seq![NEWLINE];
        lemma_keywords(kind);
        assert(whole.subrange(1, 1 + line.len() as int) =~= line);
        lemma_holds_part(bytes, at, whole, 1, line);
        assert(bytes[at] == NEWLINE) by {
            assert(bytes.subrange(at, at + whole.len())[0] == whole[0]);
        }
        lemma_blank_line(bytes, catalog, at, level);
        lemma_keyword_step(
            bytes,
            catalog,
            at + 1,
            kind,
            level,
            next,
            at + kind.keyword().len() + 2 + payload.len(),
        );
        assert(load_from(bytes, catalog, at, level) == load_from(bytes, catalog, at + 1, level));
    }
}

/// What a written section holds behind its two line feeds and its keyword
/// is its payload.
proof fn lemma_section_payload(
    bytes: Seq<u8>,
    at: int,
    kind: SectionKind,
    payload: Seq<u8>,
)
    requires
        holds_at(bytes, at, written_section(true, kind, payload)),
    ensures
        holds_at(bytes, at + kind.keyword().len() + 2, payload),
{
    let whole = written_section(true, kind, payload);
    let n = kind.keyword().len() as int;
    assert(whole.subrange(n + 2, n + 2 + payload.len()) =~= payload);
    lemma_holds_part(bytes, at, whole, n + 2, payload);
}

/// Where the file's part `i` starts.
pub open spec fn part_start(level: LevelView, catalog: Seq<Weapon>, i: int) -> int {
    save_upto(level, catalog, i).len() as int
}

/// One of the seven sections that may be absent, read back: where its
/// payload can be read as the level's own, the reading of the file goes from
/// the section's start to the next part's.
proof fn lemma_stage<'a>(
    level: LevelView<'a>,
    catalog: Seq<Weapon>,
    i: int,
    present: bool,
    kind: SectionKind,
    payload: Seq<u8>,
)
    requires
        1 <= i <= 7,
        kind != SectionKind::End,
        save_part(level, catalog, i) == written_section(present, kind, payload),
        present ==> read_payload(
            kind,
            spec_save(level, catalog),
            part_start(level, catalog, i) + kind.keyword().len() + 2,
            catalog,
            loaded_upto(level, catalog, i),
        ) == Some(
            (
                loaded_upto(level, catalog, i + 1),
                part_start(level, catalog, i) + kind.keyword().len() + 2 + payload.len(),
            ),
        ),
        !present ==> loaded_upto(level, catalog, i + 1) == loaded_upto(level, catalog, i),
    ensures
        load_from(
            spec_save(level, catalog),
            catalog,
            part_start(level, catalog, i),
            loaded_upto(level, catalog, i),
        ) == load_from(
            spec_save(level, catalog),
            catalog,
            part_start(level, catalog, i + 1),
            loaded_upto(level, catalog, i + 1),
        ),
{
    lemma_part_in_file(level, catalog, i);
    lemma_section_read(
        spec_save(level, catalog),
        catalog,
        part_start(level, catalog, i),
        present,
        kind,
        payload,
        loaded_upto(level, catalog, i),
        loaded_upto(level, catalog, i + 1),
    );
}

/// Where a section that is written holds its payload in the file.
proof fn lemma_stage_payload(
    level: LevelView,
    catalog: Seq<Weapon>,
    i: int,
    kind: SectionKind,
    payload: Seq<u8>,
)
    requires
        1 <= i <= 7,
        save_part(level, catalog, i) == written_section(true, kind, payload),
    ensures
        holds_at(
            spec_save(level, catalog),
            part_start(level, catalog, i) + kind.keyword().len() + 2,
            payload,
        ),
{
    lemma_part_in_file(level, catalog, i);
    lemma_section_payload(
        spec_save(level, catalog),
        part_start(level, catalog, i),
        kind,
        payload,
    );
}

proof fn lemma_stage_grid<'a>(level: LevelView<'a>, catalog: Seq<Weapon>)
    requires
        level.wf(),
        countable(level),
    ensures
        load_from(spec_save(level, catalog), catalog, 0, empty_level()) == load_from(
            spec_save(level, catalog),
            catalog,
            part_start(level, catalog, 1),
            loaded_upto(level, catalog, 1),
        ),
{
    let file = spec_save(level, catalog);
    let line = SectionKind::Grd.keyword() + seq![NEWLINE];
    let codes = codes_of(level.cells);
    let payload = grid_layout(level.width as u16, codes);
    let whole = save_part(level, catalog, 0);
    lemma_part_in_file(level, catalog, 0);
    assert(save_upto(level, catalog, 0).len() == 0);
    lemma_keywords(SectionKind::Grd);
    assert(whole =~= line + payload);
    lemma_holds_sum(line, payload);
    lemma_holds_part(file, 0, whole, 0, line);
    lemma_holds_part(file, 0, whole, line.len() as int, payload);
    lemma_parse_grid(file, line.len() as int, level.width as u16, codes);
    assert(materials_of(codes) =~= level.cells) by {
        assert forall|i: int| 0 <= i < level.cells.len() implies materials_of(codes)[i]
            == level.cells[i] by {
            lemma_code_round_trip(level.cells[i]);
        }
    }
    assert(loaded_upto(level, catalog, 0) == empty_level::<'a>());
    lemma_keyword_step(
        file,
        catalog,
        0,
        SectionKind::Grd,
        empty_level(),
        loaded_upto(level, catalog, 1),
        part_start(level, catalog, 1),
    );
}

proof fn lemma_stage_start<'a>(level: LevelView<'a>, catalog: Seq<Weapon>)
    requires
        level.wf(),
    ensures
        load_from(
            spec_save(level, catalog),
            catalog,
            part_start(level, catalog, 1),
            loaded_upto(level, catalog, 1),
        ) == load_from(
            spec_save(level, catalog),
            catalog,
            part_start(level, catalog, 2),
            loaded_upto(level, catalog, 2),
        ),
{
    let kind = SectionKind::Start;
    let payload = point_payload(level.start_point);
    if let Some(p) = level.start_point {
        lemma_stage_payload(level, catalog, 1, kind, payload);
        lemma_parse_point(
            spec_save(level, catalog),
            part_start(level, catalog, 1) + kind.keyword().len() + 2,
            raw_of_point(p),
        );
        lemma_point_round_trip(p);
    }
    lemma_stage(level, catalog, 1, level.start_point is Some, kind, payload);
}

proof fn lemma_stage_enemies<'a>(level: LevelView<'a>, catalog: Seq<Weapon>)
    requires
        countable(level),
    ensures
        load_from(
            spec_save(level, catalog),
            catalog,
            part_start(level, catalog, 2),
            loaded_upto(level, catalog, 2),
        ) == load_from(
            spec_save(level, catalog),
            catalog,
            part_start(level, catalog, 3),
            loaded_upto(level, catalog, 3),
        ),
{
    let kind = SectionKind::Enemies;
    let payload = blobs_layout(level.enemies);
    if level.enemies.len() > 0 {
        lemma_stage_payload(level, catalog, 2, kind, payload);
        lemma_parse_blobs(
            spec_save(level, catalog),
            part_start(level, catalog, 2) + kind.keyword().len() + 2,
            level.enemies,
        );
    } else {
        assert(level.enemies =~= Seq::empty());
    }
    lemma_stage(level, catalog, 2, level.enemies.len() > 0, kind, payload);
}

proof fn lemma_stage_exit<'a>(level: LevelView<'a>, catalog: Seq<Weapon>)
    requires
        level.wf(),
    ensures
        load_from(
            spec_save(level, catalog),
            catalog,
            part_start(level, catalog, 3),
            loaded_upto(level, catalog, 3),
        ) == load_from(
            spec_save(level, catalog),
            catalog,
            part_start(level, catalog, 4),
            loaded_upto(level, catalog, 4),
        ),
{
    let kind = SectionKind::PointGoal;
    let payload = point_payload(level.exit);
    if let Some(p) = level.exit {
        lemma_stage_payload(level, catalog, 3, kind, payload);
        lemma_parse_point(
            spec_save(level, catalog),
            part_start(level, catalog, 3) + kind.keyword().len() + 2,
            raw_of_point(p),
        );
        lemma_point_round_trip(p);
    }
    lemma_stage(level, catalog, 3, level.exit is Some, kind, payload);
}

proof fn lemma_stage_intels<'a>(level: LevelView<'a>, catalog: Seq<Weapon>)
    requires
        level.wf(),
        countable(level),
    ensures
        load_from(
            spec_save(level, catalog),
            catalog,
            part_start(level, catalog, 4),
            loaded_upto(level, catalog, 4),
        ) == load_from(
            spec_save(level, catalog),
            catalog,
            part_start(level, catalog, 5),
            loaded_upto(level, catalog, 5),
        ),
{
    let kind = SectionKind::Intels;
    let raw = raw_of_points(level.intels);
    let payload = points_layout(raw);
    if level.intels.len() > 0 {
        lemma_stage_payload(level, catalog, 4, kind, payload);
        lemma_parse_points(
            spec_save(level, catalog),
            part_start(level, catalog, 4) + kind.keyword().len() + 2,
            raw,
        );
        assert(points_of_raw(raw) =~= level.intels) by {
            assert forall|i: int| 0 <= i < level.intels.len() implies points_of_raw(raw)[i]
                == level.intels[i] by {
                lemma_point_round_trip(level.intels[i]);
            }
        }
    } else {
        assert(level.intels =~= Seq::empty());
    }
    lemma_stage(level, catalog, 4, level.intels.len() > 0, kind, payload);
}

proof fn lemma_stage_decorations<'a>(level: LevelView<'a>, catalog: Seq<Weapon>)
    requires
        countable(level),
    ensures
        load_from(
            spec_save(level, catalog),
            catalog,
            part_start(level, catalog, 5),
            loaded_upto(level, catalog, 5),
        ) == load_from(
            spec_save(level, catalog),
            catalog,
            part_start(level, catalog, 6),
            loaded_upto(level, catalog, 6),
        ),
{
    let kind = SectionKind::Decorations;
    let payload = blobs_layout(level.decorations);
    if level.decorations.len() > 0 {
        lemma_stage_payload(level, catalog, 5, kind, payload);
        lemma_parse_blobs(
            spec_save(level, catalog),
            part_start(level, catalog, 5) + kind.keyword().len() + 2,
            level.decorations,
        );
    } else {
        assert(level.decorations =~= Seq::empty());
    }
    lemma_stage(level, catalog, 5, level.decorations.len() > 0, kind, payload);
}

proof fn lemma_stage_pickups<'a>(level: LevelView<'a>, catalog: Seq<Weapon>)
    requires
        level.wf(),
        countable(level),
    ensures
        load_from(
            spec_save(level, catalog),
            catalog,
            part_start(level, catalog, 6),
            loaded_upto(level, catalog, 6),
        ) == load_from(
            spec_save(level, catalog),
            catalog,
            part_start(level, catalog, 7),
            loaded_upto(level, catalog, 7),
        ),
{
    let kind = SectionKind::Pickups;
    let raw = raw_of_pickups(level.pickups);
    let payload = tagged_list_layout(raw);
    if level.pickups.len() > 0 {
        lemma_stage_payload(level, catalog, 6, kind, payload);
        lemma_parse_tagged_list(
            spec_save(level, catalog),
            part_start(level, catalog, 6) + kind.keyword().len() + 2,
            raw,
        );
        assert(pickups_of_raw(raw) =~= level.pickups) by {
            assert forall|i: int| 0 <= i < level.pickups.len() implies pickups_of_raw(raw)[i]
                == level.pickups[i] by {
                lemma_point_round_trip(level.pickups[i].0);
            }
        }
    } else {
        assert(level.pickups =~= Seq::empty());
    }
    lemma_stage(level, catalog, 6, level.pickups.len() > 0, kind, payload);
}

/// A catalog that is not empty has an entry at every index that is stored.
proof fn lemma_index_fits(catalog: Seq<Weapon>, name: Seq<char>)
    requires
        0 < catalog.len(),
    ensures
        0 <= reloaded_index(catalog, name) < catalog.len(),
        catalog_index(catalog, name) < 256 ==> reloaded_index(catalog, name) == catalog_index(
            catalog,
            name,
        ),
{
    lemma_first_named(catalog, name, 0);
}

/// The line of a section's keyword with a payload that cannot be read: the
/// reading ends, and the file does not decode.
proof fn lemma_keyword_fails<'a>(
    bytes: Seq<u8>,
    catalog: Seq<Weapon>,
    at: int,
    kind: SectionKind,
    level: LevelView<'a>,
)
    requires
        holds_at(bytes, at, kind.keyword() + seq![NEWLINE]),
        kind != SectionKind::End,
        read_payload(kind, bytes, at + kind.keyword().len() + 1, catalog, level) is None,
    ensures
        load_step(bytes, catalog, at, level) == LoadStep::<'a>::Done(Err(LevelError::Decode)),
{
    lemma_keyword_line(bytes, at, kind);
    lemma_keywords(kind);
}

/// With a catalog without entries, the weapons of a file cannot be read.
proof fn lemma_stage_weapons_unknown<'a>(level: LevelView<'a>, catalog: Seq<Weapon>)
    requires
        level.wf(),
        countable(level),
        level.weapons.len() > 0,
        catalog.len() == 0,
    ensures
        load_from(
            spec_save(level, catalog),
            catalog,
            part_start(level, catalog, 7),
            loaded_upto(level, catalog, 7),
        ) == Err::<LevelView<'a>, LevelError>(LevelError::Decode),
{
    let file = spec_save(level, catalog);
    let at = part_start(level, catalog, 7);
    let kind = SectionKind::Weapons;
    let raw = raw_of_weapons(level.weapons, catalog);
    let payload = tagged_list_layout(raw);
    let whole = written_section(true, kind, payload);
    let line = kind.keyword() + seq![NEWLINE];
    lemma_part_in_file(level, catalog, 7);
    lemma_stage_payload(level, catalog, 7, kind, payload);
    lemma_parse_tagged_list(file, at + kind.keyword().len() + 2, raw);
    assert(!weapons_known(raw, catalog)) by {
        assert(!(raw[0].1 < catalog.len()));
    }
    lemma_keywords(kind);
    assert(whole.subrange(1, 1 + line.len() as int) =~= line);
    lemma_holds_part(file, at, whole, 1, line);
    assert(file[at] == NEWLINE) by {
        assert(file.subrange(at, at + whole.len())[0] == whole[0]);
    }
    lemma_blank_line(file, catalog, at, loaded_upto(level, catalog, 7));
    lemma_keyword_fails(file, catalog, at + 1, kind, loaded_upto(level, catalog, 7));
    assert(load_from(file, catalog, at, loaded_upto(level, catalog, 7)) == load_from(
        file,
        catalog,
        at + 1,
        loaded_upto(level, catalog, 7),
    ));
}

proof fn lemma_stage_weapons<'a>(level: LevelView<'a>, catalog: Seq<Weapon>)
    requires
        level.wf(),
        countable(level),
        readable_with(level, catalog),
    ensures
        load_from(
            spec_save(level, catalog),
            catalog,
            part_start(level, catalog, 7),
            loaded_upto(level, catalog, 7),
        ) == load_from(
            spec_save(level, catalog),
            catalog,
            part_start(level, catalog, 8),
            loaded_upto(level, catalog, 8),
        ),
{
    let kind = SectionKind::Weapons;
    let raw = raw_of_weapons(level.weapons, catalog);
    let payload = tagged_list_layout(raw);
    if level.weapons.len() > 0 {
        lemma_stage_payload(level, catalog, 7, kind, payload);
        lemma_parse_tagged_list(
            spec_save(level, catalog),
            part_start(level, catalog, 7) + kind.keyword().len() + 2,
            raw,
        );
        assert forall|i: int| 0 <= i < raw.len() implies (#[trigger] raw[i]).1
            < catalog.len() && weapons_of_raw::<'a>(raw, catalog)[i] == reloaded_weapons(
            level.weapons,
            catalog,
        )[i] by {
            lemma_index_fits(catalog, level.weapons[i].weapon.name@);
            lemma_point_round_trip(level.weapons[i].pos);
        }
        assert(weapons_known(raw, catalog));
        assert(weapons_of_raw::<'a>(raw, catalog) =~= reloaded_weapons(level.weapons, catalog));
    } else {
        assert(reloaded_weapons(level.weapons, catalog) =~= Seq::empty());
    }
    lemma_stage(level, catalog, 7, level.weapons.len() > 0, kind, payload);
}

proof fn lemma_stage_end<'a>(level: LevelView<'a>, catalog: Seq<Weapon>)
    ensures
        load_from(
            spec_save(level, catalog),
            catalog,
            part_start(level, catalog, 8),
            loaded_upto(level, catalog, 8),
        ) == Ok::<LevelView<'a>, LevelError>(loaded_upto(level, catalog, 8)),
{
    let file = spec_save(level, catalog);
    let at = part_start(level, catalog, 8);
    let line = SectionKind::End.keyword() + seq![NEWLINE];
    let whole = save_part(level, catalog, 8);
    lemma_part_in_file(level, catalog, 8);
    lemma_keywords(SectionKind::End);
    assert(whole.subrange(1, 1 + line.len() as int) =~= line);
    lemma_holds_part(file, at, whole, 1, line);
    assert(file[at] == NEWLINE) by {
        assert(file.subrange(at, at + whole.len())[0] == whole[0]);
    }
    lemma_blank_line(file, catalog, at, loaded_upto(level, catalog, 8));
    lemma_end_step(file, catalog, at + 1, loaded_upto(level, catalog, 8));
    assert(load_from(file, catalog, at, loaded_upto(level, catalog, 8)) == load_from(
        file,
        catalog,
        at + 1,
        loaded_upto(level, catalog, 8),
    ));
}

/// What the file of a level reads back as: the level, but for its weapons,
/// which come back as fresh weapons of the catalog entries that were stored
/// for them; and nothing where the level has weapons and the catalog no
/// entry.
pub open spec fn saved_and_loaded<'a>(level: LevelView<'a>, catalog: Seq<Weapon>) -> Result<
    LevelView<'a>,
    LevelError,
> {
    if readable_with(level, catalog) {
        Ok(reloaded(level, catalog))
    } else {
        Err(LevelError::Decode)
    }
}

/// The file of every level reads back as `saved_and_loaded` says.
pub proof fn lemma_view_round_trip<'a>(level: LevelView<'a>, catalog: Seq<Weapon>)
    requires
        level.wf(),
        countable(level),
    ensures
        spec_load::<'a>(spec_save(level, catalog), catalog) == saved_and_loaded(level, catalog),
{
    lemma_stage_grid(level, catalog);
    lemma_stage_start(level, catalog);
    lemma_stage_enemies(level, catalog);
    lemma_stage_exit(level, catalog);
    lemma_stage_intels(level, catalog);
    lemma_stage_decorations(level, catalog);
    lemma_stage_pickups(level, catalog);
    if readable_with(level, catalog) {
        lemma_stage_weapons(level, catalog);
        lemma_stage_end(level, catalog);
        assert(loaded_upto(level, catalog, 8) == reloaded(level, catalog));
    } else {
        lemma_stage_weapons_unknown(level, catalog);
    }
}

/// Saving a level and loading what was saved gives the level back, for every
/// level and every catalog: its grid, start, exit, enemies, intels,
/// decorations and pickups as they were, and each weapon where it lay, as a
/// fresh weapon of the catalog entry that was stored for it. Only a level
/// with weapons, saved with a catalog without entries, does not load.
pub proof fn lemma_save_then_load<'a>(level: Level<'a>, catalog: Seq<Weapon>)
    requires
        level.wf(),
    ensures
        spec_load::<'a>(spec_save(level@, catalog), catalog) == saved_and_loaded(level@, catalog),
{
    broadcast use vstd::std_specs::vec::axiom_spec_len;

    let view = level@;
    assert(view.cells.len() <= u64::MAX) by {
        level.grid.lemma_cells();
        assert(view.cells.len() <= 65535 * 65535) by (nonlinear_arith)
            requires
                view.cells.len() == level.grid.spec_width() * level.grid.spec_height(),
                level.grid.spec_width() <= 65535,
                level.grid.spec_height() <= 65535,
        ;
    }
    assert(level.enemies.len() == level.enemies@.len());
    assert(level.intels.len() == level.intels@.len());
    assert(level.decorations.len() == level.decorations@.len());
    assert(level.pickups.len() == level.pickups@.len());
    assert(level.weapons.len() == level.weapons@.len());
    assert forall|i: int| 0 <= i < view.enemies.len() implies (#[trigger] view.enemies[i]).len()
        <= u64::MAX by {
        assert(level.enemies@[i].len() == level.enemies@[i]@.len());
    }
    assert forall|i: int| 0 <= i < view.decorations.len() implies (
    #[trigger] view.decorations[i]).len() <= u64::MAX by {
        assert(level.decorations@[i].len() == level.decorations@[i]@.len());
    }
    lemma_view_round_trip(view, catalog);
}

/// What a level that was saved and loaded has of the level that was saved:
/// the grid in width, height and every cell; the start and the exit, each in
/// its own place; the enemies, the intels, the decorations and the pickups,
/// each list in its length, its order and every item; and as many weapons,
/// each where it lay.
pub proof fn lemma_round_trip_keeps<'a>(saved: Level<'a>, loaded: Level<'a>, catalog: Seq<Weapon>)
    requires
        saved.wf(),
        spec_load::<'a>(spec_save(saved@, catalog), catalog) == Ok::<LevelView<'a>, LevelError>(
            loaded@,
        ),
    ensures
        loaded.grid.spec_width() == saved.grid.spec_width(),
        loaded.grid.spec_height() == saved.grid.spec_height(),
        loaded.grid.cells() == saved.grid.cells(),
        forall|x: int, y: int| loaded.grid.spec_get(x, y) == saved.grid.spec_get(x, y),
        loaded.start_point == saved.start_point,
        loaded.exit == saved.exit,
        loaded.intels@ == saved.intels@,
        loaded.pickups@ == saved.pickups@,
        blobs_view(loaded.enemies@) == blobs_view(saved.enemies@),
        blobs_view(loaded.decorations@) == blobs_view(saved.decorations@),
        loaded.weapons@.len() == saved.weapons@.len(),
        forall|i: int|
            0 <= i < saved.weapons@.len() ==> (#[trigger] loaded.weapons@[i]).pos
                == saved.weapons@[i].pos,
        forall|i: int|
            0 <= i < saved.weapons@.len() ==> *(#[trigger] loaded.weapons@[i]).weapon
                == catalog[reloaded_index(catalog, saved.weapons@[i].weapon.name@)],
{
    lemma_save_then_load(saved, catalog);
    assert(loaded@ == reloaded(saved@, catalog));
    assert forall|i: int| 0 <= i < saved.weapons@.len() implies (#[trigger] loaded.weapons@[i])
        == reloaded_weapons(saved.weapons@, catalog)[i] by {}
}

/// Where the names of the catalog differ from each other, a weapon of one of
/// the catalog's first 256 entries reads back as a fresh weapon of that
/// entry.
pub proof fn lemma_reloaded_weapon<'a>(
    weapons: Seq<WeaponDrop<'a>>,
    catalog: Seq<Weapon>,
    i: int,
    k: int,
)
    requires
        0 <= i < weapons.len(),
        0 <= k < catalog.len(),
        k < 256,
        *weapons[i].weapon == catalog[k],
        forall|a: int, b: int|
            0 <= a < b < catalog.len() ==> catalog[a].name@ != catalog[b].name@,
    ensures
        reloaded_index(catalog, weapons[i].weapon.name@) == k,
        reloaded_weapons(weapons, catalog)[i] == catalog[k].fresh_drop(weapons[i].pos),
{
    lemma_first_named(catalog, catalog[k].name@, 0);
}

} // verus!
