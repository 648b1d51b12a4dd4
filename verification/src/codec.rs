//! The binary form of the payloads of a level file.
//!
//! The payloads are written and read by `bincode` in its standard
//! configuration: every integer in its full width with the least significant
//! byte first, a pair as its two parts in order, and a list as the count of
//! its items in eight bytes followed by the items. This module states that
//! form in full and calls `bincode` to produce and to read it.

use vstd::prelude::*;
use vstd::bytes::{
    lemma_auto_spec_u16_to_from_le_bytes,
    lemma_auto_spec_u32_to_from_le_bytes,
    lemma_auto_spec_u64_to_from_le_bytes,
    spec_u16_from_le_bytes,
    spec_u16_to_le_bytes,
    spec_u32_from_le_bytes,
    spec_u32_to_le_bytes,
    spec_u64_from_le_bytes,
    spec_u64_to_le_bytes,
};

verus! {

/// The error type of `bincode`.
#[verifier::external_type_specification]
#[verifier::external_body]
pub struct ExBincodeErrorKind(bincode::ErrorKind);

/// A stored position: the two single-precision patterns of its coordinates.
pub type RawPoint = (u32, u32);

/// A stored position with the byte that says what lies there.
pub type RawTagged = (RawPoint, u8);

/// The two-byte integer stored at `at`.
pub open spec fn u16_at(b: Seq<u8>, at: int) -> u16 {
    spec_u16_from_le_bytes(b.subrange(at, at + 2))
}

/// The four-byte integer stored at `at`.
pub open spec fn u32_at(b: Seq<u8>, at: int) -> u32 {
    spec_u32_from_le_bytes(b.subrange(at, at + 4))
}

/// The eight-byte integer stored at `at`.
pub open spec fn u64_at(b: Seq<u8>, at: int) -> u64 {
    spec_u64_from_le_bytes(b.subrange(at, at + 8))
}

/// The position stored at `at`.
pub open spec fn point_at(b: Seq<u8>, at: int) -> RawPoint {
    (u32_at(b, at), u32_at(b, at + 4))
}

/// The stored form of a position: eight bytes.
pub open spec fn point_layout(p: RawPoint) -> Seq<u8> {
    spec_u32_to_le_bytes(p.0) + spec_u32_to_le_bytes(p.1)
}

/// The stored forms of positions, one after the other.
pub open spec fn point_run_layout(v: Seq<RawPoint>) -> Seq<u8>
    decreases v.len(),
{
    if v.len() == 0 {
        Seq::empty()
    } else {
        point_run_layout(v.drop_last()) + point_layout(v.last())
    }
}

/// The stored form of a list of positions.
pub open spec fn points_layout(v: Seq<RawPoint>) -> Seq<u8> {
    spec_u64_to_le_bytes(v.len() as u64) + point_run_layout(v)
}

/// The stored form of a tagged position: nine bytes.
pub open spec fn tagged_layout(t: RawTagged) -> Seq<u8> {
    point_layout(t.0).push(t.1)
}

/// The stored forms of tagged positions, one after the other.
pub open spec fn tagged_run_layout(v: Seq<RawTagged>) -> Seq<u8>
    decreases v.len(),
{
    if v.len() == 0 {
        Seq::empty()
    } else {
        tagged_run_layout(v.drop_last()) + tagged_layout(v.last())
    }
}

/// The stored form of a list of tagged positions.
pub open spec fn tagged_list_layout(v: Seq<RawTagged>) -> Seq<u8> {
    spec_u64_to_le_bytes(v.len() as u64) + tagged_run_layout(v)
}

/// The stored form of a grid: its width, then the list of its material
/// codes.
pub open spec fn grid_layout(width: u16, codes: Seq<u8>) -> Seq<u8> {
    spec_u16_to_le_bytes(width) + spec_u64_to_le_bytes(codes.len() as u64) + codes
}

/// The stored forms of byte strings, one after the other, each as a list of
/// bytes.
pub open spec fn blob_run_layout(v: Seq<Seq<u8>>) -> Seq<u8>
    decreases v.len(),
{
    if v.len() == 0 {
        Seq::empty()
    } else {
        spec_u64_to_le_bytes(v.first().len() as u64) + v.first() + blob_run_layout(v.drop_first())
    }
}

/// The stored form of a list of byte strings.
pub open spec fn blobs_layout(v: Seq<Seq<u8>>) -> Seq<u8> {
    spec_u64_to_le_bytes(v.len() as u64) + blob_run_layout(v)
}

/// Reads a position at `at`: the position and where it ends, or `None` where
/// fewer than eight bytes are left.
pub open spec fn parse_point(b: Seq<u8>, at: int) -> Option<(RawPoint, int)> {
    if 0 <= at && at + 8 <= b.len() {
        Some((point_at(b, at), at + 8))
    } else {
        None
    }
}

/// Reads a list of positions at `at`: the count, then so many positions.
pub open spec fn parse_points(b: Seq<u8>, at: int) -> Option<(Seq<RawPoint>, int)> {
    if 0 <= at && at + 8 <= b.len() && at + 8 + 8 * u64_at(b, at) <= b.len() {
        let n = u64_at(b, at) as nat;
        Some((Seq::new(n, |i: int| point_at(b, at + 8 + 8 * i)), at + 8 + 8 * n))
    } else {
        None
    }
}

/// Reads a list of tagged positions at `at`: the count, then so many
/// positions, each followed by its tag.
pub open spec fn parse_tagged_list(b: Seq<u8>, at: int) -> Option<(Seq<RawTagged>, int)> {
    if 0 <= at && at + 8 <= b.len() && at + 8 + 9 * u64_at(b, at) <= b.len() {
        let n = u64_at(b, at) as nat;
        Some(
            (
                Seq::new(n, |i: int| (point_at(b, at + 8 + 9 * i), b[at + 8 + 9 * i + 8])),
                at + 8 + 9 * n,
            ),
        )
    } else {
        None
    }
}

/// Reads a grid at `at`: the width, the count of the codes, and so many
/// codes.
pub open spec fn parse_grid(b: Seq<u8>, at: int) -> Option<((u16, Seq<u8>), int)> {
    if 0 <= at && at + 10 <= b.len() && at + 10 + u64_at(b, at + 2) <= b.len() {
        let n = u64_at(b, at + 2) as int;
        Some(((u16_at(b, at), b.subrange(at + 10, at + 10 + n)), at + 10 + n))
    } else {
        None
    }
}

/// Reads a grid in its older form at `at`: the width in eight bytes, the
/// count of the codes, and so many codes of two bytes each.
pub open spec fn parse_legacy_grid(b: Seq<u8>, at: int) -> Option<((u64, Seq<u16>), int)> {
    if 0 <= at && at + 16 <= b.len() && at + 16 + 2 * u64_at(b, at + 8) <= b.len() {
        let n = u64_at(b, at + 8) as nat;
        Some(((u64_at(b, at), Seq::new(n, |i: int| u16_at(b, at + 16 + 2 * i))), at + 16 + 2 * n))
    } else {
        None
    }
}

/// Reads `count` byte strings at `at`, each as its length and so many bytes.
pub open spec fn parse_blob_run(b: Seq<u8>, at: int, count: nat) -> Option<(Seq<Seq<u8>>, int)>
    decreases count,
{
    if count == 0 {
        if 0 <= at <= b.len() {
            Some((Seq::empty(), at))
        } else {
            None
        }
    } else if 0 <= at && at + 8 <= b.len() && at + 8 + u64_at(b, at) <= b.len() {
        let m = u64_at(b, at) as int;
        match parse_blob_run(b, at + 8 + m, (count - 1) as nat) {
            Some((rest, end)) => Some((seq![b.subrange(at + 8, at + 8 + m)] + rest, end)),
            None => None,
        }
    } else {
        None
    }
}

/// Reads a list of byte strings at `at`: the count, then so many byte
/// strings.
pub open spec fn parse_blobs(b: Seq<u8>, at: int) -> Option<(Seq<Seq<u8>>, int)> {
    if 0 <= at && at + 8 <= b.len() {
        parse_blob_run(b, at + 8, u64_at(b, at) as nat)
    } else {
        None
    }
}

/// The byte strings of a list, each as its sequence of bytes.
pub open spec fn blobs_view(v: Seq<Vec<u8>>) -> Seq<Seq<u8>> {
    Seq::new(v.len(), |i: int| v[i]@)
}

/// Whether the bytes hold `part` at `at`.
pub open spec fn holds_at(b: Seq<u8>, at: int, part: Seq<u8>) -> bool {
    0 <= at && at + part.len() <= b.len() && b.subrange(at, at + part.len()) == part
}

/// What holds a whole holds each part of the whole.
pub proof fn lemma_holds_part(b: Seq<u8>, at: int, whole: Seq<u8>, off: int, part: Seq<u8>)
    requires
        holds_at(b, at, whole),
        holds_at(whole, off, part),
    ensures
        holds_at(b, at + off, part),
{
    assert(b.subrange(at + off, at + off + part.len()) =~= b.subrange(
        at,
        at + whole.len(),
    ).subrange(off, off + part.len()));
}

/// A sum of two holds the first at its start and the second behind it.
pub proof fn lemma_holds_sum(x: Seq<u8>, y: Seq<u8>)
    ensures
        holds_at(x + y, 0, x),
        holds_at(x + y, x.len() as int, y),
{
    assert((x + y).subrange(0, x.len() as int) =~= x);
    assert((x + y).subrange(x.len() as int, (x.len() + y.len()) as int) =~= y);
}

/// The integers that the bytes hold read back.
pub proof fn lemma_read_ints(b: Seq<u8>, at: int)
    ensures
        forall|x: u16| #[trigger] holds_at(b, at, spec_u16_to_le_bytes(x)) ==> u16_at(b, at) == x,
        forall|x: u32| #[trigger] holds_at(b, at, spec_u32_to_le_bytes(x)) ==> u32_at(b, at) == x,
        forall|x: u64| #[trigger] holds_at(b, at, spec_u64_to_le_bytes(x)) ==> u64_at(b, at) == x,
        forall|x: u16| (#[trigger] spec_u16_to_le_bytes(x)).len() == 2,
        forall|x: u32| (#[trigger] spec_u32_to_le_bytes(x)).len() == 4,
        forall|x: u64| (#[trigger] spec_u64_to_le_bytes(x)).len() == 8,
{
    lemma_auto_spec_u16_to_from_le_bytes();
    lemma_auto_spec_u32_to_from_le_bytes();
    lemma_auto_spec_u64_to_from_le_bytes();
}

/// A stored position reads back.
pub proof fn lemma_parse_point(b: Seq<u8>, at: int, p: RawPoint)
    requires
        holds_at(b, at, point_layout(p)),
    ensures
        point_layout(p).len() == 8,
        point_at(b, at) == p,
        parse_point(b, at) == Some((p, at + 8)),
{
    lemma_read_ints(b, at);
    lemma_read_ints(b, at + 4);
    lemma_holds_sum(spec_u32_to_le_bytes(p.0), spec_u32_to_le_bytes(p.1));
    lemma_holds_part(b, at, point_layout(p), 0, spec_u32_to_le_bytes(p.0));
    lemma_holds_part(b, at, point_layout(p), 4, spec_u32_to_le_bytes(p.1));
}

/// A run of stored positions holds each of them at its place.
pub proof fn lemma_point_run(v: Seq<RawPoint>)
    ensures
        point_run_layout(v).len() == 8 * v.len(),
        forall|i: int|
            0 <= i < v.len() ==> holds_at(point_run_layout(v), 8 * i, #[trigger] point_layout(v[i])),
    decreases v.len(),
{
    if v.len() > 0 {
        let front = v.drop_last();
        lemma_point_run(front);
        lemma_read_ints(Seq::empty(), 0);
        lemma_holds_sum(point_run_layout(front), point_layout(v.last()));
        assert forall|i: int| 0 <= i < v.len() implies holds_at(
            point_run_layout(v),
            8 * i,
            #[trigger] point_layout(v[i]),
        ) by {
            if i < front.len() {
                assert(front[i] == v[i]);
                assert(holds_at(point_run_layout(front), 8 * i, point_layout(front[i])));
                lemma_holds_part(
                    point_run_layout(v),
                    0,
                    point_run_layout(front),
                    8 * i,
                    point_layout(v[i]),
                );
            }
        }
    }
}

/// A stored list of positions reads back.
pub proof fn lemma_parse_points(b: Seq<u8>, at: int, v: Seq<RawPoint>)
    requires
        holds_at(b, at, points_layout(v)),
        v.len() <= u64::MAX,
    ensures
        points_layout(v).len() == 8 + 8 * v.len(),
        parse_points(b, at) == Some((v, at + 8 + 8 * v.len())),
{
    lemma_read_ints(b, at);
    lemma_point_run(v);
    let count = spec_u64_to_le_bytes(v.len() as u64);
    lemma_holds_sum(count, point_run_layout(v));
    lemma_holds_part(b, at, points_layout(v), 0, count);
    lemma_holds_part(b, at, points_layout(v), 8, point_run_layout(v));
    let read = Seq::new(v.len(), |i: int| point_at(b, at + 8 + 8 * i));
    assert forall|i: int| 0 <= i < v.len() implies read[i] == v[i] by {
        assert(holds_at(point_run_layout(v), 8 * i, point_layout(v[i])));
        lemma_holds_part(b, at + 8, point_run_layout(v), 8 * i, point_layout(v[i]));
        lemma_parse_point(b, at + 8 + 8 * i, v[i]);
    }
    assert(read =~= v);
}

/// A stored tagged position reads back.
pub proof fn lemma_parse_tagged(b: Seq<u8>, at: int, t: RawTagged)
    requires
        holds_at(b, at, tagged_layout(t)),
    ensures
        tagged_layout(t).len() == 9,
        point_at(b, at) == t.0,
        b[at + 8] == t.1,
{
    lemma_read_ints(b, at);
    let whole = tagged_layout(t);
    assert(whole.subrange(0, 8) =~= point_layout(t.0));
    lemma_holds_part(b, at, whole, 0, point_layout(t.0));
    lemma_parse_point(b, at, t.0);
    assert(b.subrange(at, at + 9)[8] == whole[8]);
}

/// A run of stored tagged positions holds each of them at its place.
pub proof fn lemma_tagged_run(v: Seq<RawTagged>)
    ensures
        tagged_run_layout(v).len() == 9 * v.len(),
        forall|i: int|
            0 <= i < v.len() ==> holds_at(
                tagged_run_layout(v),
                9 * i,
                #[trigger] tagged_layout(v[i]),
            ),
    decreases v.len(),
{
    if v.len() > 0 {
        let front = v.drop_last();
        lemma_tagged_run(front);
        lemma_read_ints(Seq::empty(), 0);
        lemma_holds_sum(tagged_run_layout(front), tagged_layout(v.last()));
        assert forall|i: int| 0 <= i < v.len() implies holds_at(
            tagged_run_layout(v),
            9 * i,
            #[trigger] tagged_layout(v[i]),
        ) by {
            if i < front.len() {
                assert(front[i] == v[i]);
                assert(holds_at(tagged_run_layout(front), 9 * i, tagged_layout(front[i])));
                lemma_holds_part(
                    tagged_run_layout(v),
                    0,
                    tagged_run_layout(front),
                    9 * i,
                    tagged_layout(v[i]),
                );
            }
        }
    }
}

/// A stored list of tagged positions reads back.
pub proof fn lemma_parse_tagged_list(b: Seq<u8>, at: int, v: Seq<RawTagged>)
    requires
        holds_at(b, at, tagged_list_layout(v)),
        v.len() <= u64::MAX,
    ensures
        tagged_list_layout(v).len() == 8 + 9 * v.len(),
        parse_tagged_list(b, at) == Some((v, at + 8 + 9 * v.len())),
{
    lemma_read_ints(b, at);
    lemma_tagged_run(v);
    let count = spec_u64_to_le_bytes(v.len() as u64);
    lemma_holds_sum(count, tagged_run_layout(v));
    lemma_holds_part(b, at, tagged_list_layout(v), 0, count);
    lemma_holds_part(b, at, tagged_list_layout(v), 8, tagged_run_layout(v));
    let read = Seq::new(v.len(), |i: int| (point_at(b, at + 8 + 9 * i), b[at + 8 + 9 * i + 8]));
    assert forall|i: int| 0 <= i < v.len() implies read[i] == v[i] by {
        assert(holds_at(tagged_run_layout(v), 9 * i, tagged_layout(v[i])));
        lemma_holds_part(b, at + 8, tagged_run_layout(v), 9 * i, tagged_layout(v[i]));
        lemma_parse_tagged(b, at + 8 + 9 * i, v[i]);
    }
    assert(read =~= v);
}

/// A stored grid reads back.
pub proof fn lemma_parse_grid(b: Seq<u8>, at: int, width: u16, codes: Seq<u8>)
    requires
        holds_at(b, at, grid_layout(width, codes)),
        codes.len() <= u64::MAX,
    ensures
        grid_layout(width, codes).len() == 10 + codes.len(),
        parse_grid(b, at) == Some(((width, codes), at + 10 + codes.len())),
{
    lemma_read_ints(b, at);
    lemma_read_ints(b, at + 2);
    let whole = grid_layout(width, codes);
    let w = spec_u16_to_le_bytes(width);
    let n = spec_u64_to_le_bytes(codes.len() as u64);
    assert(whole.subrange(0, 2) =~= w);
    assert(whole.subrange(2, 10) =~= n);
    assert(whole.subrange(10, 10 + codes.len() as int) =~= codes);
    lemma_holds_part(b, at, whole, 0, w);
    lemma_holds_part(b, at, whole, 2, n);
    lemma_holds_part(b, at, whole, 10, codes);
}

/// A run of stored byte strings reads back.
pub proof fn lemma_parse_blob_run(b: Seq<u8>, at: int, v: Seq<Seq<u8>>)
    requires
        holds_at(b, at, blob_run_layout(v)),
        forall|i: int| 0 <= i < v.len() ==> (#[trigger] v[i]).len() <= u64::MAX,
    ensures
        parse_blob_run(b, at, v.len()) == Some((v, at + blob_run_layout(v).len())),
    decreases v.len(),
{
    if v.len() > 0 {
        lemma_read_ints(b, at);
        let first = v.first();
        let rest = v.drop_first();
        let n = spec_u64_to_le_bytes(first.len() as u64);
        let whole = blob_run_layout(v);
        assert(whole.subrange(0, 8) =~= n);
        assert(whole.subrange(8, 8 + first.len() as int) =~= first);
        assert(whole.subrange(8 + first.len() as int, whole.len() as int) =~= blob_run_layout(
            rest,
        ));
        lemma_holds_part(b, at, whole, 0, n);
        lemma_holds_part(b, at, whole, 8, first);
        lemma_holds_part(b, at, whole, 8 + first.len() as int, blob_run_layout(rest));
        assert forall|i: int| 0 <= i < rest.len() implies (#[trigger] rest[i]).len()
            <= u64::MAX by {
            assert(rest[i] == v[i + 1]);
        }
        lemma_parse_blob_run(b, at + 8 + first.len(), rest);
        assert(seq![first] + rest =~= v);
    }
}

/// A stored list of byte strings reads back.
pub proof fn lemma_parse_blobs(b: Seq<u8>, at: int, v: Seq<Seq<u8>>)
    requires
        holds_at(b, at, blobs_layout(v)),
        v.len() <= u64::MAX,
        forall|i: int| 0 <= i < v.len() ==> (#[trigger] v[i]).len() <= u64::MAX,
    ensures
        parse_blobs(b, at) == Some((v, at + blobs_layout(v).len())),
{
    lemma_read_ints(b, at);
    let count = spec_u64_to_le_bytes(v.len() as u64);
    lemma_holds_sum(count, blob_run_layout(v));
    lemma_holds_part(b, at, blobs_layout(v), 0, count);
    lemma_holds_part(b, at, blobs_layout(v), 8, blob_run_layout(v));
    lemma_parse_blob_run(b, at + 8, v);
}

/// Calls `bincode::serialize` on a pair of four-byte integers. It writes into
/// memory without a size limit, so it does not fail, and gives the two
/// integers in order, each least significant byte first.
#[verifier::external_body]
pub(crate) fn encode_point(p: &RawPoint) -> (r: Result<Vec<u8>, Box<bincode::ErrorKind>>)
    ensures
        match r {
            Ok(b) => b@ == point_layout(*p),
            Err(_) => false,
        },
{
    bincode::serialize(p)
}

/// Calls `bincode::serialize` on a list of pairs of four-byte integers. It
/// does not fail, and gives the count in eight bytes and then every pair.
#[verifier::external_body]
pub(crate) fn encode_points(v: &Vec<RawPoint>) -> (r: Result<Vec<u8>, Box<bincode::ErrorKind>>)
    ensures
        match r {
            Ok(b) => b@ == points_layout(v@),
            Err(_) => false,
        },
{
    bincode::serialize(v)
}

/// Calls `bincode::serialize` on a list of pairs, each of a pair of four-byte
/// integers and a byte. It does not fail, and gives the count in eight bytes
/// and then every item: the two integers and the byte.
#[verifier::external_body]
pub(crate) fn encode_tagged_list(v: &Vec<RawTagged>) -> (r: Result<
    Vec<u8>,
    Box<bincode::ErrorKind>,
>)
    ensures
        match r {
            Ok(b) => b@ == tagged_list_layout(v@),
            Err(_) => false,
        },
{
    bincode::serialize(v)
}

/// Calls `bincode::serialize` on a pair of a two-byte integer and a list of
/// bytes. It does not fail, and gives the integer, the count of the bytes in
/// eight bytes, and the bytes.
#[verifier::external_body]
pub(crate) fn encode_grid(width: u16, codes: &Vec<u8>) -> (r: Result<
    Vec<u8>,
    Box<bincode::ErrorKind>,
>)
    ensures
        match r {
            Ok(b) => b@ == grid_layout(width, codes@),
            Err(_) => false,
        },
{
    bincode::serialize(&(width, codes))
}

/// Calls `bincode::serialize` on a list of lists of bytes. It does not fail,
/// and gives the count of the lists in eight bytes and then every list: the
/// count of its bytes in eight bytes, and its bytes.
#[verifier::external_body]
pub(crate) fn encode_blobs(v: &Vec<Vec<u8>>) -> (r: Result<Vec<u8>, Box<bincode::ErrorKind>>)
    ensures
        match r {
            Ok(b) => b@ == blobs_layout(blobs_view(v@)),
            Err(_) => false,
        },
{
    bincode::serialize(v)
}

/// Calls `bincode::deserialize_from` for a pair of four-byte integers on the
/// bytes from `at` on. It gives the pair and the place after it, and fails
/// exactly where the bytes end too early.
#[verifier::external_body]
pub(crate) fn decode_point(bytes: &[u8], at: usize) -> (r: Result<
    (RawPoint, usize),
    Box<bincode::ErrorKind>,
>)
    ensures
        match r {
            Ok((p, end)) => parse_point(bytes@, at as int) == Some((p, end as int)),
            Err(_) => parse_point(bytes@, at as int) is None,
        },
{
    let mut cur = std::io::Cursor::new(bytes);
    cur.set_position(at as u64);
    let p = bincode::deserialize_from(&mut cur)?;
    Ok((p, cur.position() as usize))
}

/// Calls `bincode::deserialize_from` for a list of pairs of four-byte
/// integers on the bytes from `at` on. It gives the list and the place after
/// it, and fails exactly where the bytes end too early.
#[verifier::external_body]
pub(crate) fn decode_points(bytes: &[u8], at: usize) -> (r: Result<
    (Vec<RawPoint>, usize),
    Box<bincode::ErrorKind>,
>)
    ensures
        match r {
            Ok((v, end)) => parse_points(bytes@, at as int) == Some((v@, end as int)),
            Err(_) => parse_points(bytes@, at as int) is None,
        },
{
    let mut cur = std::io::Cursor::new(bytes);
    cur.set_position(at as u64);
    let v = bincode::deserialize_from(&mut cur)?;
    Ok((v, cur.position() as usize))
}

/// Calls `bincode::deserialize_from` for a list of tagged positions on the
/// bytes from `at` on. It gives the list and the place after it, and fails
/// exactly where the bytes end too early.
#[verifier::external_body]
pub(crate) fn decode_tagged_list(bytes: &[u8], at: usize) -> (r: Result<
    (Vec<RawTagged>, usize),
    Box<bincode::ErrorKind>,
>)
    ensures
        match r {
            Ok((v, end)) => parse_tagged_list(bytes@, at as int) == Some((v@, end as int)),
            Err(_) => parse_tagged_list(bytes@, at as int) is None,
        },
{
    let mut cur = std::io::Cursor::new(bytes);
    cur.set_position(at as u64);
    let v = bincode::deserialize_from(&mut cur)?;
    Ok((v, cur.position() as usize))
}

/// Calls `bincode::deserialize_from` for a pair of a two-byte integer and a
/// list of bytes on the bytes from `at` on. It gives the pair and the place
/// after it, and fails exactly where the bytes end too early.
#[verifier::external_body]
pub(crate) fn decode_grid(bytes: &[u8], at: usize) -> (r: Result<
    ((u16, Vec<u8>), usize),
    Box<bincode::ErrorKind>,
>)
    ensures
        match r {
            Ok((g, end)) => parse_grid(bytes@, at as int) == Some(((g.0, g.1@), end as int)),
            Err(_) => parse_grid(bytes@, at as int) is None,
        },
{
    let mut cur = std::io::Cursor::new(bytes);
    cur.set_position(at as u64);
    let g = bincode::deserialize_from(&mut cur)?;
    Ok((g, cur.position() as usize))
}

/// Calls `bincode::deserialize_from` for a pair of an eight-byte integer and
/// a list of two-byte integers on the bytes from `at` on. It gives the pair
/// and the place after it, and fails exactly where the bytes end too early.
#[verifier::external_body]
pub(crate) fn decode_legacy_grid(bytes: &[u8], at: usize) -> (r: Result<
    ((u64, Vec<u16>), usize),
    Box<bincode::ErrorKind>,
>)
    ensures
        match r {
            Ok((g, end)) => parse_legacy_grid(bytes@, at as int) == Some(
                ((g.0, g.1@), end as int),
            ),
            Err(_) => parse_legacy_grid(bytes@, at as int) is None,
        },
{
    let mut cur = std::io::Cursor::new(bytes);
    cur.set_position(at as u64);
    let g = bincode::deserialize_from(&mut cur)?;
    Ok((g, cur.position() as usize))
}

/// Calls `bincode::deserialize_from` for a list of lists of bytes on the
/// bytes from `at` on. It gives the list and the place after it, and fails
/// exactly where the bytes end too early.
#[verifier::external_body]
pub(crate) fn decode_blobs(bytes: &[u8], at: usize) -> (r: Result<
    (Vec<Vec<u8>>, usize),
    Box<bincode::ErrorKind>,
>)
    ensures
        match r {
            Ok((v, end)) => parse_blobs(bytes@, at as int) == Some(
                (blobs_view(v@), end as int),
            ),
            Err(_) => parse_blobs(bytes@, at as int) is None,
        },
{
    let mut cur = std::io::Cursor::new(bytes);
    cur.set_position(at as u64);
    let v = bincode::deserialize_from(&mut cur)?;
    Ok((v, cur.position() as usize))
}

} // verus!
