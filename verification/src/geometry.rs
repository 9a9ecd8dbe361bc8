//! Decoding of Mapbox Vector Tile geometry command streams into integer tile coordinates:
//! polygon rings grouped into polygons, and line strings.
use vstd::prelude::*;

verus! {

/// Why a geometry command stream was refused.
#[derive(Clone, Copy, Debug, PartialEq, Eq, Structural)]
pub enum GeometryError {
    TruncatedPointDelta,
    MoveToBeforeRingClosed,
    MoveToCount(u32),
    LineToBeforePolygonMoveTo,
    RingTooShort,
    MissingClosePath,
    UnsupportedCommand(u32),
    ExteriorTooShort,
    HoleBeforeExterior,
    LineToBeforeLineMoveTo,
}

/// The message of a refused geometry.
pub open spec fn geometry_error_message(e: GeometryError) -> Seq<char> {
    match e {
        GeometryError::TruncatedPointDelta => "truncated point delta"@,
        GeometryError::MoveToBeforeRingClosed => "encountered MoveTo before closing polygon ring"@,
        GeometryError::MoveToCount(c) => "polygon MoveTo expected count=1, found "@ + crate::text::decimal(c as nat),
        GeometryError::LineToBeforePolygonMoveTo => "LineTo encountered before polygon MoveTo"@,
        GeometryError::RingTooShort => "polygon ring contained fewer than 3 vertices"@,
        GeometryError::MissingClosePath => "polygon ring missing ClosePath"@,
        GeometryError::UnsupportedCommand(c) => "unsupported geometry command "@ + crate::text::decimal(c as nat),
        GeometryError::ExteriorTooShort => "polygon exterior ring contained too few vertices"@,
        GeometryError::HoleBeforeExterior => "polygon hole encountered before exterior ring"@,
        GeometryError::LineToBeforeLineMoveTo => "LineTo encountered before line MoveTo"@,
    }
}

impl GeometryError {
    /// The message of this error.
    pub fn message(&self) -> (m: String)
        ensures
            m@ == geometry_error_message(*self),
    {
        let mut out: Vec<char> = Vec::new();
        match self {
            GeometryError::TruncatedPointDelta => crate::text::push_str(&mut out, "truncated point delta"),
            GeometryError::MoveToBeforeRingClosed => crate::text::push_str(&mut out, "encountered MoveTo before closing polygon ring"),
            GeometryError::MoveToCount(c) => {
                crate::text::push_str(&mut out, "polygon MoveTo expected count=1, found ");
                crate::text::push_decimal(&mut out, *c as u64);
            },
            GeometryError::LineToBeforePolygonMoveTo => crate::text::push_str(&mut out, "LineTo encountered before polygon MoveTo"),
            GeometryError::RingTooShort => crate::text::push_str(&mut out, "polygon ring contained fewer than 3 vertices"),
            GeometryError::MissingClosePath => crate::text::push_str(&mut out, "polygon ring missing ClosePath"),
            GeometryError::UnsupportedCommand(c) => {
                crate::text::push_str(&mut out, "unsupported geometry command ");
                crate::text::push_decimal(&mut out, *c as u64);
            },
            GeometryError::ExteriorTooShort => crate::text::push_str(&mut out, "polygon exterior ring contained too few vertices"),
            GeometryError::HoleBeforeExterior => crate::text::push_str(&mut out, "polygon hole encountered before exterior ring"),
            GeometryError::LineToBeforeLineMoveTo => crate::text::push_str(&mut out, "LineTo encountered before line MoveTo"),
        }
        assert(out@ =~= geometry_error_message(*self));
        crate::text::string_from_chars(out.as_slice())
    }
}

/// The signed value that a zigzag-encoded parameter stands for: even values are the
/// non-negative numbers, odd values the negative ones.
pub open spec fn zigzag_of(v: u32) -> i32 {
    if v % 2 == 0 {
        (v / 2) as i32
    } else {
        (-((v / 2) as int) - 1) as i32
    }
}

/// Decodes a zigzag-encoded command parameter.
pub fn zigzag_decode(value: u32) -> (r: i32)
    ensures
        r == zigzag_of(value),
{
    assert(value >> 1 <= 0x7fff_ffff && value & 1 <= 1) by (bit_vector);
    let half = (value >> 1) as i32;
    let sign = -((value & 1) as i32);
    let r = half ^ sign;
    assert(r == zigzag_of(value)) by (bit_vector)
        requires
            half == (value >> 1) as i32,
            sign == -((value & 1) as i32),
            r == half ^ sign,
    ;
    r
}

/// Reads the point delta at `cursor`.
pub fn read_point_delta(commands: &[u32], cursor: &mut usize) -> (r: Result<(i32, i32), GeometryError>)
    requires
        *old(cursor) <= commands@.len(),
    ensures
        match r {
            Ok((dx, dy)) => *old(cursor) + 1 < commands@.len() && *final(cursor) == *old(cursor) + 2
                && dx == zigzag_of(commands@[*old(cursor) as int]) && dy == zigzag_of(
                commands@[*old(cursor) + 1],
            ),
            Err(e) => *old(cursor) + 1 >= commands@.len() && e == GeometryError::TruncatedPointDelta
                && *final(cursor) == *old(cursor),
        },
{
    if commands.len() - *cursor <= 1 {
        return Err(GeometryError::TruncatedPointDelta);
    }
    let dx = zigzag_decode(commands[*cursor]);
    let dy = zigzag_decode(commands[*cursor + 1]);
    *cursor = *cursor + 2;
    Ok((dx, dy))
}

/// The `count` points whose deltas start at `cursor`, each relative to the one before,
/// the first relative to `(x, y)`, with wrapping 32-bit sums.
pub open spec fn read_points(commands: Seq<u32>, cursor: int, count: nat, x: i32, y: i32) -> Result<Seq<(i32, i32)>, GeometryError>
    decreases count,
{
    if count == 0 {
        Ok(Seq::empty())
    } else if cursor + 1 >= commands.len() {
        Err(GeometryError::TruncatedPointDelta)
    } else {
        let nx = x.wrapping_add(zigzag_of(commands[cursor]));
        let ny = y.wrapping_add(zigzag_of(commands[cursor + 1]));
        match read_points(commands, cursor + 2, (count - 1) as nat, nx, ny) {
            Ok(rest) => Ok(seq![(nx, ny)] + rest),
            Err(e) => Err(e),
        }
    }
}

/// The last point read, or `(x, y)` where none was.
pub open spec fn last_or(pts: Seq<(i32, i32)>, x: i32, y: i32) -> (i32, i32) {
    if pts.len() == 0 {
        (x, y)
    } else {
        pts.last()
    }
}

proof fn lemma_read_points_len(commands: Seq<u32>, cursor: int, count: nat, x: i32, y: i32)
    ensures
        read_points(commands, cursor, count, x, y) matches Ok(p) ==> p.len() == count,
    decreases count,
{
    if count > 0 && cursor + 1 < commands.len() {
        let nx = x.wrapping_add(zigzag_of(commands[cursor]));
        let ny = y.wrapping_add(zigzag_of(commands[cursor + 1]));
        lemma_read_points_len(commands, cursor + 2, (count - 1) as nat, nx, ny);
    }
}

/// Reads `count` point deltas, appending the points to `out` and moving the pen `(x, y)`.
fn read_points_exec(
    commands: &[u32],
    cursor: &mut usize,
    count: u32,
    x: &mut i32,
    y: &mut i32,
    out: &mut Vec<(i32, i32)>,
) -> (r: Result<(), GeometryError>)
    requires
        *old(cursor) <= commands@.len(),
    ensures
        match (r, read_points(commands@, *old(cursor) as int, count as nat, *old(x), *old(y))) {
            (Ok(()), Ok(pts)) => *final(cursor) == *old(cursor) + 2 * count && *final(cursor) <= commands@.len()
                && final(out)@ == old(out)@ + pts
                && (*final(x), *final(y)) == last_or(pts, *old(x), *old(y)),
            (Err(e), Err(f)) => e == f,
            _ => false,
        },
{
    let ghost c0 = *cursor as int;
    let ghost x0 = *x;
    let ghost y0 = *y;
    let ghost out0 = out@;
    let mut k: u32 = 0;
    while k < count
        invariant
            c0 == *old(cursor) as int,
            x0 == *old(x),
            y0 == *old(y),
            out0 == old(out)@,
            k <= count,
            *cursor == c0 + 2 * k,
            *cursor <= commands@.len(),
            ({
                let whole = read_points(commands@, c0, count as nat, x0, y0);
                let rest = read_points(commands@, *cursor as int, (count - k) as nat, *x, *y);
                let done = out@.subrange(out0.len() as int, out@.len() as int);
                &&& out@.len() >= out0.len()
                &&& out@.subrange(0, out0.len() as int) == out0
                &&& (*x, *y) == last_or(done, x0, y0)
                &&& match rest {
                    Ok(p) => whole == Ok::<Seq<(i32, i32)>, GeometryError>(done + p),
                    Err(e) => whole == Err::<Seq<(i32, i32)>, GeometryError>(e),
                }
            }),
        decreases count - k,
    {
        let ghost before = out@;
        let ghost cx = *x;
        let ghost cy = *y;
        let ghost cc = *cursor as int;
        let delta = read_point_delta(commands, cursor);
        match delta {
            Ok((dx, dy)) => {
                *x = x.wrapping_add(dx);
                *y = y.wrapping_add(dy);
                out.push((*x, *y));
                k = k + 1;
                proof {
                    let done0 = before.subrange(out0.len() as int, before.len() as int);
                    let done1 = out@.subrange(out0.len() as int, out@.len() as int);
                    assert(done1 =~= done0.push((*x, *y)));
                    assert(out@.subrange(0, out0.len() as int) =~= before.subrange(0, out0.len() as int));
                    match read_points(commands@, *cursor as int, (count - k) as nat, *x, *y) {
                        Ok(p) => {
                            assert(done0 + (seq![(*x, *y)] + p) =~= done1 + p);
                        },
                        Err(e) => {},
                    }
                }
            },
            Err(e) => {
                assert(read_points(commands@, cc, (count - k) as nat, cx, cy) == Err::<Seq<(i32, i32)>, GeometryError>(e));
                assert(read_points(commands@, c0, count as nat, x0, y0) == Err::<Seq<(i32, i32)>, GeometryError>(e));
                return Err(e);
            },
        }
    }
    proof {
        let done = out@.subrange(out0.len() as int, out@.len() as int);
        assert(out@ =~= out0 + done);
        assert(done + Seq::<(i32, i32)>::empty() =~= done);
    }
    Ok(())
}

/// A ring closed by repeating its first point where its last point differs.
pub open spec fn closed_ring(ring: Seq<(i32, i32)>) -> Seq<(i32, i32)> {
    if ring.len() > 0 && ring[0] != ring.last() {
        ring.push(ring[0])
    } else {
        ring
    }
}

/// Closes a non-empty ring.
pub fn close_ring(ring: &mut Vec<(i32, i32)>)
    requires
        old(ring)@.len() > 0,
    ensures
        final(ring)@ == closed_ring(old(ring)@),
{
    let first = ring[0];
    let last = ring[ring.len() - 1];
    if first.0 != last.0 || first.1 != last.1 {
        ring.push(first);
    }
}

/// `v` where it is not negative, else zero.
pub open spec fn clamp_nat(v: int) -> nat {
    if v < 0 {
        0
    } else {
        v as nat
    }
}

/// The rings of a polygon command stream, decoded from position `cursor` with pen `(x, y)`,
/// the ring under construction `ring` and the finished rings `rings`.
pub open spec fn decode_rings_from(
    commands: Seq<u32>,
    cursor: int,
    x: i32,
    y: i32,
    ring: Seq<(i32, i32)>,
    rings: Seq<Seq<(i32, i32)>>,
) -> Result<Seq<Seq<(i32, i32)>>, GeometryError>
    decreases clamp_nat(commands.len() - cursor),
{
    if cursor < 0 || cursor >= commands.len() {
        if ring.len() > 0 {
            Err(GeometryError::MissingClosePath)
        } else {
            Ok(rings)
        }
    } else {
        let command = commands[cursor];
        let id = command % 8;
        let count = command / 8;
        if id == 1 {
            if ring.len() > 0 {
                Err(GeometryError::MoveToBeforeRingClosed)
            } else if count != 1 {
                Err(GeometryError::MoveToCount(count))
            } else {
                match read_points(commands, cursor + 1, 1, x, y) {
                    Err(e) => Err(e),
                    Ok(pts) => {
                        let p = last_or(pts, x, y);
                        decode_rings_from(commands, cursor + 3, p.0, p.1, ring + pts, rings)
                    },
                }
            }
        } else if id == 2 {
            if ring.len() == 0 {
                Err(GeometryError::LineToBeforePolygonMoveTo)
            } else {
                match read_points(commands, cursor + 1, count as nat, x, y) {
                    Err(e) => Err(e),
                    Ok(pts) => {
                        let p = last_or(pts, x, y);
                        decode_rings_from(commands, cursor + 1 + 2 * count, p.0, p.1, ring + pts, rings)
                    },
                }
            }
        } else if id == 7 {
            if ring.len() < 3 {
                Err(GeometryError::RingTooShort)
            } else {
                decode_rings_from(commands, cursor + 1, x, y, Seq::empty(), rings.push(closed_ring(ring)))
            }
        } else {
            Err(GeometryError::UnsupportedCommand(id))
        }
    }
}

/// The rings of a polygon command stream.
pub open spec fn polygon_rings_of(commands: Seq<u32>) -> Result<Seq<Seq<(i32, i32)>>, GeometryError> {
    decode_rings_from(commands, 0, 0, 0, Seq::empty(), Seq::empty())
}

/// The point sequences of a list of rings.
pub open spec fn rings_view(rings: Seq<Vec<(i32, i32)>>) -> Seq<Seq<(i32, i32)>> {
    rings.map_values(|r: Vec<(i32, i32)>| r@)
}

/// Decodes the rings of a polygon command stream, each ring closed.
pub fn decode_polygon_rings(commands: &[u32]) -> (r: Result<Vec<Vec<(i32, i32)>>, GeometryError>)
    ensures
        match (r, polygon_rings_of(commands@)) {
            (Ok(rings), Ok(expected)) => rings_view(rings@) == expected,
            (Err(e), Err(f)) => e == f,
            _ => false,
        },
{
    let mut cursor: usize = 0;
    let mut x: i32 = 0;
    let mut y: i32 = 0;
    let mut current_ring: Vec<(i32, i32)> = Vec::new();
    let mut rings: Vec<Vec<(i32, i32)>> = Vec::new();
    assert(rings_view(rings@) =~= Seq::<Seq<(i32, i32)>>::empty());
    while cursor < commands.len()
        invariant
            cursor <= commands@.len(),
            polygon_rings_of(commands@) == decode_rings_from(
                commands@,
                cursor as int,
                x,
                y,
                current_ring@,
                rings_view(rings@),
            ),
        decreases commands.len() - cursor,
    {
        let command = commands[cursor];
        cursor = cursor + 1;
        let command_id = command & 7;
        let count = command >> 3;
        assert(command_id == command % 8 && count == command / 8) by (bit_vector)
            requires
                command_id == command & 7,
                count == command >> 3,
        ;
        if command_id == 1 {
            if current_ring.len() > 0 {
                return Err(GeometryError::MoveToBeforeRingClosed);
            }
            if count != 1 {
                return Err(GeometryError::MoveToCount(count));
            }
            read_points_exec(commands, &mut cursor, 1, &mut x, &mut y, &mut current_ring)?;
        } else if command_id == 2 {
            if current_ring.len() == 0 {
                return Err(GeometryError::LineToBeforePolygonMoveTo);
            }
            read_points_exec(commands, &mut cursor, count, &mut x, &mut y, &mut current_ring)?;
        } else if command_id == 7 {
            if current_ring.len() < 3 {
                return Err(GeometryError::RingTooShort);
            }
            let ghost open_ring = current_ring@;
            let mut finished = current_ring;
            close_ring(&mut finished);
            let ghost old_rings = rings@;
            rings.push(finished);
            current_ring = Vec::new();
            assert(rings_view(rings@) =~= rings_view(old_rings).push(closed_ring(open_ring)));
        } else {
            return Err(GeometryError::UnsupportedCommand(command_id));
        }
    }
    if current_ring.len() > 0 {
        return Err(GeometryError::MissingClosePath);
    }
    Ok(rings)
}

/// The cross product of two tile points, the summand of the shoelace formula.
pub open spec fn cross(a: (i32, i32), b: (i32, i32)) -> int {
    a.0 * b.1 - b.0 * a.1
}

/// Twice the signed area of the path through the first `n` points of `ring`.
pub open spec fn twice_area_prefix(ring: Seq<(i32, i32)>, n: int) -> int
    decreases n,
{
    if n < 2 {
        0
    } else {
        twice_area_prefix(ring, n - 1) + cross(ring[n - 2], ring[n - 1])
    }
}

/// Twice the signed area that the shoelace formula gives for `ring`, taken as written (a
/// closed ring repeats its first point at the end).
pub open spec fn twice_area(ring: Seq<(i32, i32)>) -> int {
    twice_area_prefix(ring, ring.len() as int)
}

proof fn lemma_cross_bound(a: (i32, i32), b: (i32, i32))
    ensures
        -0x8000_0000_0000_0000 <= cross(a, b) <= 0x8000_0000_0000_0000,
{
    let p = a.0 as int * b.1 as int;
    let q = b.0 as int * a.1 as int;
    assert(-0x4000_0000_0000_0000 <= p <= 0x4000_0000_0000_0000) by (nonlinear_arith)
        requires
            p == a.0 as int * b.1 as int,
            -0x8000_0000 <= a.0 <= 0x7fff_ffff,
            -0x8000_0000 <= b.1 <= 0x7fff_ffff,
    ;
    assert(-0x4000_0000_0000_0000 <= q <= 0x4000_0000_0000_0000) by (nonlinear_arith)
        requires
            q == b.0 as int * a.1 as int,
            -0x8000_0000 <= b.0 <= 0x7fff_ffff,
            -0x8000_0000 <= a.1 <= 0x7fff_ffff,
    ;
}

/// Computes twice the signed area of a ring.
pub fn ring_twice_area(ring: &[(i32, i32)]) -> (a: i128)
    ensures
        a == twice_area(ring@),
{
    let n = ring.len();
    if n < 2 {
        return 0;
    }
    let mut acc: i128 = 0;
    let mut k: usize = 1;
    while k < n
        invariant
            1 <= k <= n,
            n == ring@.len(),
            acc == twice_area_prefix(ring@, k as int),
            -(k as int) * 0x8000_0000_0000_0000 <= acc <= (k as int) * 0x8000_0000_0000_0000,
        decreases n - k,
    {
        let a = ring[k - 1];
        let b = ring[k];
        proof {
            lemma_cross_bound(a, b);
            assert(k < 0x1_0000_0000_0000_0000);
            assert((k as int + 1) * 0x8000_0000_0000_0000 <= 0x1_0000_0000_0000_0000 * 0x8000_0000_0000_0000);
        }
        let a0 = a.0 as i128;
        let a1 = a.1 as i128;
        let b0 = b.0 as i128;
        let b1 = b.1 as i128;
        assert(-0x4000_0000_0000_0000 <= a0 * b1 <= 0x4000_0000_0000_0000) by (nonlinear_arith)
            requires
                -0x8000_0000 <= a0 <= 0x7fff_ffff,
                -0x8000_0000 <= b1 <= 0x7fff_ffff,
        ;
        assert(-0x4000_0000_0000_0000 <= b0 * a1 <= 0x4000_0000_0000_0000) by (nonlinear_arith)
            requires
                -0x8000_0000 <= b0 <= 0x7fff_ffff,
                -0x8000_0000 <= a1 <= 0x7fff_ffff,
        ;
        let p = a0 * b1;
        let q = b0 * a1;
        let term = p - q;
        acc = acc + term;
        k = k + 1;
    }
    acc
}

/// A polygon in tile coordinates: an exterior ring and its holes.
#[derive(Clone, Debug, PartialEq, Eq)]
pub struct TilePolygon {
    pub exterior: Vec<(i32, i32)>,
    pub interiors: Vec<Vec<(i32, i32)>>,
}

/// The mathematical form of a polygon.
pub struct PolygonView {
    pub exterior: Seq<(i32, i32)>,
    pub interiors: Seq<Seq<(i32, i32)>>,
}

impl View for TilePolygon {
    type V = PolygonView;

    open spec fn view(&self) -> PolygonView {
        PolygonView { exterior: self.exterior@, interiors: rings_view(self.interiors@) }
    }
}

/// The polygon of an exterior ring and its holes: refused where the exterior has fewer than
/// four points; holes with fewer than four points are dropped.
pub open spec fn polygon_of(exterior: Seq<(i32, i32)>, holes: Seq<Seq<(i32, i32)>>) -> Result<PolygonView, GeometryError> {
    if exterior.len() < 4 {
        Err(GeometryError::ExteriorTooShort)
    } else {
        Ok(PolygonView { exterior, interiors: holes.filter(|r: Seq<(i32, i32)>| r.len() >= 4) })
    }
}

/// What the grouping of rings has collected so far.
pub struct GroupState {
    pub exterior_sign: int,
    pub exterior: Option<Seq<(i32, i32)>>,
    pub holes: Seq<Seq<(i32, i32)>>,
    pub polygons: Seq<PolygonView>,
}

/// Groups the rings from position `i` on: a ring with zero area is skipped; the first ring
/// with area sets the exterior orientation; a ring of that orientation starts a new polygon,
/// one of the other orientation is a hole of the current polygon.
pub open spec fn group_from(rings: Seq<Seq<(i32, i32)>>, i: int, st: GroupState) -> Result<Seq<PolygonView>, GeometryError>
    decreases rings.len() - i,
{
    if i < 0 || i >= rings.len() {
        match st.exterior {
            Some(ext) => match polygon_of(ext, st.holes) {
                Ok(p) => Ok(st.polygons.push(p)),
                Err(e) => Err(e),
            },
            None => Ok(st.polygons),
        }
    } else {
        let ring = rings[i];
        let area = twice_area(ring);
        if area == 0 {
            group_from(rings, i + 1, st)
        } else {
            let sign: int = if area > 0 { 1 } else { -1 };
            let es = if st.exterior_sign == 0 { sign } else { st.exterior_sign };
            if sign == es {
                match st.exterior {
                    Some(ext) => match polygon_of(ext, st.holes) {
                        Err(e) => Err(e),
                        Ok(p) => group_from(
                            rings,
                            i + 1,
                            GroupState { exterior_sign: es, exterior: Some(ring), holes: Seq::empty(), polygons: st.polygons.push(p) },
                        ),
                    },
                    None => group_from(
                        rings,
                        i + 1,
                        GroupState { exterior_sign: es, exterior: Some(ring), holes: st.holes, polygons: st.polygons },
                    ),
                }
            } else if st.exterior is Some {
                group_from(rings, i + 1, GroupState { exterior_sign: es, holes: st.holes.push(ring), ..st })
            } else {
                Err(GeometryError::HoleBeforeExterior)
            }
        }
    }
}

/// The polygons that a sequence of rings groups into.
pub open spec fn polygons_of_rings(rings: Seq<Seq<(i32, i32)>>) -> Result<Seq<PolygonView>, GeometryError> {
    group_from(
        rings,
        0,
        GroupState { exterior_sign: 0, exterior: None, holes: Seq::empty(), polygons: Seq::empty() },
    )
}

/// The views of a list of polygons.
pub open spec fn polygons_view(ps: Seq<TilePolygon>) -> Seq<PolygonView> {
    ps.map_values(|p: TilePolygon| p@)
}

fn copy_ring(r: &Vec<(i32, i32)>) -> (c: Vec<(i32, i32)>)
    ensures
        c@ == r@,
{
    let mut c: Vec<(i32, i32)> = Vec::new();
    let mut k: usize = 0;
    while k < r.len()
        invariant
            k <= r@.len(),
            c@ == r@.take(k as int),
        decreases r.len() - k,
    {
        c.push(r[k]);
        k = k + 1;
        assert(c@ =~= r@.take(k as int));
    }
    assert(r@.take(k as int) =~= r@);
    c
}

/// Builds a polygon from an exterior ring and its holes.
pub fn build_polygon(exterior: Vec<(i32, i32)>, holes: Vec<Vec<(i32, i32)>>) -> (r: Result<TilePolygon, GeometryError>)
    ensures
        match (r, polygon_of(exterior@, rings_view(holes@))) {
            (Ok(p), Ok(q)) => p@ == q,
            (Err(e), Err(f)) => e == f,
            _ => false,
        },
{
    if exterior.len() < 4 {
        return Err(GeometryError::ExteriorTooShort);
    }
    let mut interiors: Vec<Vec<(i32, i32)>> = Vec::new();
    let mut k: usize = 0;
    while k < holes.len()
        invariant
            k <= holes@.len(),
            rings_view(interiors@) == rings_view(holes@.take(k as int)).filter(|r: Seq<(i32, i32)>| r.len() >= 4),
        decreases holes.len() - k,
    {
        let ghost before = interiors@;
        proof {
            let t = rings_view(holes@.take(k + 1));
            assert(t.drop_last() =~= rings_view(holes@.take(k as int)));
            assert(t.last() == holes@[k as int]@);
            reveal(Seq::filter);
        }
        if holes[k].len() >= 4 {
            interiors.push(copy_ring(&holes[k]));
            assert(rings_view(interiors@) =~= rings_view(before).push(holes@[k as int]@));
        }
        k = k + 1;
    }
    assert(holes@.take(k as int) =~= holes@);
    Ok(TilePolygon { exterior, interiors })
}

/// Groups closed rings into polygons by orientation.
pub fn group_rings_into_multipolygon(rings: &Vec<Vec<(i32, i32)>>) -> (r: Result<Vec<TilePolygon>, GeometryError>)
    ensures
        match (r, polygons_of_rings(rings_view(rings@))) {
            (Ok(ps), Ok(qs)) => polygons_view(ps@) == qs,
            (Err(e), Err(f)) => e == f,
            _ => false,
        },
{
    let ghost rv = rings_view(rings@);
    let mut polygons: Vec<TilePolygon> = Vec::new();
    let mut exterior_sign: i8 = 0;
    let mut current_exterior: Option<Vec<(i32, i32)>> = None;
    let mut current_holes: Vec<Vec<(i32, i32)>> = Vec::new();
    let mut i: usize = 0;
    assert(polygons_view(polygons@) =~= Seq::<PolygonView>::empty());
    assert(rings_view(current_holes@) =~= Seq::<Seq<(i32, i32)>>::empty());
    while i < rings.len()
        invariant
            i <= rings@.len(),
            rv == rings_view(rings@),
            rv.len() == rings@.len(),
            -1 <= exterior_sign <= 1,
            polygons_of_rings(rv) == group_from(
                rv,
                i as int,
                GroupState {
                    exterior_sign: exterior_sign as int,
                    exterior: match current_exterior {
                        Some(e) => Some(e@),
                        None => None,
                    },
                    holes: rings_view(current_holes@),
                    polygons: polygons_view(polygons@),
                },
            ),
        decreases rings.len() - i,
    {
        let ring = &rings[i];
        assert(rv[i as int] == ring@);
        let area = ring_twice_area(ring.as_slice());
        if area != 0 {
            let sign: i8 = if area > 0 { 1 } else { -1 };
            if exterior_sign == 0 {
                exterior_sign = sign;
            }
            if sign == exterior_sign {
                let previous = current_exterior;
                current_exterior = Some(copy_ring(ring));
                match previous {
                    Some(exterior) => {
                        let holes = current_holes;
                        current_holes = Vec::new();
                        let polygon = build_polygon(exterior, holes)?;
                        let ghost before = polygons@;
                        polygons.push(polygon);
                        assert(polygons_view(polygons@) =~= polygons_view(before).push(polygon@));
                        assert(rings_view(current_holes@) =~= Seq::<Seq<(i32, i32)>>::empty());
                    },
                    None => {},
                }
            } else if current_exterior.is_some() {
                let ghost before = current_holes@;
                current_holes.push(copy_ring(ring));
                assert(rings_view(current_holes@) =~= rings_view(before).push(ring@));
            } else {
                return Err(GeometryError::HoleBeforeExterior);
            }
        }
        i = i + 1;
    }
    match current_exterior {
        Some(exterior) => {
            let polygon = build_polygon(exterior, current_holes)?;
            let ghost before = polygons@;
            polygons.push(polygon);
            assert(polygons_view(polygons@) =~= polygons_view(before).push(polygon@));
        },
        None => {},
    }
    Ok(polygons)
}

/// The polygons of a polygon command stream.
pub open spec fn feature_polygons_of(commands: Seq<u32>) -> Result<Seq<PolygonView>, GeometryError> {
    match polygon_rings_of(commands) {
        Err(e) => Err(e),
        Ok(rings) => polygons_of_rings(rings),
    }
}

/// Decodes a polygon command stream into polygons of tile coordinates.
pub fn decode_feature_polygons(commands: &[u32]) -> (r: Result<Vec<TilePolygon>, GeometryError>)
    ensures
        match (r, feature_polygons_of(commands@)) {
            (Ok(ps), Ok(qs)) => polygons_view(ps@) == qs,
            (Err(e), Err(f)) => e == f,
            _ => false,
        },
{
    let rings = decode_polygon_rings(commands)?;
    group_rings_into_multipolygon(&rings)
}

/// The paths of a line command stream, decoded from position `cursor` with pen `(x, y)`,
/// the path under construction `path` and the finished paths `paths`. A path needs two
/// points to be kept; ClosePath is ignored.
pub open spec fn decode_lines_from(
    commands: Seq<u32>,
    cursor: int,
    x: i32,
    y: i32,
    path: Seq<(i32, i32)>,
    paths: Seq<Seq<(i32, i32)>>,
) -> Result<Seq<Seq<(i32, i32)>>, GeometryError>
    decreases clamp_nat(commands.len() - cursor),
{
    if cursor < 0 || cursor >= commands.len() {
        if path.len() >= 2 {
            Ok(paths.push(path))
        } else {
            Ok(paths)
        }
    } else {
        let command = commands[cursor];
        let id = command % 8;
        let count = command / 8;
        if id == 1 {
            let kept = if path.len() >= 2 { paths.push(path) } else { paths };
            match read_points(commands, cursor + 1, count as nat, x, y) {
                Err(e) => Err(e),
                Ok(pts) => {
                    let p = last_or(pts, x, y);
                    decode_lines_from(commands, cursor + 1 + 2 * count, p.0, p.1, pts, kept)
                },
            }
        } else if id == 2 {
            if path.len() == 0 {
                Err(GeometryError::LineToBeforeLineMoveTo)
            } else {
                match read_points(commands, cursor + 1, count as nat, x, y) {
                    Err(e) => Err(e),
                    Ok(pts) => {
                        let p = last_or(pts, x, y);
                        decode_lines_from(commands, cursor + 1 + 2 * count, p.0, p.1, path + pts, paths)
                    },
                }
            }
        } else if id == 7 {
            decode_lines_from(commands, cursor + 1, x, y, path, paths)
        } else {
            Err(GeometryError::UnsupportedCommand(id))
        }
    }
}

/// The paths of a line command stream.
pub open spec fn line_strings_of(commands: Seq<u32>) -> Result<Seq<Seq<(i32, i32)>>, GeometryError> {
    decode_lines_from(commands, 0, 0, 0, Seq::empty(), Seq::empty())
}

/// Decodes a line command stream into paths of tile coordinates.
pub fn decode_feature_line_strings(commands: &[u32]) -> (r: Result<Vec<Vec<(i32, i32)>>, GeometryError>)
    ensures
        match (r, line_strings_of(commands@)) {
            (Ok(paths), Ok(expected)) => rings_view(paths@) == expected,
            (Err(e), Err(f)) => e == f,
            _ => false,
        },
{
    let mut cursor: usize = 0;
    let mut x: i32 = 0;
    let mut y: i32 = 0;
    let mut current_path: Vec<(i32, i32)> = Vec::new();
    let mut paths: Vec<Vec<(i32, i32)>> = Vec::new();
    assert(rings_view(paths@) =~= Seq::<Seq<(i32, i32)>>::empty());
    while cursor < commands.len()
        invariant
            cursor <= commands@.len(),
            line_strings_of(commands@) == decode_lines_from(
                commands@,
                cursor as int,
                x,
                y,
                current_path@,
                rings_view(paths@),
            ),
        decreases commands.len() - cursor,
    {
        let command = commands[cursor];
        cursor = cursor + 1;
        let command_id = command & 7;
        let count = command >> 3;
        assert(command_id == command % 8 && count == command / 8) by (bit_vector)
            requires
                command_id == command & 7,
                count == command >> 3,
        ;
        if command_id == 1 {
            if current_path.len() > 0 {
                if current_path.len() >= 2 {
                    let ghost before = paths@;
                    let ghost p = current_path@;
                    paths.push(current_path);
                    assert(rings_view(paths@) =~= rings_view(before).push(p));
                }
                current_path = Vec::new();
            }
            read_points_exec(commands, &mut cursor, count, &mut x, &mut y, &mut current_path)?;
            assert(current_path@ =~= Seq::<(i32, i32)>::empty() + (current_path@));
        } else if command_id == 2 {
            if current_path.len() == 0 {
                return Err(GeometryError::LineToBeforeLineMoveTo);
            }
            read_points_exec(commands, &mut cursor, count, &mut x, &mut y, &mut current_path)?;
        } else if command_id == 7 {
        } else {
            return Err(GeometryError::UnsupportedCommand(command_id));
        }
    }
    if current_path.len() >= 2 {
        let ghost before = paths@;
        let ghost p = current_path@;
        paths.push(current_path);
        assert(rings_view(paths@) =~= rings_view(before).push(p));
    }
    Ok(paths)
}

/// The zigzag encoding of a signed value: non-negative values to even numbers, negative
/// ones to odd numbers.
pub open spec fn zigzag_encoded(n: i32) -> u32 {
    if n >= 0 {
        (2 * n) as u32
    } else {
        (-2 * n - 1) as u32
    }
}

/// Law: zigzag decoding undoes zigzag encoding.
pub proof fn law_zigzag_roundtrip(n: i32)
    ensures
        zigzag_of(zigzag_encoded(n)) == n,
{
}

/// A ring is closed: it has at least three points and ends where it starts.
pub open spec fn ring_closed(r: Seq<(i32, i32)>) -> bool {
    r.len() >= 3 && r[0] == r.last()
}

/// A polygon is well formed: its exterior and each hole are closed rings of at least four
/// points.
pub open spec fn polygon_well_formed(p: PolygonView) -> bool {
    &&& ring_closed(p.exterior)
    &&& p.exterior.len() >= 4
    &&& forall|i: int| 0 <= i < p.interiors.len() ==> #[trigger] ring_closed(p.interiors[i]) && p.interiors[i].len() >= 4
}

proof fn lemma_decoded_rings_closed(
    commands: Seq<u32>,
    cursor: int,
    x: i32,
    y: i32,
    ring: Seq<(i32, i32)>,
    rings: Seq<Seq<(i32, i32)>>,
)
    requires
        forall|i: int| 0 <= i < rings.len() ==> #[trigger] ring_closed(rings[i]),
    ensures
        decode_rings_from(commands, cursor, x, y, ring, rings) matches Ok(rs) ==> forall|i: int|
            0 <= i < rs.len() ==> #[trigger] ring_closed(rs[i]),
    decreases clamp_nat(commands.len() - cursor),
{
    if 0 <= cursor < commands.len() {
        let command = commands[cursor];
        let id = command % 8;
        let count = command / 8;
        if id == 1 {
            if ring.len() == 0 && count == 1 {
                if let Ok(pts) = read_points(commands, cursor + 1, 1, x, y) {
                    let p = last_or(pts, x, y);
                    lemma_decoded_rings_closed(commands, cursor + 3, p.0, p.1, ring + pts, rings);
                }
            }
        } else if id == 2 {
            if ring.len() > 0 {
                if let Ok(pts) = read_points(commands, cursor + 1, count as nat, x, y) {
                    let p = last_or(pts, x, y);
                    lemma_decoded_rings_closed(commands, cursor + 1 + 2 * count, p.0, p.1, ring + pts, rings);
                }
            }
        } else if id == 7 {
            if ring.len() >= 3 {
                let closed = closed_ring(ring);
                assert(ring_closed(closed));
                let next = rings.push(closed);
                assert forall|i: int| 0 <= i < next.len() implies #[trigger] ring_closed(next[i]) by {
                    if i < rings.len() {
                        assert(next[i] == rings[i]);
                    }
                }
                lemma_decoded_rings_closed(commands, cursor + 1, x, y, Seq::empty(), next);
            }
        }
    }
}

/// Law: every ring decoded from a polygon command stream is closed.
pub proof fn law_decoded_rings_closed(commands: Seq<u32>)
    ensures
        polygon_rings_of(commands) matches Ok(rs) ==> forall|i: int| 0 <= i < rs.len() ==> #[trigger] ring_closed(rs[i]),
{
    lemma_decoded_rings_closed(commands, 0, 0, 0, Seq::empty(), Seq::empty());
}

proof fn lemma_polygon_of_well_formed(exterior: Seq<(i32, i32)>, holes: Seq<Seq<(i32, i32)>>)
    requires
        ring_closed(exterior),
        forall|i: int| 0 <= i < holes.len() ==> #[trigger] ring_closed(holes[i]),
    ensures
        polygon_of(exterior, holes) matches Ok(p) ==> polygon_well_formed(p),
{
    if exterior.len() >= 4 {
        let pred = |r: Seq<(i32, i32)>| r.len() >= 4;
        let kept = holes.filter(pred);
        assert forall|i: int| 0 <= i < kept.len() implies #[trigger] ring_closed(kept[i]) && kept[i].len() >= 4 by {
            holes.lemma_filter_pred(pred, i);
            assert(kept.contains(kept[i]));
            holes.lemma_filter_contains_rev(pred, kept[i]);
            assert(holes.contains(kept[i]));
            let j = choose|j: int| 0 <= j < holes.len() && holes[j] == kept[i];
            assert(ring_closed(holes[j]));
        }
    }
}

proof fn lemma_grouped_well_formed(rings: Seq<Seq<(i32, i32)>>, i: int, st: GroupState)
    requires
        forall|j: int| 0 <= j < rings.len() ==> #[trigger] ring_closed(rings[j]),
        st.exterior matches Some(e) ==> ring_closed(e),
        forall|j: int| 0 <= j < st.holes.len() ==> #[trigger] ring_closed(st.holes[j]),
        forall|j: int| 0 <= j < st.polygons.len() ==> #[trigger] polygon_well_formed(st.polygons[j]),
    ensures
        group_from(rings, i, st) matches Ok(ps) ==> forall|j: int| 0 <= j < ps.len() ==> #[trigger] polygon_well_formed(ps[j]),
    decreases rings.len() - i,
{
    if i < 0 || i >= rings.len() {
        if let Some(ext) = st.exterior {
            lemma_polygon_of_well_formed(ext, st.holes);
            if let Ok(p) = polygon_of(ext, st.holes) {
                let ps = st.polygons.push(p);
                assert forall|j: int| 0 <= j < ps.len() implies #[trigger] polygon_well_formed(ps[j]) by {
                    if j < st.polygons.len() {
                        assert(ps[j] == st.polygons[j]);
                    }
                }
            }
        }
    } else {
        let ring = rings[i];
        let area = twice_area(ring);
        if area == 0 {
            lemma_grouped_well_formed(rings, i + 1, st);
        } else {
            let sign: int = if area > 0 { 1 } else { -1 };
            let es = if st.exterior_sign == 0 { sign } else { st.exterior_sign };
            assert(ring_closed(ring));
            if sign == es {
                match st.exterior {
                    Some(ext) => {
                        lemma_polygon_of_well_formed(ext, st.holes);
                        if let Ok(p) = polygon_of(ext, st.holes) {
                            let ps = st.polygons.push(p);
                            assert forall|j: int| 0 <= j < ps.len() implies #[trigger] polygon_well_formed(ps[j]) by {
                                if j < st.polygons.len() {
                                    assert(ps[j] == st.polygons[j]);
                                }
                            }
                            lemma_grouped_well_formed(
                                rings,
                                i + 1,
                                GroupState { exterior_sign: es, exterior: Some(ring), holes: Seq::empty(), polygons: ps },
                            );
                        }
                    },
                    None => {
                        lemma_grouped_well_formed(
                            rings,
                            i + 1,
                            GroupState { exterior_sign: es, exterior: Some(ring), holes: st.holes, polygons: st.polygons },
                        );
                    },
                }
            } else if st.exterior is Some {
                let holes = st.holes.push(ring);
                assert forall|j: int| 0 <= j < holes.len() implies #[trigger] ring_closed(holes[j]) by {
                    if j < st.holes.len() {
                        assert(holes[j] == st.holes[j]);
                    }
                }
                lemma_grouped_well_formed(rings, i + 1, GroupState { exterior_sign: es, holes, ..st });
            }
        }
    }
}

/// Law: every polygon decoded from a polygon command stream is well formed: its exterior and
/// each hole are closed rings of at least four points.
pub proof fn law_decoded_polygons_well_formed(commands: Seq<u32>)
    ensures
        feature_polygons_of(commands) matches Ok(ps) ==> forall|j: int|
            0 <= j < ps.len() ==> #[trigger] polygon_well_formed(ps[j]),
{
    law_decoded_rings_closed(commands);
    if let Ok(rings) = polygon_rings_of(commands) {
        lemma_grouped_well_formed(
            rings,
            0,
            GroupState { exterior_sign: 0, exterior: None, holes: Seq::empty(), polygons: Seq::empty() },
        );
    }
}

/// The orientation of a ring: 1 for positive area, -1 for negative, 0 for none.
pub open spec fn ring_orientation(ring: Seq<(i32, i32)>) -> int {
    if twice_area(ring) > 0 {
        1
    } else if twice_area(ring) < 0 {
        -1
    } else {
        0
    }
}

/// The orientation of the first ring that has area, or 0 where none has.
pub open spec fn first_orientation(rings: Seq<Seq<(i32, i32)>>) -> int
    decreases rings.len(),
{
    if rings.len() == 0 {
        0
    } else if ring_orientation(rings[0]) != 0 {
        ring_orientation(rings[0])
    } else {
        first_orientation(rings.drop_first())
    }
}

/// Whether a ring has area and the orientation `o`.
pub open spec fn oriented(o: int) -> spec_fn(Seq<(i32, i32)>) -> bool {
    |r: Seq<(i32, i32)>| ring_orientation(r) != 0 && ring_orientation(r) == o
}

/// The exterior rings among `rings`, in order: those with area and the orientation of the
/// first ring with area.
pub open spec fn exterior_rings(rings: Seq<Seq<(i32, i32)>>) -> Seq<Seq<(i32, i32)>> {
    rings.filter(oriented(first_orientation(rings)))
}

/// The exterior rings of a list of polygons, in order.
pub open spec fn polygon_exteriors(ps: Seq<PolygonView>) -> Seq<Seq<(i32, i32)>> {
    ps.map_values(|p: PolygonView| p.exterior)
}

/// The exterior held so far, as a list of none or one ring.
pub open spec fn held_exterior(e: Option<Seq<(i32, i32)>>) -> Seq<Seq<(i32, i32)>> {
    match e {
        Some(r) => seq![r],
        None => Seq::empty(),
    }
}

proof fn lemma_filter_cons(x: Seq<(i32, i32)>, rest: Seq<Seq<(i32, i32)>>, p: spec_fn(Seq<(i32, i32)>) -> bool)
    ensures
        (seq![x] + rest).filter(p) == if p(x) {
            seq![x] + rest.filter(p)
        } else {
            rest.filter(p)
        },
{
    broadcast use vstd::seq_lib::group_seq_properties;
    reveal(Seq::filter);
    assert(seq![x].drop_last() =~= Seq::<Seq<(i32, i32)>>::empty());
    assert(Seq::<Seq<(i32, i32)>>::empty().filter(p) =~= Seq::<Seq<(i32, i32)>>::empty());
    assert(seq![x].filter(p) =~= if p(x) {
        seq![x]
    } else {
        Seq::<Seq<(i32, i32)>>::empty()
    });
    assert((seq![x] + rest).filter(p) == seq![x].filter(p) + rest.filter(p));
}

proof fn lemma_group_exteriors(rings: Seq<Seq<(i32, i32)>>, i: int, st: GroupState)
    requires
        0 <= i <= rings.len(),
        -1 <= st.exterior_sign <= 1,
        st.exterior_sign == 0 ==> st.exterior is None,
    ensures
        group_from(rings, i, st) matches Ok(ps) ==> polygon_exteriors(ps) == polygon_exteriors(st.polygons)
            + held_exterior(st.exterior) + rings.subrange(i, rings.len() as int).filter(
            oriented(
                if st.exterior_sign != 0 {
                    st.exterior_sign
                } else {
                    first_orientation(rings.subrange(i, rings.len() as int))
                },
            ),
        ),
    decreases rings.len() - i,
{
    let sub = rings.subrange(i, rings.len() as int);
    if i == rings.len() {
        assert(sub =~= Seq::<Seq<(i32, i32)>>::empty());
        assert(sub.filter(oriented(st.exterior_sign)) =~= Seq::<Seq<(i32, i32)>>::empty()) by {
            reveal(Seq::filter);
        }
        assert(sub.filter(oriented(0)) =~= Seq::<Seq<(i32, i32)>>::empty()) by {
            reveal(Seq::filter);
        }
        match st.exterior {
            Some(ext) => {
                if let Ok(p) = polygon_of(ext, st.holes) {
                    assert(polygon_exteriors(st.polygons.push(p)) =~= polygon_exteriors(st.polygons) + seq![ext]);
                }
            },
            None => {
                assert(polygon_exteriors(st.polygons) =~= polygon_exteriors(st.polygons) + Seq::<Seq<(i32, i32)>>::empty()
                    + Seq::<Seq<(i32, i32)>>::empty());
            },
        }
    } else {
        let ring = rings[i];
        let next = rings.subrange(i + 1, rings.len() as int);
        assert(sub =~= seq![ring] + next);
        assert(sub[0] == ring);
        assert(sub.drop_first() =~= next);
        let o = ring_orientation(ring);
        let area = twice_area(ring);
        let eff = if st.exterior_sign != 0 {
            st.exterior_sign
        } else {
            first_orientation(sub)
        };
        lemma_filter_cons(ring, next, oriented(eff));
        if area == 0 {
            assert(o == 0);
            if st.exterior_sign == 0 {
                assert(first_orientation(sub) == first_orientation(next));
            }
            lemma_group_exteriors(rings, i + 1, st);
        } else {
            let sign: int = if area > 0 { 1 } else { -1 };
            assert(sign == o);
            let es = if st.exterior_sign == 0 { sign } else { st.exterior_sign };
            if st.exterior_sign == 0 {
                assert(first_orientation(sub) == o);
            }
            assert(eff == es);
            if sign == es {
                match st.exterior {
                    Some(ext) => {
                        if let Ok(p) = polygon_of(ext, st.holes) {
                            let st2 = GroupState {
                                exterior_sign: es,
                                exterior: Some(ring),
                                holes: Seq::empty(),
                                polygons: st.polygons.push(p),
                            };
                            lemma_group_exteriors(rings, i + 1, st2);
                            assert(polygon_exteriors(st.polygons.push(p)) =~= polygon_exteriors(st.polygons)
                                + seq![ext]);
                            if let Ok(ps) = group_from(rings, i, st) {
                                assert(polygon_exteriors(ps) =~= polygon_exteriors(st.polygons) + seq![ext] + (
                                seq![ring] + next.filter(oriented(es))));
                            }
                        }
                    },
                    None => {
                        let st2 = GroupState {
                            exterior_sign: es,
                            exterior: Some(ring),
                            holes: st.holes,
                            polygons: st.polygons,
                        };
                        lemma_group_exteriors(rings, i + 1, st2);
                        if let Ok(ps) = group_from(rings, i, st) {
                            assert(polygon_exteriors(ps) =~= polygon_exteriors(st.polygons)
                                + Seq::<Seq<(i32, i32)>>::empty() + (seq![ring] + next.filter(oriented(es))));
                        }
                    },
                }
            } else if st.exterior is Some {
                lemma_group_exteriors(rings, i + 1, GroupState { exterior_sign: es, holes: st.holes.push(ring), ..st });
            }
        }
    }
}

/// Law: grouping rings into polygons makes exactly one polygon per exterior ring, in order:
/// the exteriors of the polygons are the rings that have area and the orientation of the
/// first ring with area, in the order they come, and no other rings.
pub proof fn law_one_polygon_per_exterior_ring(rings: Seq<Seq<(i32, i32)>>)
    ensures
        polygons_of_rings(rings) matches Ok(ps) ==> polygon_exteriors(ps) == exterior_rings(rings)
            && ps.len() == exterior_rings(rings).len(),
{
    let st = GroupState { exterior_sign: 0, exterior: None, holes: Seq::empty(), polygons: Seq::empty() };
    lemma_group_exteriors(rings, 0, st);
    assert(rings.subrange(0, rings.len() as int) =~= rings);
    assert(polygon_exteriors(Seq::<PolygonView>::empty()) =~= Seq::<Seq<(i32, i32)>>::empty());
    if let Ok(ps) = polygons_of_rings(rings) {
        assert(polygon_exteriors(ps) =~= exterior_rings(rings));
        assert(polygon_exteriors(ps).len() == ps.len());
    }
}

/// Law: the polygons decoded from a polygon command stream are one per exterior ring of its
/// decoded rings, in order.
pub proof fn law_decoded_polygons_per_exterior(commands: Seq<u32>)
    ensures
        (feature_polygons_of(commands), polygon_rings_of(commands)) matches (Ok(ps), Ok(rings)) ==> polygon_exteriors(ps)
            == exterior_rings(rings) && ps.len() == exterior_rings(rings).len(),
{
    if let Ok(rings) = polygon_rings_of(commands) {
        law_one_polygon_per_exterior_ring(rings);
    }
}

/// Whether a ring is kept as a hole where exteriors have orientation `o`: it has area, the
/// other orientation, and at least four points.
pub open spec fn kept_hole(o: int) -> spec_fn(Seq<(i32, i32)>) -> bool {
    |r: Seq<(i32, i32)>| ring_orientation(r) != 0 && ring_orientation(r) != o && r.len() >= 4
}

/// The rings among `rings` that are kept as holes, in order.
pub open spec fn hole_rings(rings: Seq<Seq<(i32, i32)>>) -> Seq<Seq<(i32, i32)>> {
    rings.filter(kept_hole(first_orientation(rings)))
}

/// All holes of a list of polygons, polygon after polygon.
pub open spec fn polygon_holes(ps: Seq<PolygonView>) -> Seq<Seq<(i32, i32)>> {
    ps.map_values(|p: PolygonView| p.interiors).flatten()
}

/// The holes that the polygon under construction will get.
pub open spec fn pending_holes(st: GroupState) -> Seq<Seq<(i32, i32)>> {
    match st.exterior {
        Some(e) => match polygon_of(e, st.holes) {
            Ok(p) => p.interiors,
            Err(_) => Seq::empty(),
        },
        None => Seq::empty(),
    }
}

proof fn lemma_polygon_holes_push(ps: Seq<PolygonView>, p: PolygonView)
    ensures
        polygon_holes(ps.push(p)) == polygon_holes(ps) + p.interiors,
{
    assert(ps.push(p).map_values(|q: PolygonView| q.interiors) =~= ps.map_values(|q: PolygonView| q.interiors).push(
        p.interiors,
    ));
    ps.map_values(|q: PolygonView| q.interiors).lemma_flatten_push(p.interiors);
}

proof fn lemma_group_holes(rings: Seq<Seq<(i32, i32)>>, i: int, st: GroupState)
    requires
        0 <= i <= rings.len(),
        -1 <= st.exterior_sign <= 1,
        st.exterior_sign == 0 ==> st.exterior is None,
        st.exterior is None ==> st.holes.len() == 0,
    ensures
        group_from(rings, i, st) matches Ok(ps) ==> (st.exterior matches Some(e) ==> e.len() >= 4) && polygon_holes(
            ps,
        ) == polygon_holes(st.polygons) + pending_holes(st) + rings.subrange(i, rings.len() as int).filter(
            kept_hole(
                if st.exterior_sign != 0 {
                    st.exterior_sign
                } else {
                    first_orientation(rings.subrange(i, rings.len() as int))
                },
            ),
        ),
    decreases rings.len() - i,
{
    let sub = rings.subrange(i, rings.len() as int);
    let eff = if st.exterior_sign != 0 {
        st.exterior_sign
    } else {
        first_orientation(sub)
    };
    if i == rings.len() {
        assert(sub =~= Seq::<Seq<(i32, i32)>>::empty());
        assert(sub.filter(kept_hole(eff)) =~= Seq::<Seq<(i32, i32)>>::empty()) by {
            reveal(Seq::filter);
        }
        match st.exterior {
            Some(ext) => {
                if let Ok(p) = polygon_of(ext, st.holes) {
                    lemma_polygon_holes_push(st.polygons, p);
                }
            },
            None => {
                assert(polygon_holes(st.polygons) =~= polygon_holes(st.polygons) + Seq::<Seq<(i32, i32)>>::empty()
                    + Seq::<Seq<(i32, i32)>>::empty());
            },
        }
    } else {
        let ring = rings[i];
        let next = rings.subrange(i + 1, rings.len() as int);
        assert(sub =~= seq![ring] + next);
        assert(sub[0] == ring);
        assert(sub.drop_first() =~= next);
        let o = ring_orientation(ring);
        let area = twice_area(ring);
        lemma_filter_cons(ring, next, kept_hole(eff));
        if area == 0 {
            if st.exterior_sign == 0 {
                assert(first_orientation(sub) == first_orientation(next));
            }
            lemma_group_holes(rings, i + 1, st);
        } else {
            let sign: int = if area > 0 { 1 } else { -1 };
            assert(sign == o);
            let es = if st.exterior_sign == 0 { sign } else { st.exterior_sign };
            if st.exterior_sign == 0 {
                assert(first_orientation(sub) == o);
            }
            assert(eff == es);
            if sign == es {
                match st.exterior {
                    Some(ext) => {
                        if let Ok(p) = polygon_of(ext, st.holes) {
                            let st2 = GroupState {
                                exterior_sign: es,
                                exterior: Some(ring),
                                holes: Seq::empty(),
                                polygons: st.polygons.push(p),
                            };
                            lemma_group_holes(rings, i + 1, st2);
                            lemma_polygon_holes_push(st.polygons, p);
                            if let Ok(ps) = group_from(rings, i, st) {
                                let pr = polygon_of(ring, Seq::empty())->Ok_0;
                                assert(pr.interiors =~= Seq::<Seq<(i32, i32)>>::empty()) by {
                                    reveal(Seq::filter);
                                }
                                assert(polygon_holes(ps) =~= polygon_holes(st.polygons) + pending_holes(st)
                                    + next.filter(kept_hole(es)));
                            }
                        }
                    },
                    None => {
                        let st2 = GroupState {
                            exterior_sign: es,
                            exterior: Some(ring),
                            holes: st.holes,
                            polygons: st.polygons,
                        };
                        lemma_group_holes(rings, i + 1, st2);
                        if let Ok(ps) = group_from(rings, i, st) {
                            assert(st.holes =~= Seq::<Seq<(i32, i32)>>::empty());
                            let pr = polygon_of(ring, st.holes)->Ok_0;
                            assert(pr.interiors =~= Seq::<Seq<(i32, i32)>>::empty()) by {
                                reveal(Seq::filter);
                            }
                            assert(polygon_holes(ps) =~= polygon_holes(st.polygons) + pending_holes(st)
                                + next.filter(kept_hole(es)));
                        }
                    },
                }
            } else if st.exterior is Some {
                let st2 = GroupState { exterior_sign: es, holes: st.holes.push(ring), ..st };
                lemma_group_holes(rings, i + 1, st2);
                if let Ok(ps) = group_from(rings, i, st) {
                    let pred = |r: Seq<(i32, i32)>| r.len() >= 4;
                    st.holes.lemma_filter_push(ring, pred);
                    assert(pending_holes(st2) == pending_holes(st) + (if ring.len() >= 4 {
                        seq![ring]
                    } else {
                        Seq::empty()
                    }));
                    assert(polygon_holes(ps) =~= polygon_holes(st.polygons) + pending_holes(st)
                        + sub.filter(kept_hole(es)));
                }
            }
        }
    }
}

/// Law: grouping rings into polygons keeps as holes exactly the rings that have area, the
/// other orientation than the exteriors, and at least four points, in the order they come;
/// each polygon's holes follow those of the polygons before it.
pub proof fn law_holes_are_counter_oriented_rings(rings: Seq<Seq<(i32, i32)>>)
    ensures
        polygons_of_rings(rings) matches Ok(ps) ==> polygon_holes(ps) == hole_rings(rings),
{
    let st = GroupState { exterior_sign: 0, exterior: None, holes: Seq::empty(), polygons: Seq::empty() };
    lemma_group_holes(rings, 0, st);
    assert(rings.subrange(0, rings.len() as int) =~= rings);
    assert(polygon_holes(Seq::<PolygonView>::empty()) =~= Seq::<Seq<(i32, i32)>>::empty()) by {
        assert(Seq::<PolygonView>::empty().map_values(|p: PolygonView| p.interiors) =~= Seq::<
            Seq<Seq<(i32, i32)>>,
        >::empty());
    }
    if let Ok(ps) = polygons_of_rings(rings) {
        assert(polygon_holes(ps) =~= hole_rings(rings));
    }
}

} // verus!
