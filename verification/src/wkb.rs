//! The layout of an ISO (or EWKB) WKB value: its type, where its
//! coordinates lie, and the curves or unsupported types it holds.
//!
//! The walk reads the byte order, the type code (EWKB flags for Z, M and an
//! SRID, ISO thousands for Z and M), and the counts of points, rings and
//! members; the coordinates themselves are handed out as byte ranges.

use vstd::prelude::*;

use crate::text::owned;

verus! {

/// Why a WKB value has no layout.
#[derive(Debug, Clone, Copy, PartialEq, Eq)]
pub enum WkbIssue {
    /// A curve type (its base code, 8 to 14).
    Curve(u32),
    /// A type that GeoParquet does not take (its base code).
    Unsupported(u32),
    /// The bytes end early or the byte order is neither 0 nor 1.
    Malformed,
}

/// `count` points of `dims` little- or big-endian `f64` coordinates each,
/// starting at byte `offset`.
#[derive(Debug, Clone, Copy, PartialEq, Eq)]
pub struct CoordRun {
    pub offset: usize,
    pub count: usize,
    pub dims: usize,
    pub little: bool,
}

/// A geometry's header: byte order, Z and M, base type code, and where its
/// body starts.
#[derive(Debug, Clone, Copy, PartialEq, Eq)]
pub struct WkbHeader {
    pub little: bool,
    pub z: bool,
    pub m: bool,
    pub base: u32,
    pub body: usize,
}

/// The layout of a whole WKB value.
#[derive(Debug)]
pub struct WkbLayout {
    /// The base type code of the outer geometry (1 to 7).
    pub base: u32,
    /// Whether it has a Z coordinate.
    pub z: bool,
    /// Every run of coordinates, in the order of the bytes.
    pub runs: Vec<CoordRun>,
    /// Where the value ends.
    pub end: usize,
}

/// A layout as a value.
pub struct LayoutView {
    pub base: u32,
    pub z: bool,
    pub runs: Seq<CoordRun>,
    pub end: int,
}

/// The `u32` at `pos`, in the given byte order.
#[verifier::opaque]
pub open spec fn u32_at(buf: Seq<u8>, pos: int, little: bool) -> int {
    if little {
        buf[pos] + 256 * buf[pos + 1] + 65536 * buf[pos + 2] + 16777216 * buf[pos + 3]
    } else {
        buf[pos + 3] + 256 * buf[pos + 2] + 65536 * buf[pos + 1] + 16777216 * buf[pos]
    }
}

/// The header of the geometry at `pos`: byte order 0 (big) or 1 (little),
/// the type code, the EWKB flags (Z at bit 31, M at bit 30, an SRID
/// following at bit 29), and the ISO thousands (1 Z, 2 M, 3 both).
#[verifier::opaque]
pub open spec fn header_at(buf: Seq<u8>, pos: int) -> Result<WkbHeader, WkbIssue> {
    if pos < 0 || pos + 5 > buf.len() || buf[pos] > 1 {
        Err(WkbIssue::Malformed)
    } else {
        let little = buf[pos] == 1;
        let code = u32_at(buf, pos + 1, little);
        let srid = (code / 0x2000_0000) % 2 == 1;
        let body = if srid { pos + 9 } else { pos + 5 };
        if body > buf.len() {
            Err(WkbIssue::Malformed)
        } else {
            let iso = code % 0x1000_0000;
            let thousands = iso / 1000;
            let z = code / 0x8000_0000 == 1 || thousands == 1 || thousands == 3;
            let m = (code / 0x4000_0000) % 2 == 1 || thousands == 2 || thousands == 3;
            Ok(WkbHeader { little, z, m, base: (iso % 1000) as u32, body: body as usize })
        }
    }
}

/// The number of coordinates per point.
pub open spec fn dims_of(h: WkbHeader) -> int {
    2 + (if h.z { 1int } else { 0int }) + (if h.m { 1int } else { 0int })
}

/// `n` points of `dims` coordinates at `pos`: where they end and their run.
pub open spec fn points_at(buf: Seq<u8>, pos: int, n: int, dims: int, little: bool) -> Result<(int, Seq<CoordRun>), WkbIssue> {
    if pos + n * dims * 8 > buf.len() {
        Err(WkbIssue::Malformed)
    } else {
        Ok((pos + n * dims * 8, seq![CoordRun { offset: pos as usize, count: n as usize, dims: dims as usize, little }]))
    }
}

/// A four-byte count fits at `pos`.
pub open spec fn counted(buf: Seq<u8>, pos: int) -> bool {
    pos + 4 <= buf.len()
}

/// `acc` put before the runs of a walk.
pub open spec fn after(acc: Seq<CoordRun>, r: Result<(int, Seq<CoordRun>), WkbIssue>) -> Result<(int, Seq<CoordRun>), WkbIssue> {
    match r {
        Ok((end, runs)) => Ok((end, acc + runs)),
        Err(e) => Err(e),
    }
}

/// `k` rings at `pos`, each a count and its points.
pub open spec fn rings_at(buf: Seq<u8>, pos: int, k: int, dims: int, little: bool) -> Result<(int, Seq<CoordRun>), WkbIssue>
    decreases k,
{
    if k <= 0 {
        Ok((pos, Seq::empty()))
    } else if !counted(buf, pos) {
        Err(WkbIssue::Malformed)
    } else {
        match points_at(buf, pos + 4, u32_at(buf, pos, little), dims, little) {
            Err(e) => Err(e),
            Ok((end, runs)) => after(runs, rings_at(buf, end, k - 1, dims, little)),
        }
    }
}

/// The geometry at `pos`: where it ends and its runs of coordinates.
pub open spec fn geometry_at(buf: Seq<u8>, pos: int) -> Result<(int, Seq<CoordRun>), WkbIssue>
    decreases buf.len() - pos, 1int, 0int,
{
    match header_at(buf, pos) {
        Err(e) => Err(e),
        Ok(h) => {
            let body = h.body as int;
            let dims = dims_of(h);
            if h.base == 1 {
                points_at(buf, body, 1, dims, h.little)
            } else if 2 <= h.base <= 7 && !counted(buf, body) {
                Err(WkbIssue::Malformed)
            } else if h.base == 2 {
                points_at(buf, body + 4, u32_at(buf, body, h.little), dims, h.little)
            } else if h.base == 3 {
                rings_at(buf, body + 4, u32_at(buf, body, h.little), dims, h.little)
            } else if 4 <= h.base <= 7 {
                if body + 4 > pos {
                    members_at(buf, body + 4, u32_at(buf, body, h.little))
                } else {
                    Err(WkbIssue::Malformed)
                }
            } else if 8 <= h.base <= 14 {
                Err(WkbIssue::Curve(h.base))
            } else {
                Err(WkbIssue::Unsupported(h.base))
            }
        },
    }
}

/// `k` member geometries at `pos`, one after the other.
pub open spec fn members_at(buf: Seq<u8>, pos: int, k: int) -> Result<(int, Seq<CoordRun>), WkbIssue>
    decreases buf.len() - pos, 2int, k,
{
    if k <= 0 {
        Ok((pos, Seq::empty()))
    } else {
        match geometry_at(buf, pos) {
            Err(e) => Err(e),
            Ok((end, runs)) => if pos < end <= buf.len() {
                after(runs, members_at(buf, end, k - 1))
            } else {
                Err(WkbIssue::Malformed)
            },
        }
    }
}

/// The layout of the WKB value at the start of `buf`.
pub open spec fn wkb_layout_spec(buf: Seq<u8>) -> Result<LayoutView, WkbIssue> {
    match geometry_at(buf, 0) {
        Err(e) => Err(e),
        Ok((end, runs)) => {
            let h = header_at(buf, 0)->Ok_0;
            Ok(LayoutView { base: h.base, z: h.z, runs, end })
        },
    }
}

/// The view of a layout.
pub open spec fn layout_view(r: Result<WkbLayout, WkbIssue>) -> Result<LayoutView, WkbIssue> {
    match r {
        Ok(l) => Ok(LayoutView { base: l.base, z: l.z, runs: l.runs@, end: l.end as int }),
        Err(e) => Err(e),
    }
}

/// The view of a walk.
pub open spec fn walk_view(r: Result<(usize, Vec<CoordRun>), WkbIssue>) -> Result<(int, Seq<CoordRun>), WkbIssue> {
    match r {
        Ok((end, runs)) => Ok((end as int, runs@)),
        Err(e) => Err(e),
    }
}

proof fn lemma_after_after(a: Seq<CoordRun>, b: Seq<CoordRun>, r: Result<(int, Seq<CoordRun>), WkbIssue>)
    ensures
        after(a, after(b, r)) == after(a + b, r),
{
    match r {
        Ok((end, runs)) => {
            assert(a + (b + runs) =~= (a + b) + runs);
        },
        Err(_) => {},
    }
}

proof fn lemma_after_empty(r: Result<(int, Seq<CoordRun>), WkbIssue>)
    ensures
        after(Seq::empty(), r) == r,
{
    match r {
        Ok((end, runs)) => {
            assert(Seq::<CoordRun>::empty() + runs =~= runs);
        },
        Err(_) => {},
    }
}

/// The `u32` at `pos`.
fn read_u32(buf: &[u8], pos: usize, little: bool) -> (r: u32)
    requires
        pos + 4 <= buf@.len(),
    ensures
        r as int == u32_at(buf@, pos as int, little),
{
    reveal(u32_at);
    let b0 = buf[pos] as u32;
    let b1 = buf[pos + 1] as u32;
    let b2 = buf[pos + 2] as u32;
    let b3 = buf[pos + 3] as u32;
    if little {
        b0 + 256 * b1 + 65536 * b2 + 16777216 * b3
    } else {
        b3 + 256 * b2 + 65536 * b1 + 16777216 * b0
    }
}

/// The header of the geometry at `pos`.
fn read_header(buf: &[u8], pos: usize) -> (r: Result<WkbHeader, WkbIssue>)
    ensures
        r == header_at(buf@, pos as int),
        r matches Ok(h) ==> pos + 5 <= h.body <= buf@.len(),
{
    reveal(header_at);
    if buf.len() < 5 || pos > buf.len() - 5 || buf[pos] > 1 {
        return Err(WkbIssue::Malformed);
    }
    let little = buf[pos] == 1;
    let code = read_u32(buf, pos + 1, little);
    let srid = (code / 0x2000_0000) % 2 == 1;
    let body: usize = if srid {
        if buf.len() - pos < 9 {
            return Err(WkbIssue::Malformed);
        }
        pos + 9
    } else {
        pos + 5
    };
    let iso = code % 0x1000_0000;
    let thousands = iso / 1000;
    let z = code / 0x8000_0000 == 1 || thousands == 1 || thousands == 3;
    let m = (code / 0x4000_0000) % 2 == 1 || thousands == 2 || thousands == 3;
    Ok(WkbHeader { little, z, m, base: iso % 1000, body })
}

/// `n` points of `dims` coordinates at `pos`.
fn read_points(buf: &[u8], pos: usize, n: u32, dims: usize, little: bool) -> (r: Result<(usize, Vec<CoordRun>), WkbIssue>)
    requires
        pos <= buf@.len(),
        2 <= dims <= 4,
    ensures
        walk_view(r) == points_at(buf@, pos as int, n as int, dims as int, little),
        r matches Ok((end, _)) ==> pos <= end <= buf@.len() && end == pos + n * dims * 8,
{
    assert((n as u64) * (dims as u64) <= 4 * 0xffff_ffffu64) by (nonlinear_arith)
        requires
            dims <= 4,
            n <= 0xffff_ffffu32,
    ;
    let count: u64 = (n as u64) * (dims as u64);
    let bytes: u64 = count * 8;
    if bytes > (buf.len() - pos) as u64 {
        return Err(WkbIssue::Malformed);
    }
    let end = pos + bytes as usize;
    let mut runs: Vec<CoordRun> = Vec::new();
    runs.push(CoordRun { offset: pos, count: n as usize, dims, little });
    assert(runs@ =~= seq![CoordRun { offset: pos, count: n as usize, dims, little }]);
    Ok((end, runs))
}

/// `k` rings at `pos`.
fn read_rings(buf: &[u8], pos: usize, k: u32, dims: usize, little: bool) -> (r: Result<(usize, Vec<CoordRun>), WkbIssue>)
    requires
        pos <= buf@.len(),
        2 <= dims <= 4,
    ensures
        walk_view(r) == rings_at(buf@, pos as int, k as int, dims as int, little),
        r matches Ok((end, _)) ==> pos <= end <= buf@.len(),
{
    let mut acc: Vec<CoordRun> = Vec::new();
    let mut cur = pos;
    let mut i: u32 = 0;
    proof {
        lemma_after_empty(rings_at(buf@, pos as int, k as int, dims as int, little));
    }
    while i < k
        invariant
            i <= k,
            pos <= cur <= buf@.len(),
            2 <= dims <= 4,
            rings_at(buf@, pos as int, k as int, dims as int, little) == after(
                acc@,
                rings_at(buf@, cur as int, (k - i) as int, dims as int, little),
            ),
        decreases k - i,
    {
        if cur > buf.len() || buf.len() - cur < 4 {
            return Err(WkbIssue::Malformed);
        }
        let n = read_u32(buf, cur, little);
        match read_points(buf, cur + 4, n, dims, little) {
            Err(e) => {
                return Err(e);
            },
            Ok((end, mut runs)) => {
                proof {
                    lemma_after_after(acc@, runs@, rings_at(buf@, end as int, (k - i - 1) as int, dims as int, little));
                }
                acc.append(&mut runs);
                cur = end;
            },
        }
        i = i + 1;
    }
    proof {
        lemma_after_empty(Ok((cur as int, Seq::<CoordRun>::empty())));
        assert(acc@ + Seq::<CoordRun>::empty() =~= acc@);
    }
    Ok((cur, acc))
}

/// The geometry at `pos`: where it ends and its runs of coordinates.
fn read_geometry(buf: &[u8], pos: usize) -> (r: Result<(usize, Vec<CoordRun>), WkbIssue>)
    ensures
        walk_view(r) == geometry_at(buf@, pos as int),
        r matches Ok((end, _)) ==> pos < end <= buf@.len(),
    decreases buf@.len() - pos, 1int, 0int,
{
    let h = match read_header(buf, pos) {
        Err(e) => {
            return Err(e);
        },
        Ok(h) => h,
    };
    let body = h.body;
    let dims: usize = 2 + (if h.z { 1 } else { 0 }) + (if h.m { 1 } else { 0 });
    assert(dims as int == dims_of(h));
    assert(pos + 5 <= body <= buf@.len());
    if h.base == 1 {
        let r = read_points(buf, body, 1, dims, h.little);
        proof {
            if let Ok((end, _)) = r {
                assert(end == body + 1 * dims * 8);
            }
        }
        return r;
    }
    if 2 <= h.base && h.base <= 7 && buf.len() - body < 4 {
        return Err(WkbIssue::Malformed);
    }
    if h.base == 2 {
        let n = read_u32(buf, body, h.little);
        read_points(buf, body + 4, n, dims, h.little)
    } else if h.base == 3 {
        let k = read_u32(buf, body, h.little);
        read_rings(buf, body + 4, k, dims, h.little)
    } else if 4 <= h.base && h.base <= 7 {
        let k = read_u32(buf, body, h.little);
        read_members(buf, body + 4, k)
    } else if 8 <= h.base && h.base <= 14 {
        Err(WkbIssue::Curve(h.base))
    } else {
        Err(WkbIssue::Unsupported(h.base))
    }
}

/// `k` member geometries at `pos`.
fn read_members(buf: &[u8], pos: usize, k: u32) -> (r: Result<(usize, Vec<CoordRun>), WkbIssue>)
    requires
        pos <= buf@.len(),
    ensures
        walk_view(r) == members_at(buf@, pos as int, k as int),
        r matches Ok((end, _)) ==> pos <= end <= buf@.len(),
    decreases buf@.len() - pos, 2int, k,
{
    if k == 0 {
        return Ok((pos, Vec::new()));
    }
    match read_geometry(buf, pos) {
        Err(e) => Err(e),
        Ok((end, mut runs)) => {
            match read_members(buf, end, k - 1) {
                Err(e) => Err(e),
                Ok((last, mut rest)) => {
                    runs.append(&mut rest);
                    Ok((last, runs))
                },
            }
        },
    }
}

/// The layout of the WKB value at the start of `buf`: its outer type, Z,
/// every run of coordinates and where it ends; or why it has none.
pub fn wkb_layout(buf: &[u8]) -> (r: Result<WkbLayout, WkbIssue>)
    ensures
        layout_view(r) == wkb_layout_spec(buf@),
        r matches Ok(l) ==> 1 <= l.base <= 7,
{
    let h = match read_header(buf, 0) {
        Err(e) => {
            return Err(e);
        },
        Ok(h) => h,
    };
    match read_geometry(buf, 0) {
        Err(e) => Err(e),
        Ok((end, runs)) => Ok(WkbLayout { base: h.base, z: h.z, runs, end }),
    }
}

/// The GeoParquet name of a base type code (1 to 7), with ` Z` where the
/// geometry has a Z coordinate.
pub open spec fn type_name_spec(base: u32, z: bool) -> Seq<char> {
    let name = if base == 1 {
        "Point"@
    } else if base == 2 {
        "LineString"@
    } else if base == 3 {
        "Polygon"@
    } else if base == 4 {
        "MultiPoint"@
    } else if base == 5 {
        "MultiLineString"@
    } else if base == 6 {
        "MultiPolygon"@
    } else {
        "GeometryCollection"@
    };
    if z {
        name + " Z"@
    } else {
        name
    }
}

/// The GeoParquet name of a geometry type (`Point`, `Polygon Z`, ...).
pub fn geometry_type_name(base: u32, z: bool) -> (r: String)
    requires
        1 <= base <= 7,
    ensures
        r@ == type_name_spec(base, z),
{
    let name = if base == 1 {
        "Point"
    } else if base == 2 {
        "LineString"
    } else if base == 3 {
        "Polygon"
    } else if base == 4 {
        "MultiPoint"
    } else if base == 5 {
        "MultiLineString"
    } else if base == 6 {
        "MultiPolygon"
    } else {
        "GeometryCollection"
    };
    let mut out = owned(name);
    if z {
        crate::text::append(&mut out, " Z");
    }
    out
}

} // verus!
