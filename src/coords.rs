//! Delta coding of coordinates and the `lengths` layouts of lines, rings and polygons.
use vstd::prelude::*;
use crate::json::Json;
use crate::data::CodecError;

verus! {

broadcast use vstd::std_specs::vec::group_vec_axioms;

// ---------------------------------------------------------------------------
// Encoding
// ---------------------------------------------------------------------------

/// The grid value of a coordinate component.
pub open spec fn component(j: Json) -> Option<i64> {
    match j {
        Json::Scaled(_, g) => Some(g),
        Json::Grid(g) => Some(g),
        _ => None,
    }
}

/// The first `dim` grid values of a position, if it is an array that has them.
pub open spec fn position(j: Json, dim: nat) -> Option<Seq<i64>> {
    match j {
        Json::Array(v) => {
            if v@.len() >= dim && forall|k: int| 0 <= k < dim ==> component(#[trigger] v@[k]) is Some {
                Some(Seq::new(dim, |k: int| component(v@[k])->0))
            } else {
                None
            }
        },
        _ => None,
    }
}

pub open spec fn zeros(dim: nat) -> Seq<i64> {
    Seq::new(dim, |k: int| 0i64)
}

pub open spec fn fits_i64(x: int) -> bool {
    i64::MIN <= x <= i64::MAX
}

/// The component-wise difference `cur - prev`, if every component fits in `i64`.
pub open spec fn delta(prev: Seq<i64>, cur: Seq<i64>) -> Option<Seq<i64>> {
    if forall|k: int| 0 <= k < cur.len() ==> fits_i64(cur[k] - prev[k]) {
        Some(Seq::new(cur.len(), |k: int| (cur[k] - prev[k]) as i64))
    } else {
        None
    }
}

/// The deltas of the positions `pts`, the first taken from `prev`.
pub open spec fn line_code_from(pts: Seq<Json>, dim: nat, prev: Seq<i64>) -> Option<Seq<i64>>
    decreases pts.len(),
{
    if pts.len() == 0 {
        Some(Seq::empty())
    } else {
        match position(pts[0], dim) {
            None => None,
            Some(p) => match delta(prev, p) {
                None => None,
                Some(d) => match line_code_from(pts.skip(1), dim, p) {
                    None => None,
                    Some(rest) => Some(d + rest),
                },
            },
        }
    }
}

/// The coordinates stored for a line (or, when `closed`, a ring, whose last
/// position repeats the first and is left out): each position as its
/// difference from the one before, the first from the origin.
pub open spec fn line_code(pts: Seq<Json>, dim: nat, closed: bool) -> Option<Seq<i64>> {
    if closed {
        if pts.len() == 0 {
            None
        } else {
            line_code_from(pts.drop_last(), dim, zeros(dim))
        }
    } else {
        line_code_from(pts, dim, zeros(dim))
    }
}

/// The number of positions stored for a line of `n` positions.
pub open spec fn stored_count(n: int, closed: bool) -> int {
    if closed {
        n - 1
    } else {
        n
    }
}

/// The lengths and coordinates stored for several lines, each length the
/// number of positions stored for its line.
pub open spec fn lines_code(lines: Seq<Json>, dim: nat, closed: bool) -> Option<(Seq<u32>, Seq<i64>)>
    decreases lines.len(),
{
    if lines.len() == 0 {
        Some((Seq::empty(), Seq::empty()))
    } else {
        match lines[0] {
            Json::Array(pts) => {
                let n = stored_count(pts@.len() as int, closed);
                if n < 0 || n > u32::MAX {
                    None
                } else {
                    match line_code(pts@, dim, closed) {
                        None => None,
                        Some(c) => match lines_code(lines.skip(1), dim, closed) {
                            None => None,
                            Some(r) => Some((seq![n as u32] + r.0, c + r.1)),
                        },
                    }
                }
            },
            _ => None,
        }
    }
}

/// What a multi-line geometry stores: one line alone takes no lengths.
pub open spec fn multi_line_code(lines: Seq<Json>, dim: nat, closed: bool) -> Option<(Seq<u32>, Seq<i64>)> {
    if lines.len() == 1 {
        match lines[0] {
            Json::Array(pts) => match line_code(pts@, dim, closed) {
                Some(c) => Some((Seq::empty(), c)),
                None => None,
            },
            _ => None,
        }
    } else {
        lines_code(lines, dim, closed)
    }
}

/// The lengths and coordinates stored for several polygons: for each, its
/// ring count followed by what its rings store.
pub open spec fn polygons_code(polys: Seq<Json>, dim: nat) -> Option<(Seq<u32>, Seq<i64>)>
    decreases polys.len(),
{
    if polys.len() == 0 {
        Some((Seq::empty(), Seq::empty()))
    } else {
        match polys[0] {
            Json::Array(rings) => {
                if rings@.len() > u32::MAX {
                    None
                } else {
                    match lines_code(rings@, dim, true) {
                        None => None,
                        Some(r) => match polygons_code(polys.skip(1), dim) {
                            None => None,
                            Some(t) => Some((seq![rings@.len() as u32] + r.0 + t.0, r.1 + t.1)),
                        },
                    }
                }
            },
            _ => None,
        }
    }
}

/// Whether `polys` holds exactly one polygon, of exactly one ring.
pub open spec fn is_single_ring(polys: Seq<Json>) -> bool {
    polys.len() == 1 && polys[0] is Array && polys[0]->Array_0@.len() == 1
}

/// What a multi-polygon geometry stores: one polygon of one ring takes no
/// lengths; otherwise the lengths start with the polygon count.
pub open spec fn multi_polygon_code(polys: Seq<Json>, dim: nat) -> Option<(Seq<u32>, Seq<i64>)> {
    if is_single_ring(polys) {
        match polys[0]->Array_0@[0] {
            Json::Array(pts) => match line_code(pts@, dim, true) {
                Some(c) => Some((Seq::empty(), c)),
                None => None,
            },
            _ => None,
        }
    } else if polys.len() > u32::MAX {
        None
    } else {
        match polygons_code(polys, dim) {
            Some(r) => Some((seq![polys.len() as u32] + r.0, r.1)),
            None => None,
        }
    }
}

/// Reads the first `dim` grid values of a position.
pub fn read_position(j: &Json, dim: usize) -> (r: Result<Vec<i64>, CodecError>)
    ensures
        match position(*j, dim as nat) {
            Some(p) => r is Ok && r->Ok_0@ == p,
            None => r == Err::<Vec<i64>, CodecError>(CodecError::MalformedInput),
        },
{
    match j {
        Json::Array(v) => {
            if v.len() < dim {
                return Err(CodecError::MalformedInput);
            }
            let mut out: Vec<i64> = Vec::new();
            let mut k: usize = 0;
            while k < dim
                invariant
                    *j == Json::Array(*v),
                    k <= dim <= v@.len(),
                    out@.len() == k,
                    forall|i: int| 0 <= i < k ==> component(#[trigger] v@[i]) == Some(out@[i]),
                decreases dim - k,
            {
                match &v[k] {
                    Json::Scaled(_, g) => out.push(*g),
                    Json::Grid(g) => out.push(*g),
                    _ => {
                        return Err(CodecError::MalformedInput);
                    },
                }
                k = k + 1;
            }
            assert(out@ =~= Seq::new(dim as nat, |i: int| component(v@[i])->0));
            Ok(out)
        },
        _ => Err(CodecError::MalformedInput),
    }
}

/// The component-wise difference `cur - prev`, if every component fits.
fn point_delta(prev: &Vec<i64>, cur: &Vec<i64>) -> (r: Option<Vec<i64>>)
    requires
        prev@.len() == cur@.len(),
    ensures
        match delta(prev@, cur@) {
            Some(d) => r is Some && r->0@ == d,
            None => r is None,
        },
{
    let mut out: Vec<i64> = Vec::new();
    let mut k: usize = 0;
    while k < cur.len()
        invariant
            prev@.len() == cur@.len(),
            k <= cur@.len(),
            out@ == Seq::new(k as nat, |i: int| (cur@[i] - prev@[i]) as i64),
            forall|i: int| 0 <= i < k ==> fits_i64(cur@[i] - prev@[i]),
        decreases cur.len() - k,
    {
        match cur[k].checked_sub(prev[k]) {
            Some(x) => out.push(x),
            None => {
                return None;
            },
        }
        k = k + 1;
        assert(out@ =~= Seq::new(k as nat, |i: int| (cur@[i] - prev@[i]) as i64));
    }
    Some(out)
}

proof fn lemma_line_code_step(pts: Seq<Json>, i: int, dim: nat, prev: Seq<i64>)
    requires
        0 <= i < pts.len(),
    ensures
        line_code_from(pts.skip(i), dim, prev) == match position(pts[i], dim) {
            None => None,
            Some(p) => match delta(prev, p) {
                None => None,
                Some(d) => match line_code_from(pts.skip(i + 1), dim, p) {
                    None => None,
                    Some(rest) => Some(d + rest),
                },
            },
        },
{
    assert(pts.skip(i)[0] == pts[i]);
    assert(pts.skip(i).skip(1) =~= pts.skip(i + 1));
}

/// Appends the delta code of a line, or of a ring when `closed`.
pub fn add_line(coords: &mut Vec<i64>, points: &Vec<Json>, closed: bool, dim: usize) -> (r: Result<
    (),
    CodecError,
>)
    ensures
        match line_code(points@, dim as nat, closed) {
            Some(c) => r is Ok && final(coords)@ == old(coords)@ + c,
            None => r == Err::<(), CodecError>(CodecError::MalformedInput),
        },
{
    let n: usize;
    if closed {
        if points.len() == 0 {
            return Err(CodecError::MalformedInput);
        }
        n = points.len() - 1;
    } else {
        n = points.len();
    }
    let ghost pts = points@.take(n as int);
    assert(closed ==> pts =~= points@.drop_last());
    assert(!closed ==> pts =~= points@);
    let mut sum: Vec<i64> = Vec::new();
    let mut k: usize = 0;
    while k < dim
        invariant
            k <= dim,
            sum@ == zeros(k as nat),
        decreases dim - k,
    {
        sum.push(0);
        k = k + 1;
        assert(sum@ =~= zeros(k as nat));
    }
    let ghost start = coords@;
    let ghost emitted: Seq<i64> = Seq::empty();
    let mut i: usize = 0;
    assert(pts.skip(0) =~= pts);
    while i < n
        invariant
            n <= points@.len(),
            pts == points@.take(n as int),
            i <= n,
            sum@.len() == dim,
            coords@ == start + emitted,
            line_code(points@, dim as nat, closed) == line_code_from(pts, dim as nat, zeros(dim as nat)),
            line_code_from(pts, dim as nat, zeros(dim as nat)) == match line_code_from(
                pts.skip(i as int),
                dim as nat,
                sum@,
            ) {
                Some(rest) => Some(emitted + rest),
                None => None,
            },
        decreases n - i,
    {
        proof {
            lemma_line_code_step(pts, i as int, dim as nat, sum@);
        }
        assert(pts[i as int] == points@[i as int]);
        let p = read_position(&points[i], dim)?;
        let d = match point_delta(&sum, &p) {
            Some(d) => d,
            None => {
                return Err(CodecError::MalformedInput);
            },
        };
        let mut j: usize = 0;
        let ghost before = coords@;
        while j < dim
            invariant
                j <= dim,
                d@.len() == dim,
                coords@ == before + d@.take(j as int),
            decreases dim - j,
        {
            coords.push(d[j]);
            j = j + 1;
            assert(coords@ =~= before + d@.take(j as int));
        }
        proof {
            assert(d@.take(dim as int) =~= d@);
            assert(emitted + d@ + line_code_from(pts.skip(i + 1), dim as nat, p@)->0 =~= emitted
                + (d@ + line_code_from(pts.skip(i + 1), dim as nat, p@)->0));
            emitted = emitted + d@;
        }
        sum = p;
        i = i + 1;
    }
    assert(pts.skip(n as int) =~= Seq::<Json>::empty());
    assert(emitted + Seq::<i64>::empty() =~= emitted);
    Ok(())
}

proof fn lemma_lines_code_step(lines: Seq<Json>, i: int, dim: nat, closed: bool)
    requires
        0 <= i < lines.len(),
    ensures
        lines.skip(i)[0] == lines[i],
        lines.skip(i).skip(1) == lines.skip(i + 1),
{
    assert(lines.skip(i).skip(1) =~= lines.skip(i + 1));
}

/// Appends, for each line, its stored position count to `lengths` and its
/// delta code to `coords`.
fn add_lines(
    lengths: &mut Vec<u32>,
    coords: &mut Vec<i64>,
    lines: &Vec<Json>,
    closed: bool,
    dim: usize,
) -> (r: Result<(), CodecError>)
    ensures
        match lines_code(lines@, dim as nat, closed) {
            Some(c) => r is Ok && final(lengths)@ == old(lengths)@ + c.0 && final(coords)@ == old(
                coords,
            )@ + c.1,
            None => r == Err::<(), CodecError>(CodecError::MalformedInput),
        },
{
    let ghost start_l = lengths@;
    let ghost start_c = coords@;
    let ghost el: Seq<u32> = Seq::empty();
    let ghost ec: Seq<i64> = Seq::empty();
    let mut i: usize = 0;
    assert(lines@.skip(0) =~= lines@);
    while i < lines.len()
        invariant
            i <= lines@.len(),
            lengths@ == start_l + el,
            coords@ == start_c + ec,
            lines_code(lines@, dim as nat, closed) == match lines_code(
                lines@.skip(i as int),
                dim as nat,
                closed,
            ) {
                Some(r) => Some((el + r.0, ec + r.1)),
                None => None,
            },
        decreases lines.len() - i,
    {
        proof {
            lemma_lines_code_step(lines@, i as int, dim as nat, closed);
        }
        match &lines[i] {
            Json::Array(pts) => {
                if closed && pts.len() == 0 {
                    return Err(CodecError::MalformedInput);
                }
                let n: usize = if closed {
                    pts.len() - 1
                } else {
                    pts.len()
                };
                if n > u32::MAX as usize {
                    return Err(CodecError::MalformedInput);
                }
                lengths.push(n as u32);
                add_line(coords, pts, closed, dim)?;
                proof {
                    let c = line_code(pts@, dim as nat, closed)->0;
                    let r = lines_code(lines@.skip(i + 1), dim as nat, closed)->0;
                    assert(el + (seq![n as u32] + r.0) =~= el.push(n as u32) + r.0);
                    assert(ec + (c + r.1) =~= (ec + c) + r.1);
                    assert(start_l + el.push(n as u32) =~= (start_l + el).push(n as u32));
                    assert(start_c + (ec + c) =~= (start_c + ec) + c);
                    el = el.push(n as u32);
                    ec = ec + c;
                }
            },
            _ => {
                return Err(CodecError::MalformedInput);
            },
        }
        i = i + 1;
    }
    proof {
        assert(lines@.skip(i as int) =~= Seq::<Json>::empty());
        assert(el + Seq::<u32>::empty() =~= el);
        assert(ec + Seq::<i64>::empty() =~= ec);
    }
    Ok(())
}

/// Appends what a multi-line geometry stores (or a polygon's, when `closed`).
pub fn add_multi_line(
    lengths: &mut Vec<u32>,
    coords: &mut Vec<i64>,
    lines: &Vec<Json>,
    closed: bool,
    dim: usize,
) -> (r: Result<(), CodecError>)
    ensures
        match multi_line_code(lines@, dim as nat, closed) {
            Some(c) => r is Ok && final(lengths)@ == old(lengths)@ + c.0 && final(coords)@ == old(
                coords,
            )@ + c.1,
            None => r == Err::<(), CodecError>(CodecError::MalformedInput),
        },
{
    if lines.len() == 1 {
        match &lines[0] {
            Json::Array(pts) => {
                let r = add_line(coords, pts, closed, dim);
                assert(lengths@ + Seq::<u32>::empty() =~= lengths@);
                r
            },
            _ => Err(CodecError::MalformedInput),
        }
    } else {
        add_lines(lengths, coords, lines, closed, dim)
    }
}

/// Appends, for each polygon, its ring count and what its rings store.
fn add_polygons(lengths: &mut Vec<u32>, coords: &mut Vec<i64>, polys: &Vec<Json>, dim: usize) -> (r:
    Result<(), CodecError>)
    ensures
        match polygons_code(polys@, dim as nat) {
            Some(c) => r is Ok && final(lengths)@ == old(lengths)@ + c.0 && final(coords)@ == old(
                coords,
            )@ + c.1,
            None => r == Err::<(), CodecError>(CodecError::MalformedInput),
        },
{
    let ghost start_l = lengths@;
    let ghost start_c = coords@;
    let ghost el: Seq<u32> = Seq::empty();
    let ghost ec: Seq<i64> = Seq::empty();
    let mut i: usize = 0;
    assert(polys@.skip(0) =~= polys@);
    while i < polys.len()
        invariant
            i <= polys@.len(),
            lengths@ == start_l + el,
            coords@ == start_c + ec,
            polygons_code(polys@, dim as nat) == match polygons_code(
                polys@.skip(i as int),
                dim as nat,
            ) {
                Some(r) => Some((el + r.0, ec + r.1)),
                None => None,
            },
        decreases polys.len() - i,
    {
        proof {
            lemma_lines_code_step(polys@, i as int, dim as nat, true);
        }
        match &polys[i] {
            Json::Array(rings) => {
                if rings.len() > u32::MAX as usize {
                    return Err(CodecError::MalformedInput);
                }
                lengths.push(rings.len() as u32);
                let ghost mid = lengths@;
                add_lines(lengths, coords, rings, true, dim)?;
                proof {
                    let c = lines_code(rings@, dim as nat, true)->0;
                    let t = polygons_code(polys@.skip(i + 1), dim as nat)->0;
                    let h = seq![rings@.len() as u32];
                    assert(el + (h + c.0 + t.0) =~= (el + h + c.0) + t.0);
                    assert(ec + (c.1 + t.1) =~= (ec + c.1) + t.1);
                    assert(start_l + (el + h + c.0) =~= mid + c.0);
                    assert(start_c + (ec + c.1) =~= (start_c + ec) + c.1);
                    el = el + h + c.0;
                    ec = ec + c.1;
                }
            },
            _ => {
                return Err(CodecError::MalformedInput);
            },
        }
        i = i + 1;
    }
    proof {
        assert(polys@.skip(i as int) =~= Seq::<Json>::empty());
        assert(el + Seq::<u32>::empty() =~= el);
        assert(ec + Seq::<i64>::empty() =~= ec);
    }
    Ok(())
}

/// Appends what a multi-polygon geometry stores.
pub fn add_multi_polygon(lengths: &mut Vec<u32>, coords: &mut Vec<i64>, polys: &Vec<Json>, dim: usize) -> (r:
    Result<(), CodecError>)
    ensures
        match multi_polygon_code(polys@, dim as nat) {
            Some(c) => r is Ok && final(lengths)@ == old(lengths)@ + c.0 && final(coords)@ == old(
                coords,
            )@ + c.1,
            None => r == Err::<(), CodecError>(CodecError::MalformedInput),
        },
{
    let single = polys.len() == 1 && match &polys[0] {
        Json::Array(rings) => rings.len() == 1,
        _ => false,
    };
    if single {
        match &polys[0] {
            Json::Array(rings) => match &rings[0] {
                Json::Array(pts) => {
                    let r = add_line(coords, pts, true, dim);
                    assert(lengths@ + Seq::<u32>::empty() =~= lengths@);
                    r
                },
                _ => Err(CodecError::MalformedInput),
            },
            _ => Err(CodecError::MalformedInput),
        }
    } else {
        if polys.len() > u32::MAX as usize {
            return Err(CodecError::MalformedInput);
        }
        lengths.push(polys.len() as u32);
        let ghost mid = lengths@;
        let r = add_polygons(lengths, coords, polys, dim);
        proof {
            if r is Ok {
                let c = polygons_code(polys@, dim as nat)->0;
                assert(mid + c.0 =~= old(lengths)@ + (seq![polys@.len() as u32] + c.0));
            }
        }
        r
    }
}

// ---------------------------------------------------------------------------
// Decoding
// ---------------------------------------------------------------------------

/// The component-wise sum `prev + d`, if every component fits in `i64`.
pub open spec fn advance(prev: Seq<i64>, d: Seq<i64>) -> Option<Seq<i64>> {
    if forall|k: int| 0 <= k < d.len() ==> fits_i64(prev[k] + d[k]) {
        Some(Seq::new(d.len(), |k: int| (prev[k] + d[k]) as i64))
    } else {
        None
    }
}

/// The positions whose deltas, in chunks of `dim`, are `c`, the first
/// taken from `prev`.
pub open spec fn line_positions_from(c: Seq<i64>, dim: nat, prev: Seq<i64>) -> Option<Seq<Seq<i64>>>
    decreases c.len(),
{
    if c.len() == 0 {
        Some(Seq::empty())
    } else if dim == 0 || c.len() < dim {
        None
    } else {
        match advance(prev, c.take(dim as int)) {
            None => None,
            Some(p) => match line_positions_from(c.skip(dim as int), dim, p) {
                None => None,
                Some(rest) => Some(seq![p] + rest),
            },
        }
    }
}

/// The positions of a line (or, when `closed`, a ring, whose first position is
/// repeated at its end) stored as the delta code `c`.
pub open spec fn line_positions(c: Seq<i64>, dim: nat, closed: bool) -> Option<Seq<Seq<i64>>> {
    if dim == 0 {
        None
    } else {
        match line_positions_from(c, dim, zeros(dim)) {
            None => None,
            Some(ps) => if !closed {
                Some(ps)
            } else if c.len() == 0 {
                None
            } else {
                Some(ps.push(c.take(dim as int)))
            },
        }
    }
}

/// The lines stored as `lengths` and the start of `c`, with what is left of `c`.
pub open spec fn lines_positions(lengths: Seq<u32>, c: Seq<i64>, dim: nat, closed: bool) -> Option<
    (Seq<Seq<Seq<i64>>>, Seq<i64>),
>
    decreases lengths.len(),
{
    if lengths.len() == 0 {
        Some((Seq::empty(), c))
    } else {
        let n = lengths[0] * dim;
        if n > c.len() {
            None
        } else {
            match line_positions(c.take(n), dim, closed) {
                None => None,
                Some(l) => match lines_positions(lengths.skip(1), c.skip(n), dim, closed) {
                    None => None,
                    Some(r) => Some((seq![l] + r.0, r.1)),
                },
            }
        }
    }
}

/// The lines of a multi-line geometry (rings of a polygon, when `closed`):
/// with no lengths, all of `c` is one line.
pub open spec fn multi_line_positions(lengths: Seq<u32>, c: Seq<i64>, dim: nat, closed: bool) -> Option<
    Seq<Seq<Seq<i64>>>,
> {
    if lengths.len() == 0 {
        match line_positions(c, dim, closed) {
            Some(l) => Some(seq![l]),
            None => None,
        }
    } else {
        match lines_positions(lengths, c, dim, closed) {
            Some(r) => Some(r.0),
            None => None,
        }
    }
}

/// `count` polygons stored as `lengths` (for each, its ring count and then
/// the rings' lengths) and `c`.
pub open spec fn polygons_positions(count: nat, lengths: Seq<u32>, c: Seq<i64>, dim: nat) -> Option<
    Seq<Seq<Seq<Seq<i64>>>>,
>
    decreases count,
{
    if count == 0 {
        Some(Seq::empty())
    } else if lengths.len() == 0 {
        None
    } else {
        let nr = lengths[0] as int;
        if 1 + nr > lengths.len() {
            None
        } else {
            match lines_positions(lengths.subrange(1, 1 + nr), c, dim, true) {
                None => None,
                Some(r) => match polygons_positions((count - 1) as nat, lengths.skip(1 + nr), r.1, dim) {
                    None => None,
                    Some(t) => Some(seq![r.0] + t),
                },
            }
        }
    }
}

/// The polygons of a multi-polygon geometry: with no lengths, all of `c` is
/// one polygon of one ring; otherwise the lengths start with the polygon count.
pub open spec fn multi_polygon_positions(lengths: Seq<u32>, c: Seq<i64>, dim: nat) -> Option<
    Seq<Seq<Seq<Seq<i64>>>>,
> {
    if lengths.len() == 0 {
        match line_positions(c, dim, true) {
            Some(r) => Some(seq![seq![r]]),
            None => None,
        }
    } else {
        polygons_positions(lengths[0] as nat, lengths.skip(1), c, dim)
    }
}

pub open spec fn positions_view(s: Seq<Vec<i64>>) -> Seq<Seq<i64>> {
    s.map_values(|p: Vec<i64>| p@)
}

pub open spec fn lines_view(s: Seq<Vec<Vec<i64>>>) -> Seq<Seq<Seq<i64>>> {
    s.map_values(|l: Vec<Vec<i64>>| positions_view(l@))
}

pub open spec fn polygons_view(s: Seq<Vec<Vec<Vec<i64>>>>) -> Seq<Seq<Seq<Seq<i64>>>> {
    s.map_values(|p: Vec<Vec<Vec<i64>>>| lines_view(p@))
}

/// The component-wise sum of `prev` and `coords[at..at + prev.len()]`, if
/// every component fits.
fn point_sum(prev: &Vec<i64>, coords: &Vec<i64>, at: usize) -> (r: Option<Vec<i64>>)
    requires
        at + prev@.len() <= coords@.len(),
    ensures
        match advance(prev@, coords@.subrange(at as int, at + prev@.len())) {
            Some(p) => r is Some && r->0@ == p,
            None => r is None,
        },
{
    let ghost d = coords@.subrange(at as int, at + prev@.len());
    let mut out: Vec<i64> = Vec::new();
    let mut k: usize = 0;
    let total = coords.len();
    while k < prev.len()
        invariant
            at + prev@.len() <= coords@.len() == total,
            d == coords@.subrange(at as int, at + prev@.len()),
            k <= prev@.len(),
            out@ == Seq::new(k as nat, |i: int| (prev@[i] + d[i]) as i64),
            forall|i: int| 0 <= i < k ==> fits_i64(prev@[i] + d[i]),
        decreases prev.len() - k,
    {
        match prev[k].checked_add(coords[at + k]) {
            Some(x) => out.push(x),
            None => {
                return None;
            },
        }
        k = k + 1;
        assert(out@ =~= Seq::new(k as nat, |i: int| (prev@[i] + d[i]) as i64));
    }
    Some(out)
}

/// A copy of `coords[from..to]`.
fn copy_range(coords: &Vec<i64>, from: usize, to: usize) -> (r: Vec<i64>)
    requires
        from <= to <= coords@.len(),
    ensures
        r@ == coords@.subrange(from as int, to as int),
{
    let mut out: Vec<i64> = Vec::new();
    let mut k: usize = from;
    while k < to
        invariant
            from <= k <= to <= coords@.len(),
            out@ == coords@.subrange(from as int, k as int),
        decreases to - k,
    {
        out.push(coords[k]);
        k = k + 1;
        assert(out@ =~= coords@.subrange(from as int, k as int));
    }
    out
}

/// The positions of the line (ring, when `closed`) stored as `coords[start..end]`.
pub fn decode_line(coords: &Vec<i64>, start: usize, end: usize, dim: usize, closed: bool) -> (r: Result<
    Vec<Vec<i64>>,
    CodecError,
>)
    requires
        start <= end <= coords@.len(),
    ensures
        match line_positions(coords@.subrange(start as int, end as int), dim as nat, closed) {
            Some(ps) => r is Ok && positions_view(r->Ok_0@) == ps,
            None => r == Err::<Vec<Vec<i64>>, CodecError>(CodecError::MalformedInput),
        },
{
    if dim == 0 {
        return Err(CodecError::MalformedInput);
    }
    let ghost c = coords@.subrange(start as int, end as int);
    let mut acc: Vec<i64> = Vec::new();
    let mut k: usize = 0;
    while k < dim
        invariant
            k <= dim,
            acc@ == zeros(k as nat),
        decreases dim - k,
    {
        acc.push(0);
        k = k + 1;
        assert(acc@ =~= zeros(k as nat));
    }
    let mut out: Vec<Vec<i64>> = Vec::new();
    let mut i: usize = start;
    assert(coords@.subrange(start as int, end as int) =~= c);
    while i < end
        invariant
            start <= i <= end <= coords@.len(),
            dim > 0,
            acc@.len() == dim,
            c == coords@.subrange(start as int, end as int),
            line_positions_from(c, dim as nat, zeros(dim as nat)) == match line_positions_from(
                coords@.subrange(i as int, end as int),
                dim as nat,
                acc@,
            ) {
                Some(rest) => Some(positions_view(out@) + rest),
                None => None,
            },
        decreases end - i,
    {
        let ghost rem = coords@.subrange(i as int, end as int);
        if end - i < dim {
            return Err(CodecError::MalformedInput);
        }
        assert(rem.take(dim as int) =~= coords@.subrange(i as int, i + dim));
        assert(rem.skip(dim as int) =~= coords@.subrange(i + dim, end as int));
        let p = match point_sum(&acc, coords, i) {
            Some(p) => p,
            None => {
                return Err(CodecError::MalformedInput);
            },
        };
        let q = copy_range(&p, 0, p.len());
        assert(q@ =~= p@);
        proof {
            let rest = line_positions_from(coords@.subrange(i + dim, end as int), dim as nat, p@)->0;
            assert(positions_view(out@.push(q)) =~= positions_view(out@).push(p@));
            assert(positions_view(out@) + (seq![p@] + rest) =~= positions_view(out@).push(p@)
                + rest);
        }
        out.push(q);
        acc = p;
        i = i + dim;
    }
    assert(coords@.subrange(i as int, end as int) =~= Seq::<i64>::empty());
    assert(positions_view(out@) + Seq::<Seq<i64>>::empty() =~= positions_view(out@));
    if closed {
        if end == start {
            return Err(CodecError::MalformedInput);
        }
        let first = copy_range(coords, start, start + dim);
        assert(first@ =~= c.take(dim as int));
        assert(positions_view(out@.push(first)) =~= positions_view(out@).push(first@));
        out.push(first);
    }
    Ok(out)
}

/// The lines stored as `lengths[ls..le]` and `coords[cs..]`, with the index
/// in `coords` where they end.
fn decode_lines(
    lengths: &Vec<u32>,
    ls: usize,
    le: usize,
    coords: &Vec<i64>,
    cs: usize,
    dim: usize,
    closed: bool,
) -> (r: Result<(Vec<Vec<Vec<i64>>>, usize), CodecError>)
    requires
        ls <= le <= lengths@.len(),
        cs <= coords@.len(),
    ensures
        match lines_positions(
            lengths@.subrange(ls as int, le as int),
            coords@.skip(cs as int),
            dim as nat,
            closed,
        ) {
            Some(x) => {
                &&& r is Ok
                &&& lines_view((r->Ok_0).0@) == x.0
                &&& (r->Ok_0).1 <= coords@.len()
                &&& coords@.skip((r->Ok_0).1 as int) == x.1
            },
            None => r == Err::<(Vec<Vec<Vec<i64>>>, usize), CodecError>(CodecError::MalformedInput),
        },
{
    let ghost top = lines_positions(
        lengths@.subrange(ls as int, le as int),
        coords@.skip(cs as int),
        dim as nat,
        closed,
    );
    let mut out: Vec<Vec<Vec<i64>>> = Vec::new();
    let mut k: usize = ls;
    let mut i: usize = cs;
    let total = coords.len();
    while k < le
        invariant
            ls <= k <= le <= lengths@.len(),
            i <= coords@.len() == total,
            cs <= coords@.len(),
            top == lines_positions(
                lengths@.subrange(ls as int, le as int),
                coords@.skip(cs as int),
                dim as nat,
                closed,
            ),
            top == match lines_positions(
                lengths@.subrange(k as int, le as int),
                coords@.skip(i as int),
                dim as nat,
                closed,
            ) {
                Some(r) => Some((lines_view(out@) + r.0, r.1)),
                None => None,
            },
        decreases le - k,
    {
        let ghost l = lengths@.subrange(k as int, le as int);
        let ghost c = coords@.skip(i as int);
        assert(l[0] == lengths@[k as int]);
        assert(l.skip(1) =~= lengths@.subrange(k + 1, le as int));
        let n = match (lengths[k] as usize).checked_mul(dim) {
            Some(n) => n,
            None => {
                return Err(CodecError::MalformedInput);
            },
        };
        if n > total - i {
            return Err(CodecError::MalformedInput);
        }
        assert(c.take(n as int) =~= coords@.subrange(i as int, i + n));
        assert(c.skip(n as int) =~= coords@.skip(i + n));
        let line = decode_line(coords, i, i + n, dim, closed)?;
        proof {
            let rest = lines_positions(
                lengths@.subrange(k + 1, le as int),
                coords@.skip(i + n),
                dim as nat,
                closed,
            );
            assert(lines_view(out@.push(line)) =~= lines_view(out@).push(positions_view(line@)));
            if rest is Some {
                assert(lines_view(out@) + (seq![positions_view(line@)] + rest.unwrap().0) =~= lines_view(
                    out@,
                ).push(positions_view(line@)) + rest.unwrap().0);
            }
        }
        out.push(line);
        k = k + 1;
        i = i + n;
    }
    assert(lengths@.subrange(k as int, le as int) =~= Seq::<u32>::empty());
    assert(lines_view(out@) + Seq::<Seq<Seq<i64>>>::empty() =~= lines_view(out@));
    Ok((out, i))
}

/// The lines of a multi-line geometry, or the rings of a polygon when `closed`.
pub fn decode_multi_line(lengths: &Vec<u32>, coords: &Vec<i64>, dim: usize, closed: bool) -> (r: Result<
    Vec<Vec<Vec<i64>>>,
    CodecError,
>)
    ensures
        match multi_line_positions(lengths@, coords@, dim as nat, closed) {
            Some(x) => r is Ok && lines_view(r->Ok_0@) == x,
            None => r == Err::<Vec<Vec<Vec<i64>>>, CodecError>(CodecError::MalformedInput),
        },
{
    if lengths.len() == 0 {
        assert(coords@.subrange(0, coords@.len() as int) =~= coords@);
        let line = decode_line(coords, 0, coords.len(), dim, closed)?;
        let mut out: Vec<Vec<Vec<i64>>> = Vec::new();
        out.push(line);
        assert(lines_view(out@) =~= seq![positions_view(line@)]);
        Ok(out)
    } else {
        assert(lengths@.subrange(0, lengths@.len() as int) =~= lengths@);
        assert(coords@.skip(0) =~= coords@);
        let (lines, _) = decode_lines(lengths, 0, lengths.len(), coords, 0, dim, closed)?;
        Ok(lines)
    }
}

/// The polygons of a multi-polygon geometry.
pub fn decode_multi_polygon(lengths: &Vec<u32>, coords: &Vec<i64>, dim: usize) -> (r: Result<
    Vec<Vec<Vec<Vec<i64>>>>,
    CodecError,
>)
    ensures
        match multi_polygon_positions(lengths@, coords@, dim as nat) {
            Some(x) => r is Ok && polygons_view(r->Ok_0@) == x,
            None => r == Err::<Vec<Vec<Vec<Vec<i64>>>>, CodecError>(CodecError::MalformedInput),
        },
{
    if lengths.len() == 0 {
        assert(coords@.subrange(0, coords@.len() as int) =~= coords@);
        let ring = decode_line(coords, 0, coords.len(), dim, true)?;
        let mut rings: Vec<Vec<Vec<i64>>> = Vec::new();
        rings.push(ring);
        let mut out: Vec<Vec<Vec<Vec<i64>>>> = Vec::new();
        out.push(rings);
        assert(lines_view(rings@) =~= seq![positions_view(ring@)]);
        assert(polygons_view(out@) =~= seq![seq![positions_view(ring@)]]);
        return Ok(out);
    }
    let count = lengths[0];
    let ghost top = multi_polygon_positions(lengths@, coords@, dim as nat);
    let mut out: Vec<Vec<Vec<Vec<i64>>>> = Vec::new();
    let mut n: u32 = 0;
    let mut j: usize = 1;
    let mut i: usize = 0;
    let total = lengths.len();
    assert(coords@.skip(0) =~= coords@);
    while n < count
        invariant
            n <= count,
            1 <= j <= lengths@.len() == total,
            i <= coords@.len(),
            lengths@.len() > 0 && count == lengths@[0],
            top == multi_polygon_positions(lengths@, coords@, dim as nat),
            top == match polygons_positions(
                (count - n) as nat,
                lengths@.skip(j as int),
                coords@.skip(i as int),
                dim as nat,
            ) {
                Some(t) => Some(polygons_view(out@) + t),
                None => None,
            },
        decreases count - n,
    {
        let ghost l = lengths@.skip(j as int);
        if j >= total {
            return Err(CodecError::MalformedInput);
        }
        let nr = lengths[j] as usize;
        assert(l[0] == lengths@[j as int]);
        if nr > total - j - 1 {
            return Err(CodecError::MalformedInput);
        }
        assert(l.subrange(1, 1 + nr) =~= lengths@.subrange(j + 1, j + 1 + nr));
        assert(l.skip(1 + nr) =~= lengths@.skip(j + 1 + nr));
        let (rings, next) = decode_lines(lengths, j + 1, j + 1 + nr, coords, i, dim, true)?;
        proof {
            let rest = polygons_positions(
                (count - n - 1) as nat,
                lengths@.skip(j + 1 + nr),
                coords@.skip(next as int),
                dim as nat,
            );
            assert(polygons_view(out@.push(rings)) =~= polygons_view(out@).push(lines_view(rings@)));
            if rest is Some {
                assert(polygons_view(out@) + (seq![lines_view(rings@)] + rest->0) =~= polygons_view(
                    out@,
                ).push(lines_view(rings@)) + rest->0);
            }
        }
        out.push(rings);
        n = n + 1;
        j = j + 1 + nr;
        i = next;
    }
    assert(polygons_view(out@) + Seq::<Seq<Seq<Seq<i64>>>>::empty() =~= polygons_view(out@));
    Ok(out)
}

// ---------------------------------------------------------------------------
// Laws
// ---------------------------------------------------------------------------

/// The positions of `pts`, each cut to its first `dim` components.
pub open spec fn positions_of(pts: Seq<Json>, dim: nat) -> Seq<Seq<i64>> {
    Seq::new(pts.len(), |i: int| position(pts[i], dim)->0)
}

/// Whether a ring has at least two positions and ends where it starts.
pub open spec fn ring_closed(pts: Seq<Json>, dim: nat) -> bool {
    pts.len() >= 2 && position(pts.last(), dim) == position(pts[0], dim)
}

proof fn lemma_line_code_len(pts: Seq<Json>, dim: nat, prev: Seq<i64>)
    requires
        line_code_from(pts, dim, prev) is Some,
    ensures
        line_code_from(pts, dim, prev)->0.len() == pts.len() * dim,
    decreases pts.len(),
{
    if pts.len() > 0 {
        let p = position(pts[0], dim)->0;
        lemma_line_code_len(pts.skip(1), dim, p);
        assert(pts.len() * dim == dim + (pts.len() - 1) * dim) by (nonlinear_arith);
    }
}

proof fn lemma_line_round_trip_from(pts: Seq<Json>, dim: nat, prev: Seq<i64>)
    requires
        dim > 0,
        prev.len() == dim,
        line_code_from(pts, dim, prev) is Some,
    ensures
        line_positions_from(line_code_from(pts, dim, prev)->0, dim, prev) == Some(
            positions_of(pts, dim),
        ),
    decreases pts.len(),
{
    let c = line_code_from(pts, dim, prev)->0;
    if pts.len() == 0 {
        assert(positions_of(pts, dim) =~= Seq::<Seq<i64>>::empty());
    } else {
        let p = position(pts[0], dim)->0;
        let d = delta(prev, p)->0;
        let rest = line_code_from(pts.skip(1), dim, p)->0;
        assert(c == d + rest);
        assert(c.take(dim as int) =~= d);
        assert(c.skip(dim as int) =~= rest);
        assert(advance(prev, d) == Some(p)) by {
            assert(forall|k: int| 0 <= k < d.len() ==> fits_i64(prev[k] + d[k]));
            assert(Seq::new(d.len(), |k: int| (prev[k] + d[k]) as i64) =~= p);
        }
        lemma_line_round_trip_from(pts.skip(1), dim, p);
        assert(seq![p] + positions_of(pts.skip(1), dim) =~= positions_of(pts, dim));
    }
}

/// Decoding what a line (or a closed ring) encodes to gives back its
/// positions, each cut to `dim` components; a ring gets its closing position
/// back.
pub proof fn line_round_trip(pts: Seq<Json>, dim: nat, closed: bool)
    requires
        dim > 0,
        line_code(pts, dim, closed) is Some,
        closed ==> ring_closed(pts, dim),
    ensures
        line_positions(line_code(pts, dim, closed)->0, dim, closed) == Some(positions_of(pts, dim)),
{
    let z = zeros(dim);
    if closed {
        let open = pts.drop_last();
        let c = line_code_from(open, dim, z)->0;
        lemma_line_round_trip_from(open, dim, z);
        lemma_line_code_len(open, dim, z);
        assert(open.len() * dim >= dim) by (nonlinear_arith)
            requires
                open.len() >= 1,
        ;
        let p0 = position(open[0], dim)->0;
        let d0 = delta(z, p0)->0;
        assert(c == d0 + line_code_from(open.skip(1), dim, p0)->0);
        assert(d0 =~= p0);
        assert(c.take(dim as int) =~= p0);
        assert(positions_of(open, dim).push(p0) =~= positions_of(pts, dim));
    } else {
        lemma_line_round_trip_from(pts, dim, z);
    }
}

/// The positions of each line of `lines`.
pub open spec fn lines_of(lines: Seq<Json>, dim: nat) -> Seq<Seq<Seq<i64>>> {
    Seq::new(lines.len(), |i: int| positions_of(lines[i]->Array_0@, dim))
}

/// Whether each line of `lines` is a closed ring, when `closed`.
pub open spec fn rings_closed(lines: Seq<Json>, dim: nat, closed: bool) -> bool {
    closed ==> forall|i: int| 0 <= i < lines.len() ==> ring_closed(#[trigger] lines[i]->Array_0@, dim)
}

proof fn lemma_lines_round_trip(lines: Seq<Json>, dim: nat, closed: bool, extra: Seq<i64>)
    requires
        dim > 0,
        lines_code(lines, dim, closed) is Some,
        rings_closed(lines, dim, closed),
    ensures
        lines_code(lines, dim, closed).unwrap().0.len() == lines.len(),
        lines_positions(
            lines_code(lines, dim, closed).unwrap().0,
            lines_code(lines, dim, closed).unwrap().1 + extra,
            dim,
            closed,
        ) == Some((lines_of(lines, dim), extra)),
    decreases lines.len(),
{
    let code = lines_code(lines, dim, closed)->0;
    if lines.len() == 0 {
        assert(code.1 + extra =~= extra);
        assert(lines_of(lines, dim) =~= Seq::<Seq<Seq<i64>>>::empty());
    } else {
        let pts = lines[0]->Array_0@;
        let n = stored_count(pts.len() as int, closed);
        let c = line_code(pts, dim, closed)->0;
        let tail = lines.skip(1);
        let r = lines_code(tail, dim, closed)->0;
        assert(code.0 == seq![n as u32] + r.0);
        assert(code.1 == c + r.1);
        assert(rings_closed(tail, dim, closed)) by {
            if closed {
                assert forall|i: int| 0 <= i < tail.len() implies ring_closed(
                    #[trigger] tail[i]->Array_0@,
                    dim,
                ) by {
                    assert(tail[i] == lines[i + 1]);
                }
            }
        }
        assert(closed ==> ring_closed(lines[0]->Array_0@, dim));
        lemma_lines_round_trip(tail, dim, closed, extra);
        line_round_trip(pts, dim, closed);
        if closed {
            lemma_line_code_len(pts.drop_last(), dim, zeros(dim));
        } else {
            lemma_line_code_len(pts, dim, zeros(dim));
        }
        assert(c.len() == n * dim);
        let all = code.1 + extra;
        assert(code.0[0] == n as u32);
        assert(code.0.skip(1) =~= r.0);
        assert(all.take(n * dim) =~= c);
        assert(all.skip(n * dim) =~= r.1 + extra);
        assert(seq![positions_of(pts, dim)] + lines_of(tail, dim) =~= lines_of(lines, dim));
    }
}

/// Decoding what several lines (or the rings of a polygon, when `closed`)
/// encode to gives back the positions of each.
pub proof fn multi_line_round_trip(lines: Seq<Json>, dim: nat, closed: bool)
    requires
        dim > 0,
        lines.len() >= 1,
        multi_line_code(lines, dim, closed) is Some,
        rings_closed(lines, dim, closed),
    ensures
        multi_line_positions(
            multi_line_code(lines, dim, closed).unwrap().0,
            multi_line_code(lines, dim, closed).unwrap().1,
            dim,
            closed,
        ) == Some(lines_of(lines, dim)),
{
    if lines.len() == 1 {
        line_round_trip(lines[0]->Array_0@, dim, closed);
        assert(seq![positions_of(lines[0]->Array_0@, dim)] =~= lines_of(lines, dim));
    } else {
        let code = lines_code(lines, dim, closed)->0;
        lemma_lines_round_trip(lines, dim, closed, Seq::empty());
        assert(code.1 + Seq::<i64>::empty() =~= code.1);
    }
}

/// The rings of each polygon of `polys`.
pub open spec fn polygons_of(polys: Seq<Json>, dim: nat) -> Seq<Seq<Seq<Seq<i64>>>> {
    Seq::new(polys.len(), |i: int| lines_of(polys[i]->Array_0@, dim))
}

/// Whether every ring of every polygon of `polys` is closed.
pub open spec fn polygons_closed(polys: Seq<Json>, dim: nat) -> bool {
    forall|i: int| 0 <= i < polys.len() ==> rings_closed(#[trigger] polys[i]->Array_0@, dim, true)
}

proof fn lemma_polygons_round_trip(polys: Seq<Json>, dim: nat, xl: Seq<u32>, xc: Seq<i64>)
    requires
        dim > 0,
        polygons_code(polys, dim) is Some,
        polygons_closed(polys, dim),
    ensures
        polygons_positions(
            polys.len(),
            polygons_code(polys, dim).unwrap().0 + xl,
            polygons_code(polys, dim).unwrap().1 + xc,
            dim,
        ) == Some(polygons_of(polys, dim)),
    decreases polys.len(),
{
    if polys.len() == 0 {
        assert(polygons_of(polys, dim) =~= Seq::<Seq<Seq<Seq<i64>>>>::empty());
    } else {
        let code = polygons_code(polys, dim)->0;
        let rings = polys[0]->Array_0@;
        let nr = rings.len() as int;
        let r = lines_code(rings, dim, true)->0;
        let tail = polys.skip(1);
        let t = polygons_code(tail, dim)->0;
        assert(code.0 == seq![nr as u32] + r.0 + t.0);
        assert(code.1 == r.1 + t.1);
        assert(polygons_closed(tail, dim)) by {
            assert forall|i: int| 0 <= i < tail.len() implies rings_closed(
                #[trigger] tail[i]->Array_0@,
                dim,
                true,
            ) by {
                assert(tail[i] == polys[i + 1]);
            }
        }
        assert(rings_closed(polys[0]->Array_0@, dim, true));
        lemma_lines_round_trip(rings, dim, true, t.1 + xc);
        lemma_polygons_round_trip(tail, dim, xl, xc);
        let ls = code.0 + xl;
        assert(ls[0] == nr as u32);
        assert(ls.subrange(1, 1 + nr) =~= r.0);
        assert(ls.skip(1 + nr) =~= t.0 + xl);
        assert(code.1 + xc =~= r.1 + (t.1 + xc));
        assert(seq![lines_of(rings, dim)] + polygons_of(tail, dim) =~= polygons_of(polys, dim));
    }
}

/// Decoding what a multi-polygon encodes to gives back the positions of every
/// ring of every polygon, whether it took the single-ring form or the
/// general one.
pub proof fn multi_polygon_round_trip(polys: Seq<Json>, dim: nat)
    requires
        dim > 0,
        multi_polygon_code(polys, dim) is Some,
        polygons_closed(polys, dim),
    ensures
        multi_polygon_positions(
            multi_polygon_code(polys, dim).unwrap().0,
            multi_polygon_code(polys, dim).unwrap().1,
            dim,
        ) == Some(polygons_of(polys, dim)),
{
    if is_single_ring(polys) {
        let rings = polys[0]->Array_0@;
        assert(rings_closed(rings, dim, true));
        line_round_trip(rings[0]->Array_0@, dim, true);
        assert(seq![positions_of(rings[0]->Array_0@, dim)] =~= lines_of(rings, dim));
        assert(seq![lines_of(rings, dim)] =~= polygons_of(polys, dim));
    } else {
        let code = polygons_code(polys, dim)->0;
        lemma_polygons_round_trip(polys, dim, Seq::empty(), Seq::empty());
        let ls = seq![polys.len() as u32] + code.0;
        assert(ls.skip(1) =~= code.0 + Seq::<u32>::empty());
        assert(code.1 + Seq::<i64>::empty() =~= code.1);
    }
}

/// A polygon stores each ring without its closing position: a single ring
/// takes `(n - 1) * dim` coordinates and no lengths; otherwise each length is
/// its ring's position count less one.
pub proof fn polygon_stored_counts(rings: Seq<Json>, dim: nat)
    requires
        multi_line_code(rings, dim, true) is Some,
    ensures
        rings.len() == 1 ==> multi_line_code(rings, dim, true).unwrap().0.len() == 0 && multi_line_code(
            rings,
            dim,
            true,
        ).unwrap().1.len() == (rings[0]->Array_0@.len() - 1) * dim,
        rings.len() != 1 ==> multi_line_code(rings, dim, true).unwrap().0.len() == rings.len() && forall|
            i: int,
        |
            0 <= i < rings.len() ==> multi_line_code(rings, dim, true).unwrap().0[i]
                == #[trigger] rings[i]->Array_0@.len() - 1,
{
    if rings.len() == 1 {
        let pts = rings[0]->Array_0@;
        lemma_line_code_len(pts.drop_last(), dim, zeros(dim));
    } else {
        lemma_lines_code_counts(rings, dim);
    }
}

proof fn lemma_lines_code_counts(lines: Seq<Json>, dim: nat)
    requires
        lines_code(lines, dim, true) is Some,
    ensures
        lines_code(lines, dim, true).unwrap().0.len() == lines.len(),
        forall|i: int|
            0 <= i < lines.len() ==> lines_code(lines, dim, true).unwrap().0[i] == #[trigger] lines[i]->Array_0@.len()
                - 1,
    decreases lines.len(),
{
    if lines.len() > 0 {
        let tail = lines.skip(1);
        lemma_lines_code_counts(tail, dim);
        let code = lines_code(lines, dim, true).unwrap();
        let r = lines_code(tail, dim, true).unwrap();
        let n = lines[0]->Array_0@.len() - 1;
        assert(code.0 == seq![n as u32] + r.0);
        assert forall|i: int| 0 <= i < lines.len() implies code.0[i] == #[trigger] lines[i]->Array_0@.len()
            - 1 by {
            if i > 0 {
                assert(code.0[i] == r.0[i - 1]);
                assert(tail[i - 1] == lines[i]);
            }
        }
    }
}

} // verus!
