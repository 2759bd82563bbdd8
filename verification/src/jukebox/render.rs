//! The pixels of the jukebox picture's lines and dots: which points a
//! straight line between two points passes (Bresenham's walk), and which
//! points a filled circle covers. Blending colours into them is left to the
//! caller.

use vstd::prelude::*;

verus! {

/// The step towards `b` from `a`: `1` up, else `-1`.
pub open spec fn step_towards(a: int, b: int) -> int {
    if a < b {
        1
    } else {
        -1
    }
}

/// `|v|`.
pub open spec fn abs(v: int) -> int {
    if v < 0 {
        -v
    } else {
        v
    }
}

/// Bresenham's walk from `(x, y)` to `(x1, y1)`: each point is visited in
/// turn, the error term `err` deciding whether the next point moves in `x`,
/// in `y` or in both; the walk stops at the end point or when `fuel` runs
/// out.
pub open spec fn line_walk(
    x: int,
    y: int,
    x1: int,
    y1: int,
    dx: int,
    dy: int,
    sx: int,
    sy: int,
    err: int,
    fuel: nat,
) -> Seq<(int, int)>
    decreases fuel,
{
    if fuel == 0 {
        Seq::empty()
    } else if x == x1 && y == y1 {
        seq![(x, y)]
    } else {
        let e2 = 2 * err;
        let err1 = if e2 >= dy {
            err + dy
        } else {
            err
        };
        let xn = if e2 >= dy {
            x + sx
        } else {
            x
        };
        let err2 = if e2 <= dx {
            err1 + dx
        } else {
            err1
        };
        let yn = if e2 <= dx {
            y + sy
        } else {
            y
        };
        seq![(x, y)] + line_walk(xn, yn, x1, y1, dx, dy, sx, sy, err2, (fuel - 1) as nat)
    }
}

/// The points of the line from `a` to `b`.
pub open spec fn line_spec(a: (int, int), b: (int, int)) -> Seq<(int, int)> {
    let dx = abs(b.0 - a.0);
    let dy = -abs(b.1 - a.1);
    line_walk(
        a.0,
        a.1,
        b.0,
        b.1,
        dx,
        dy,
        step_towards(a.0, b.0),
        step_towards(a.1, b.1),
        dx + dy,
        (dx - dy + 1) as nat,
    )
}

/// The bound on coordinates under which the walk's arithmetic fits an `i64`.
pub open spec fn coord_ok(v: i64) -> bool {
    -0x1000_0000 <= v <= 0x1000_0000
}

/// The points of a point pair, as integers.
pub open spec fn points_view(v: Seq<(i64, i64)>) -> Seq<(int, int)> {
    v.map_values(|p: (i64, i64)| (p.0 as int, p.1 as int))
}

/// The points Bresenham's line from `a` to `b` passes, from `a` on.
pub fn line_points(a: (i64, i64), b: (i64, i64)) -> (r: Vec<(i64, i64)>)
    requires
        coord_ok(a.0),
        coord_ok(a.1),
        coord_ok(b.0),
        coord_ok(b.1),
    ensures
        points_view(r@) == line_spec((a.0 as int, a.1 as int), (b.0 as int, b.1 as int)),
{
    let (mut x0, mut y0) = a;
    let (x1, y1) = b;
    let dx: i64 = if x1 >= x0 {
        x1 - x0
    } else {
        x0 - x1
    };
    let sx: i64 = if x0 < x1 {
        1
    } else {
        -1
    };
    let dy: i64 = if y1 >= y0 {
        y0 - y1
    } else {
        y1 - y0
    };
    let sy: i64 = if y0 < y1 {
        1
    } else {
        -1
    };
    let mut err: i64 = dx + dy;
    let mut fuel: i64 = dx - dy + 1;
    let ghost full = line_spec((a.0 as int, a.1 as int), (b.0 as int, b.1 as int));
    let mut out: Vec<(i64, i64)> = Vec::new();
    let ghost mut steps: int = 0;
    while fuel > 0
        invariant
            full == line_spec((a.0 as int, a.1 as int), (b.0 as int, b.1 as int)),
            0 <= dx <= 0x2000_0000,
            -0x2000_0000 <= dy <= 0,
            sx == 1 || sx == -1,
            sy == 1 || sy == -1,
            0 <= fuel <= dx - dy + 1,
            steps == (dx - dy + 1) - fuel,
            -0x1000_0000 - steps <= x0 <= 0x1000_0000 + steps,
            -0x1000_0000 - steps <= y0 <= 0x1000_0000 + steps,
            abs(err as int) <= (0x2000_0000 + 0x2000_0000) * (steps + 1),
            coord_ok(x1),
            coord_ok(y1),
            full == points_view(out@) + line_walk(
                x0 as int,
                y0 as int,
                x1 as int,
                y1 as int,
                dx as int,
                dy as int,
                sx as int,
                sy as int,
                err as int,
                fuel as nat,
            ),
        decreases fuel,
    {
        let ghost before = points_view(out@);
        out.push((x0, y0));
        proof {
            assert(points_view(out@) =~= before.push((x0 as int, y0 as int)));
            assert(steps + 1 <= 0x4000_0001);
            assert((0x2000_0000 + 0x2000_0000) * (steps + 1) <= 0x4000_0000 * 0x4000_0001) by (nonlinear_arith)
                requires
                    steps + 1 <= 0x4000_0001,
                    steps >= 0,
            ;
        }
        if x0 == x1 && y0 == y1 {
            proof {
                assert(full =~= points_view(out@));
            }
            return out;
        }
        let e2 = 2 * err;
        if e2 >= dy {
            err = err + dy;
            x0 = x0 + sx;
        }
        if e2 <= dx {
            err = err + dx;
            y0 = y0 + sy;
        }
        fuel = fuel - 1;
        proof {
            steps = steps + 1;
            assert((0x2000_0000 + 0x2000_0000) * steps + 0x2000_0000 + 0x2000_0000 == (0x2000_0000 + 0x2000_0000) * (
            steps + 1)) by (nonlinear_arith);
        }
    }
    proof {
        assert(full =~= points_view(out@));
    }
    out
}

/// Where a walk is: `i` steps along `x` and `j` along `y` from its start,
/// with the error term that this leaves.
pub open spec fn walk_state(x: int, y: int, x1: int, y1: int, dx: int, dy: int, sx: int, sy: int, err: int, i: int, j: int) -> bool {
    &&& dx >= 0 && dy <= 0
    &&& 0 <= i <= dx && 0 <= j <= -dy
    &&& (sx == 1 || sx == -1) && (sy == 1 || sy == -1)
    &&& x == x1 - sx * (dx - i)
    &&& y == y1 - sy * (-dy - j)
    &&& err == dx + dy + i * dy + j * dx
}

/// From any point of the walk with enough fuel, the walk ends at the end
/// point.
proof fn lemma_walk_reaches_end(
    x: int,
    y: int,
    x1: int,
    y1: int,
    dx: int,
    dy: int,
    sx: int,
    sy: int,
    err: int,
    fuel: nat,
    i: int,
    j: int,
)
    requires
        walk_state(x, y, x1, y1, dx, dy, sx, sy, err, i, j),
        fuel >= (dx - i) + (-dy - j) + 1,
    ensures
        line_walk(x, y, x1, y1, dx, dy, sx, sy, err, fuel).len() >= 1,
        line_walk(x, y, x1, y1, dx, dy, sx, sy, err, fuel)[0] == (x, y),
        line_walk(x, y, x1, y1, dx, dy, sx, sy, err, fuel).last() == (x1, y1),
    decreases fuel,
{
    if x == x1 && y == y1 {
        return;
    }
    let e2 = 2 * err;
    // Not at the end: one of the coordinates has steps left.
    assert(i < dx || j < -dy) by (nonlinear_arith)
        requires
            x == x1 - sx * (dx - i),
            y == y1 - sy * (-dy - j),
            !(x == x1 && y == y1),
            i <= dx,
            j <= -dy,
    ;
    // At least one coordinate moves.
    assert(e2 >= dy || e2 <= dx);
    // A coordinate at its end does not move on.
    if i == dx {
        assert(err <= dy) by (nonlinear_arith)
            requires
                err == dx + dy + i * dy + j * dx,
                i == dx,
                j <= -dy - 1,
                dx >= 0,
        ;
    }
    if j == -dy {
        assert(err >= dx) by (nonlinear_arith)
            requires
                err == dx + dy + i * dy + j * dx,
                j == -dy,
                i <= dx - 1,
                dy <= 0,
        ;
    }
    let err1 = if e2 >= dy {
        err + dy
    } else {
        err
    };
    let xn = if e2 >= dy {
        x + sx
    } else {
        x
    };
    let i1 = if e2 >= dy {
        i + 1
    } else {
        i
    };
    let err2 = if e2 <= dx {
        err1 + dx
    } else {
        err1
    };
    let yn = if e2 <= dx {
        y + sy
    } else {
        y
    };
    let j1 = if e2 <= dx {
        j + 1
    } else {
        j
    };
    assert(err2 == dx + dy + i1 * dy + j1 * dx) by (nonlinear_arith)
        requires
            err == dx + dy + i * dy + j * dx,
            err1 == (if e2 >= dy {
                err + dy
            } else {
                err
            }),
            i1 == (if e2 >= dy {
                i + 1
            } else {
                i
            }),
            err2 == (if e2 <= dx {
                err1 + dx
            } else {
                err1
            }),
            j1 == (if e2 <= dx {
                j + 1
            } else {
                j
            }),
    ;
    assert(xn == x1 - sx * (dx - i1)) by (nonlinear_arith)
        requires
            x == x1 - sx * (dx - i),
            xn == (if e2 >= dy {
                x + sx
            } else {
                x
            }),
            i1 == (if e2 >= dy {
                i + 1
            } else {
                i
            }),
    ;
    assert(yn == y1 - sy * (-dy - j1)) by (nonlinear_arith)
        requires
            y == y1 - sy * (-dy - j),
            yn == (if e2 <= dx {
                y + sy
            } else {
                y
            }),
            j1 == (if e2 <= dx {
                j + 1
            } else {
                j
            }),
    ;
    lemma_walk_reaches_end(xn, yn, x1, y1, dx, dy, sx, sy, err2, (fuel - 1) as nat, i1, j1);
}

/// A line starts at its first point and ends at its second.
pub proof fn lemma_line_hits_endpoints(a: (int, int), b: (int, int))
    ensures
        line_spec(a, b).len() >= 1,
        line_spec(a, b)[0] == a,
        line_spec(a, b).last() == b,
{
    let dx = abs(b.0 - a.0);
    let dy = -abs(b.1 - a.1);
    let sx = step_towards(a.0, b.0);
    let sy = step_towards(a.1, b.1);
    if a.0 < b.0 {
        assert(sx * dx == dx);
    } else {
        assert(sx * dx == -dx);
    }
    if a.1 < b.1 {
        assert(sy * (-dy) == -dy);
    } else {
        assert(sy * (-dy) == dy);
    }
    lemma_walk_reaches_end(a.0, a.1, b.0, b.1, dx, dy, sx, sy, dx + dy, (dx - dy + 1) as nat, 0, 0);
}


/// The points of the first `n` columns of row `dy` of the disc of radius `r`
/// around `(cx, cy)`: the columns from `-r` on, those within the disc.
pub open spec fn disc_row(cx: int, cy: int, r: int, dy: int, n: int) -> Seq<(int, int)>
    decreases n,
{
    if n <= 0 {
        Seq::empty()
    } else {
        let dx = -r + n - 1;
        disc_row(cx, cy, r, dy, n - 1) + (if dx * dx + dy * dy <= r * r {
            seq![(cx + dx, cy + dy)]
        } else {
            Seq::empty()
        })
    }
}

/// The points of the first `m` rows of the disc, from row `-r` on.
pub open spec fn disc_rows(cx: int, cy: int, r: int, m: int) -> Seq<(int, int)>
    decreases m,
{
    if m <= 0 {
        Seq::empty()
    } else {
        disc_rows(cx, cy, r, m - 1) + disc_row(cx, cy, r, -r + m - 1, 2 * r + 1)
    }
}

/// The points a filled circle of radius `r` around `(cx, cy)` covers, row by
/// row: those within the radius; just the centre for a radius of zero or
/// less.
pub open spec fn disc_spec(cx: int, cy: int, r: int) -> Seq<(int, int)> {
    if r <= 0 {
        seq![(cx, cy)]
    } else {
        disc_rows(cx, cy, r, 2 * r + 1)
    }
}

/// The points a filled circle covers (see `disc_spec`).
pub fn disc_points(cx: i64, cy: i64, r: i64) -> (out: Vec<(i64, i64)>)
    requires
        coord_ok(cx),
        coord_ok(cy),
        r <= 0x1000_0000,
    ensures
        points_view(out@) == disc_spec(cx as int, cy as int, r as int),
{
    let mut out: Vec<(i64, i64)> = Vec::new();
    if r <= 0 {
        out.push((cx, cy));
        assert(points_view(out@) =~= seq![(cx as int, cy as int)]);
        return out;
    }
    assert(0 <= r * r <= 0x1000_0000 * 0x1000_0000) by (nonlinear_arith)
        requires
            0 < r <= 0x1000_0000,
    ;
    let r2 = r * r;
    let mut dy: i64 = -r;
    while dy <= r
        invariant
            0 < r <= 0x1000_0000,
            coord_ok(cx),
            coord_ok(cy),
            r2 == r * r,
            -r <= dy <= r + 1,
            points_view(out@) == disc_rows(cx as int, cy as int, r as int, dy + r),
        decreases r + 1 - dy,
    {
        let ghost before = points_view(out@);
        let mut dx: i64 = -r;
        while dx <= r
            invariant
                0 < r <= 0x1000_0000,
                coord_ok(cx),
                coord_ok(cy),
                r2 == r * r,
                -r <= dy <= r,
                -r <= dx <= r + 1,
                points_view(out@) == before + disc_row(cx as int, cy as int, r as int, dy as int, dx + r),
            decreases r + 1 - dx,
        {
            proof {
                assert(0 <= dx * dx <= 0x1000_0000 * 0x1000_0000) by (nonlinear_arith)
                    requires
                        -0x1000_0000 <= dx <= 0x1000_0000,
                ;
                assert(0 <= dy * dy <= 0x1000_0000 * 0x1000_0000) by (nonlinear_arith)
                    requires
                        -0x1000_0000 <= dy <= 0x1000_0000,
                ;
            }
            let ghost pre = points_view(out@);
            if dx * dx + dy * dy <= r2 {
                out.push((cx + dx, cy + dy));
            }
            proof {
                assert(points_view(out@) =~= pre + (if dx * dx + dy * dy <= r * r {
                    seq![((cx + dx) as int, (cy + dy) as int)]
                } else {
                    Seq::empty()
                }));
            }
            dx = dx + 1;
        }
        dy = dy + 1;
    }
    out
}

} // verus!
