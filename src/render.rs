use crate::entity::{placed, Entity};
use crate::fixed::{within, Vec2, LIMIT, TURN};
use vstd::prelude::*;

verus! {

/// A line segment in world coordinates.
#[derive(Clone, Copy, Debug, PartialEq, Eq)]
pub struct Segment {
    pub from: Vec2,
    pub to: Vec2,
}

/// The edges of the outline `verts` turned by `rot` and moved to `pos`: one
/// per pair of cyclically consecutive vertices.
pub open spec fn outline_edges(verts: Seq<Vec2>, pos: Vec2, rot: int) -> Seq<Segment> {
    Seq::new(
        verts.len(),
        |i: int|
            Segment {
                from: placed(verts[i], pos, rot),
                to: placed(verts[(i + 1) % verts.len() as int], pos, rot),
            },
    )
}

/// Offsets along one axis: none, plus `extent` when the segment reaches past
/// the low edge, plus `-extent` when it reaches past the high edge.
pub open spec fn axis_offsets(lo_out: bool, hi_out: bool, extent: i64) -> Seq<i64> {
    seq![0i64] + (if lo_out {
        seq![extent]
    } else {
        Seq::empty()
    }) + (if hi_out {
        seq![-extent as i64]
    } else {
        Seq::empty()
    })
}

/// The screen offsets at which a segment from `p` to `q` is drawn when its
/// entity wraps: in place, plus one screen width to the right if it reaches
/// past the left edge and to the left if past the right edge, and likewise
/// vertically; every horizontal offset with every vertical one.
pub open spec fn wrap_offsets(p: Vec2, q: Vec2, bounds: Vec2) -> Seq<Vec2> {
    let xs = axis_offsets(p.x < 0 || q.x < 0, p.x > bounds.x || q.x > bounds.x, bounds.x);
    let ys = axis_offsets(p.y < 0 || q.y < 0, p.y > bounds.y || q.y > bounds.y, bounds.y);
    Seq::new(
        ys.len() * xs.len(),
        |k: int| Vec2 { x: xs[k % xs.len() as int], y: ys[k / xs.len() as int] },
    )
}

fn offsets_along(lo_out: bool, hi_out: bool, extent: i64) -> (r: Vec<i64>)
    requires
        0 < extent <= LIMIT,
    ensures
        r@ == axis_offsets(lo_out, hi_out, extent),
        1 <= r@.len() <= 3,
{
    let mut r: Vec<i64> = vec![0];
    if lo_out {
        r.push(extent);
    }
    if hi_out {
        r.push(-extent);
    }
    proof {
        assert(r@ =~= axis_offsets(lo_out, hi_out, extent));
    }
    r
}

/// The offsets at which to draw the segment from `p` to `q` of a wrapping
/// entity, so that a part past one screen edge shows at the opposite one.
pub fn wrap_copies(p: Vec2, q: Vec2, bounds: Vec2) -> (r: Vec<Vec2>)
    requires
        crate::body::bounds_ok(bounds),
    ensures
        r@ == wrap_offsets(p, q, bounds),
{
    let xs = offsets_along(p.x < 0 || q.x < 0, p.x > bounds.x || q.x > bounds.x, bounds.x);
    let ys = offsets_along(p.y < 0 || q.y < 0, p.y > bounds.y || q.y > bounds.y, bounds.y);
    let ghost want = wrap_offsets(p, q, bounds);
    let mut out: Vec<Vec2> = Vec::new();
    let mut j: usize = 0;
    while j < ys.len()
        invariant
            xs@.len() >= 1,
            xs@.len() <= 3,
            ys@.len() <= 3,
            j <= ys@.len(),
            want == wrap_offsets(p, q, bounds),
            want.len() == ys@.len() * xs@.len(),
            forall|k: int| 0 <= k < want.len() ==> #[trigger] want[k] == (Vec2 {
                x: xs@[k % xs@.len() as int],
                y: ys@[k / xs@.len() as int],
            }),
            out@.len() == j * xs@.len(),
            forall|k: int| 0 <= k < out@.len() ==> #[trigger] out@[k] == want[k],
        decreases ys@.len() - j,
    {
        let mut i: usize = 0;
        while i < xs.len()
            invariant
                xs@.len() >= 1,
                xs@.len() <= 3,
                ys@.len() <= 3,
                j < ys@.len(),
                i <= xs@.len(),
                want.len() == ys@.len() * xs@.len(),
                forall|k: int| 0 <= k < want.len() ==> #[trigger] want[k] == (Vec2 {
                    x: xs@[k % xs@.len() as int],
                    y: ys@[k / xs@.len() as int],
                }),
                out@.len() == j * xs@.len() + i,
                forall|k: int| 0 <= k < out@.len() ==> #[trigger] out@[k] == want[k],
            decreases xs@.len() - i,
        {
            let ghost k = j * xs@.len() + i;
            proof {
                let n = xs@.len() as int;
                assert(k < want.len()) by (nonlinear_arith)
                    requires
                        k == j * n + i,
                        i < n,
                        j < ys@.len(),
                        want.len() == ys@.len() * n,
                ;
                vstd::arithmetic::div_mod::lemma_fundamental_div_mod_converse(k, n, j as int, i as int);
            }
            out.push(Vec2 { x: xs[i], y: ys[j] });
            i += 1;
        }
        assert(out@.len() == (j + 1) * xs@.len()) by (nonlinear_arith)
            requires
                out@.len() == j * xs@.len() + xs@.len(),
        ;
        j += 1;
    }
    proof {
        assert(out@ =~= want);
    }
    out
}

impl Entity {
    /// The edges of this entity's outline at its current pose, or none when
    /// it has no outline.
    pub fn outline_segments(&self) -> (r: Vec<Segment>)
        requires
            self.wf(),
        ensures
            r@ == match self.sprite_verts {
                Some(p) => outline_edges(p.verts@, self.body.position, self.body.rotation as int),
                None => Seq::empty(),
            },
    {
        let mut out: Vec<Segment> = Vec::new();
        match &self.sprite_verts {
            None => {},
            Some(p) => {
                let verts = &p.verts;
                let n = verts.len();
                let pos = self.body.position;
                let rot = self.body.rotation;
                let mut i: usize = 0;
                while i < n
                    invariant
                        n == verts@.len(),
                        i <= n,
                        crate::entity::verts_ok(verts@),
                        within(pos, LIMIT as int),
                        rot < TURN,
                        out@.len() == i,
                        forall|k: int|
                            0 <= k < i ==> #[trigger] out@[k] == outline_edges(
                                verts@,
                                pos,
                                rot as int,
                            )[k],
                    decreases n - i,
                {
                    let j: usize = if i + 1 == n {
                        0
                    } else {
                        i + 1
                    };
                    assert(j as int == (i + 1) % n as int) by {
                        if i + 1 == n {
                            vstd::arithmetic::div_mod::lemma_mod_self_0(n as int);
                        } else {
                            vstd::arithmetic::div_mod::lemma_small_mod((i + 1) as nat, n as nat);
                        }
                    }
                    let q = crate::fixed::turn(verts[i], rot);
                    let w = crate::fixed::turn(verts[j], rot);
                    out.push(
                        Segment {
                            from: Vec2 { x: pos.x + q.x, y: pos.y + q.y },
                            to: Vec2 { x: pos.x + w.x, y: pos.y + w.y },
                        },
                    );
                    i += 1;
                }
                proof {
                    assert(out@ =~= outline_edges(verts@, pos, rot as int));
                }
            },
        }
        out
    }
}

} // verus!
