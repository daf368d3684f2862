//! Connected-component extraction of star candidates: the pixels at or above
//! a growth level, grouped into 8-connected regions that each hold a pixel at
//! or above the seed level.
use vstd::prelude::*;
use crate::raster::{GrayPlane, GrayView, lemma_pixel_index, lemma_pixel_index_injective};

verus! {

/// A star candidate: its pixels (column, row, value) in breadth-first order
/// from the seed, and the brightest value among them.
pub struct StarBlob {
    pub pixels: Vec<(u32, u32, u8)>,
    pub peak: u8,
}

/// The position of a blob pixel.
pub open spec fn pkey(p: (u32, u32, u8)) -> (int, int) {
    (p.0 as int, p.1 as int)
}

/// Offset of position (`x`, `y`) in a row-major raster `w` columns wide.
pub open spec fn cell(w: int, x: int, y: int) -> int {
    y * w + x
}

/// The search region: two pixels away from the left, right and top edges and
/// from the effective bottom row `eh`.
pub open spec fn in_box(v: GrayView, eh: int, x: int, y: int) -> bool {
    &&& 2 <= x < v.width - 2
    &&& 2 <= y < eh - 2
}

/// The pixel lies in the search region and reaches `level`.
pub open spec fn lit(v: GrayView, eh: int, level: int, x: int, y: int) -> bool {
    in_box(v, eh, x, y) && v.px(x, y) >= level
}

/// The two positions are distinct 8-neighbours.
pub open spec fn adjacent(a: (int, int), b: (int, int)) -> bool {
    &&& a != b
    &&& -1 <= a.0 - b.0 <= 1
    &&& -1 <= a.1 - b.1 <= 1
}

/// Position `a` comes before position `b` in row-major scan order.
pub open spec fn raster_before(a: (int, int), b: (int, int)) -> bool {
    a.1 < b.1 || (a.1 == b.1 && a.0 < b.0)
}

/// Number of `true` entries.
pub open spec fn count_true(s: Seq<bool>) -> nat
    decreases s.len(),
{
    if s.len() == 0 {
        0
    } else {
        count_true(s.drop_last()) + (if s.last() { 1nat } else { 0nat })
    }
}

proof fn lemma_count_true_bound(s: Seq<bool>)
    ensures
        count_true(s) <= s.len(),
    decreases s.len(),
{
    if s.len() > 0 {
        lemma_count_true_bound(s.drop_last());
    }
}

proof fn lemma_count_true_set(s: Seq<bool>, i: int)
    requires
        0 <= i < s.len(),
        !s[i],
    ensures
        count_true(s.update(i, true)) == count_true(s) + 1,
    decreases s.len(),
{
    let t = s.update(i, true);
    if i == s.len() - 1 {
        assert(t.drop_last() =~= s.drop_last());
    } else {
        assert(t.drop_last() =~= s.drop_last().update(i, true));
        lemma_count_true_set(s.drop_last(), i);
    }
}

/// The facts that a partial labelling keeps: `pos` sends every labelled
/// position to its (blob, index) place, each blob is closed under growth, and
/// the `visited` marks are exactly the labelled positions.
pub open spec fn marks_match(visited: Seq<bool>, pos: Map<(int, int), (int, int)>, w: int, eh: int) -> bool {
    &&& visited.len() == w * eh
    &&& forall|x: int, y: int|
        #![trigger visited[cell(w, x, y)]]
        #![trigger pos.contains_key((x, y))]
        0 <= x < w && 0 <= y < eh ==> visited[cell(w, x, y)] == pos.contains_key((x, y))
}

/// The bookkeeping of a breadth-first growth in progress: the positions
/// labelled before it (`pos0`, blob numbers below `nb`, each blob closed) are
/// kept, the new positions are exactly the pixels of `comp` (blob `nb`), each
/// pixel of `comp` after the first has an earlier neighbour (`par`), and the
/// `visited` marks are exactly the labelled positions.
#[verifier::opaque]
pub open spec fn bfs_state(
    v: GrayView,
    eh: int,
    gl: int,
    visited: Seq<bool>,
    pos0: Map<(int, int), (int, int)>,
    pos: Map<(int, int), (int, int)>,
    comp: Seq<(u32, u32, u8)>,
    par: Seq<int>,
    nb: int,
) -> bool {
    &&& marks_match(visited, pos, v.width as int, eh)
    &&& forall|c: (int, int)| #[trigger] pos0.contains_key(c) ==> pos0[c].0 < nb
    &&& forall|c: (int, int), d: (int, int)|
        #![trigger pos0.contains_key(c), pos0.contains_key(d)]
        pos0.contains_key(c) && adjacent(c, d) && lit(v, eh, gl, d.0, d.1)
            ==> pos0.contains_key(d) && pos0[d].0 == pos0[c].0
    &&& forall|c: (int, int)| #[trigger] pos0.contains_key(c)
        ==> pos.contains_key(c) && pos[c] == pos0[c]
    &&& forall|c: (int, int)| #[trigger] pos.contains_key(c) && !pos0.contains_key(c)
        ==> pos[c].0 == nb && 0 <= pos[c].1 < comp.len() && pkey(comp[pos[c].1]) == c
    &&& forall|k: int| 0 <= k < comp.len()
        ==> #[trigger] pos.contains_key(pkey(comp[k])) && pos[pkey(comp[k])] == (nb, k)
    &&& forall|k: int| 0 <= k < comp.len()
        ==> lit(v, eh, gl, #[trigger] comp[k].0 as int, comp[k].1 as int)
        && comp[k].2 == v.px(comp[k].0 as int, comp[k].1 as int)
    &&& par.len() == comp.len()
    &&& forall|k: int| 0 < k < comp.len()
        ==> 0 <= #[trigger] par[k] < k && adjacent(pkey(comp[par[k]]), pkey(comp[k]))
}

/// Every growing neighbour of a pixel of `comp` is labelled as part of blob `nb`.
pub open spec fn blob_closed(
    v: GrayView,
    eh: int,
    gl: int,
    comp: Seq<(u32, u32, u8)>,
    pos: Map<(int, int), (int, int)>,
    nb: int,
) -> bool {
    forall|k: int, d: (int, int)|
        #![trigger pkey(comp[k]), pos.contains_key(d)]
        0 <= k < comp.len() && adjacent(pkey(comp[k]), d) && lit(v, eh, gl, d.0, d.1)
        ==> pos.contains_key(d) && pos[d].0 == nb
}

/// `new` keeps every entry of `old` unchanged.
pub open spec fn extends(old: Map<(int, int), (int, int)>, new: Map<(int, int), (int, int)>) -> bool {
    forall|c: (int, int)| #[trigger] old.contains_key(c) ==> new.contains_key(c) && new[c] == old[c]
}

/// Where `b` lies among the eight neighbours of `a`, counted row by row from
/// the top left: 0, 1, 2 above, 3 and 5 beside, 6, 7, 8 below.
pub open spec fn neighbour_rank(a: (int, int), b: (int, int)) -> int {
    (b.1 - a.1 + 1) * 3 + (b.0 - a.0 + 1)
}

/// `s[j]` is the first pixel of `s` that neighbours `s[k]`.
pub open spec fn first_neighbour(s: Seq<(u32, u32, u8)>, j: int, k: int) -> bool {
    &&& 0 <= j < s.len()
    &&& adjacent(pkey(s[j]), pkey(s[k]))
    &&& forall|i: int| 0 <= i < j ==> !adjacent(pkey(s[i]), pkey(s[k]))
}

/// `s` lists its pixels in breadth-first order from `s[0]`: each later pixel
/// is reached from its first neighbour in the list, the pixels reached from
/// an earlier pixel come before those reached from a later one, and the
/// pixels reached from one pixel come in the row-by-row order of its
/// neighbours.
pub open spec fn breadth_first(s: Seq<(u32, u32, u8)>) -> bool {
    forall|k: int, l: int, j: int, m: int|
        #![trigger first_neighbour(s, j, k), first_neighbour(s, m, l)]
        0 < k < l < s.len() && first_neighbour(s, j, k) && first_neighbour(s, m, l)
        ==> j < m || (j == m && neighbour_rank(pkey(s[j]), pkey(s[k])) < neighbour_rank(pkey(s[m]), pkey(s[l])))
}

/// The parents `par` were taken from a first-in first-out queue: by parent,
/// and by neighbour rank among the children of one parent.
pub open spec fn queue_order(s: Seq<(u32, u32, u8)>, par: Seq<int>) -> bool {
    forall|k: int, l: int|
        #![trigger par[k], par[l]]
        0 < k < l < s.len() ==> par[k] < par[l] || (par[k] == par[l]
            && neighbour_rank(pkey(s[par[k]]), pkey(s[k])) < neighbour_rank(pkey(s[par[l]]), pkey(s[l])))
}

/// No pixel before its parent neighbours a pixel.
pub open spec fn first_parents(s: Seq<(u32, u32, u8)>, par: Seq<int>) -> bool {
    forall|k: int, i: int|
        #![trigger par[k], s[i]]
        0 < k < s.len() && 0 <= i < par[k] ==> !adjacent(pkey(s[i]), pkey(s[k]))
}

/// Parents that are earlier neighbours, taken in queue order and each the
/// first neighbour, make the list breadth-first.
proof fn lemma_breadth_first(s: Seq<(u32, u32, u8)>, par: Seq<int>)
    requires
        par.len() == s.len(),
        forall|k: int| 0 < k < s.len() ==> 0 <= #[trigger] par[k] < k && adjacent(pkey(s[par[k]]), pkey(s[k])),
        queue_order(s, par),
        first_parents(s, par),
    ensures
        breadth_first(s),
{
    assert forall|k: int, l: int, j: int, m: int|
        #![trigger first_neighbour(s, j, k), first_neighbour(s, m, l)]
        0 < k < l < s.len() && first_neighbour(s, j, k) && first_neighbour(s, m, l)
        implies j < m || (j == m && neighbour_rank(pkey(s[j]), pkey(s[k])) < neighbour_rank(pkey(s[m]), pkey(s[l]))) by {
        let pk = par[k];
        let pl = par[l];
        if j < pk {
            assert(!adjacent(pkey(s[j]), pkey(s[k])));
        }
        if pk < j {
            assert(!adjacent(pkey(s[pk]), pkey(s[k])));
        }
        if m < pl {
            assert(!adjacent(pkey(s[m]), pkey(s[l])));
        }
        if pl < m {
            assert(!adjacent(pkey(s[pl]), pkey(s[l])));
        }
        assert(j == pk && m == pl);
    }
}

/// Looks at the candidate neighbour (`nx`, `ny`) of `comp[head]`: when it lies
/// in the search region, is not yet labelled and reaches the growth level it
/// joins the blob.
fn visit_neighbor(
    img: &GrayPlane,
    eh: u32,
    grow_level: u16,
    visited: &mut Vec<bool>,
    comp: &mut Vec<(u32, u32, u8)>,
    head: usize,
    nx: u32,
    ny: u32,
    Ghost(pos0): Ghost<Map<(int, int), (int, int)>>,
    Ghost(pos): Ghost<Map<(int, int), (int, int)>>,
    Ghost(par): Ghost<Seq<int>>,
    Ghost(nb): Ghost<int>,
) -> (res: (Ghost<Map<(int, int), (int, int)>>, Ghost<Seq<int>>))
    requires
        img@.wf(),
        2 <= eh <= img@.height,
        2 <= img@.width,
        bfs_state(img@, eh as int, grow_level as int, old(visited)@, pos0, pos, old(comp)@, par, nb),
        head < old(comp)@.len(),
        adjacent(pkey(old(comp)@[head as int]), (nx as int, ny as int)),
    ensures
        bfs_state(img@, eh as int, grow_level as int, final(visited)@, pos0, res.0@, final(comp)@, res.1@, nb),
        extends(pos, res.0@),
        final(comp)@.len() >= old(comp)@.len(),
        forall|k: int| 0 <= k < old(comp)@.len() ==> #[trigger] final(comp)@[k] == old(comp)@[k],
        count_true(final(visited)@) == count_true(old(visited)@) + final(comp)@.len() - old(comp)@.len(),
        lit(img@, eh as int, grow_level as int, nx as int, ny as int)
            ==> res.0@.contains_key((nx as int, ny as int)) && res.0@[(nx as int, ny as int)].0 == nb,
        final(comp)@.len() == old(comp)@.len() ==> res.1@ == par,
        final(comp)@.len() != old(comp)@.len() ==> final(comp)@.len() == old(comp)@.len() + 1
            && res.1@ == par.push(head as int)
            && pkey(final(comp)@[old(comp)@.len() as int]) == (nx as int, ny as int)
            && !pos.contains_key((nx as int, ny as int)),
{
    let ghost v = img@;
    let ghost wi = v.width as int;
    let ghost ehi = eh as int;
    let ghost gl = grow_level as int;
    let ghost d = (nx as int, ny as int);
    let w = img.width();
    reveal(bfs_state);
    if nx >= 2 && nx < w - 2 && ny >= 2 && ny < eh - 2 {
        proof {
            lemma_pixel_index(wi, ehi, nx as int, ny as int);
        }
        let vlen: usize = visited.len();
        let nidx: usize = (ny as usize) * (w as usize) + (nx as usize);
        assert(nidx as int == cell(wi, nx as int, ny as int) && nidx < vlen);
        if !visited[nidx] {
            let nval = img.pixel(nx, ny);
            if nval as u16 >= grow_level {
                proof {
                    lemma_count_true_set(visited@, nidx as int);
                }
                let ghost comp_prev = comp@;
                let ghost vis_prev = visited@;
                visited.set(nidx, true);
                comp.push((nx, ny, nval));
                let ghost k_new = comp@.len() - 1;
                let ghost pos1 = pos.insert(d, (nb, k_new));
                let ghost par1 = par.push(head as int);
                proof {
                    assert(!pos.contains_key(d));
                    assert forall|x: int, y: int| 0 <= x < wi && 0 <= y < ehi
                        implies visited@[cell(wi, x, y)] == pos1.contains_key((x, y)) by {
                        if x != nx || y != ny {
                            lemma_pixel_index(wi, ehi, x, y);
                            if cell(wi, x, y) == nidx {
                                lemma_pixel_index_injective(wi, x, y, nx as int, ny as int);
                            }
                            assert(vis_prev[cell(wi, x, y)] == pos.contains_key((x, y)));
                        }
                    }
                    assert forall|c: (int, int)| #[trigger] pos0.contains_key(c)
                        implies pos1.contains_key(c) && pos1[c] == pos0[c] by {
                        assert(pos.contains_key(c));
                    }
                    assert forall|k: int| 0 <= k < comp@.len()
                        implies #[trigger] pos1.contains_key(pkey(comp@[k])) && pos1[pkey(comp@[k])] == (nb, k) by {
                        if k < k_new {
                            assert(comp@[k] == comp_prev[k]);
                            assert(pos.contains_key(pkey(comp_prev[k])));
                        }
                    }
                    assert forall|c: (int, int)| #[trigger] pos1.contains_key(c) && !pos0.contains_key(c)
                        implies pos1[c].0 == nb && 0 <= pos1[c].1 < comp@.len() && pkey(comp@[pos1[c].1]) == c by {
                        if c != d {
                            assert(pos.contains_key(c));
                        }
                    }
                    assert forall|k: int| 0 <= k < comp@.len()
                        implies lit(v, ehi, gl, #[trigger] comp@[k].0 as int, comp@[k].1 as int)
                        && comp@[k].2 == v.px(comp@[k].0 as int, comp@[k].1 as int) by {
                        if k < k_new {
                            assert(comp@[k] == comp_prev[k]);
                        }
                    }
                    assert forall|k: int| 0 < k < comp@.len()
                        implies 0 <= #[trigger] par1[k] < k && adjacent(pkey(comp@[par1[k]]), pkey(comp@[k])) by {
                        if k < k_new {
                            assert(comp@[k] == comp_prev[k]);
                            assert(comp@[par[k]] == comp_prev[par[k]]);
                        } else {
                            assert(comp@[head as int] == comp_prev[head as int]);
                        }
                    }
                    assert(extends(pos, pos1));
                    assert(marks_match(visited@, pos1, wi, ehi));
                    assert(bfs_state(v, ehi, gl, visited@, pos0, pos1, comp@, par1, nb));
                }
                return (Ghost(pos1), Ghost(par1));
            }
        } else {
            proof {
                assert(pos.contains_key(d));
                let cur = pkey(comp@[head as int]);
                if pos0.contains_key(d) {
                    assert(adjacent(d, cur));
                    assert(pos.contains_key(cur));
                    assert(pos0.contains_key(cur));
                    assert(false);
                }
            }
        }
    }
    proof {
        assert(bfs_state(v, ehi, gl, visited@, pos0, pos, comp@, par, nb));
    }
    (Ghost(pos), Ghost(par))
}

/// Offers the eight neighbours of `comp[head]`, row by row, to the blob.
fn expand_pixel(
    img: &GrayPlane,
    eh: u32,
    grow_level: u16,
    visited: &mut Vec<bool>,
    comp: &mut Vec<(u32, u32, u8)>,
    head: usize,
    Ghost(pos0): Ghost<Map<(int, int), (int, int)>>,
    Ghost(pos): Ghost<Map<(int, int), (int, int)>>,
    Ghost(par): Ghost<Seq<int>>,
    Ghost(nb): Ghost<int>,
) -> (res: (Ghost<Map<(int, int), (int, int)>>, Ghost<Seq<int>>))
    requires
        img@.wf(),
        2 <= eh <= img@.height,
        2 <= img@.width,
        bfs_state(img@, eh as int, grow_level as int, old(visited)@, pos0, pos, old(comp)@, par, nb),
        head < old(comp)@.len(),
    ensures
        bfs_state(img@, eh as int, grow_level as int, final(visited)@, pos0, res.0@, final(comp)@, res.1@, nb),
        extends(pos, res.0@),
        final(comp)@.len() >= old(comp)@.len(),
        forall|k: int| 0 <= k < old(comp)@.len() ==> #[trigger] final(comp)@[k] == old(comp)@[k],
        count_true(final(visited)@) == count_true(old(visited)@) + final(comp)@.len() - old(comp)@.len(),
        forall|d: (int, int)|
            adjacent(pkey(old(comp)@[head as int]), d) && lit(img@, eh as int, grow_level as int, d.0, d.1)
            ==> #[trigger] res.0@.contains_key(d) && res.0@[d].0 == nb,
        res.1@.len() == final(comp)@.len(),
        forall|k: int| 0 <= k < old(comp)@.len() ==> #[trigger] res.1@[k] == par[k],
        forall|k: int| old(comp)@.len() <= k < final(comp)@.len() ==> #[trigger] res.1@[k] == head,
        forall|k: int| old(comp)@.len() <= k < final(comp)@.len() ==> !pos.contains_key(#[trigger] pkey(final(comp)@[k])),
        forall|k: int, l: int| old(comp)@.len() <= k < l < final(comp)@.len()
            ==> #[trigger] neighbour_rank(pkey(old(comp)@[head as int]), pkey(final(comp)@[k]))
                < #[trigger] neighbour_rank(pkey(old(comp)@[head as int]), pkey(final(comp)@[l])),
{
    let ghost v = img@;
    let ghost ehi = eh as int;
    let ghost gl = grow_level as int;
    let ghost comp0 = comp@;
    let ghost count0 = count_true(visited@);
    let cur = comp[head];
    let cx = cur.0;
    let cy = cur.1;
    proof {
        reveal(bfs_state);
        assert(lit(v, ehi, gl, comp@[head as int].0 as int, comp@[head as int].1 as int));
    }
    let ghost mut p = pos;
    let ghost mut q = par;
    let mut ddy: u32 = 0;
    while ddy < 3
        invariant
            v == img@,
            v.wf(),
            ehi == eh,
            gl == grow_level,
            2 <= eh <= v.height,
            2 <= v.width,
            2 <= cx < v.width - 2,
            2 <= cy < eh - 2,
            cur == comp0[head as int],
            cx == cur.0,
            cy == cur.1,
            head < comp0.len(),
            bfs_state(v, ehi, gl, visited@, pos0, p, comp@, q, nb),
            extends(pos, p),
            comp@.len() >= comp0.len(),
            forall|k: int| 0 <= k < comp0.len() ==> #[trigger] comp@[k] == comp0[k],
            count_true(visited@) == count0 + comp@.len() - comp0.len(),
            0 <= ddy <= 3,
            q.len() == comp@.len(),
            forall|k: int| 0 <= k < comp0.len() ==> #[trigger] q[k] == par[k],
            forall|k: int| comp0.len() <= k < comp@.len() ==> #[trigger] q[k] == head,
            forall|k: int| comp0.len() <= k < comp@.len() ==> !pos.contains_key(#[trigger] pkey(comp@[k])),
            forall|k: int| comp0.len() <= k < comp@.len()
                ==> #[trigger] neighbour_rank(pkey(cur), pkey(comp@[k])) < 3 * ddy,
            forall|k: int, l: int| comp0.len() <= k < l < comp@.len()
                ==> #[trigger] neighbour_rank(pkey(cur), pkey(comp@[k])) < #[trigger] neighbour_rank(pkey(cur), pkey(comp@[l])),
            forall|a: int, b: int|
                #![trigger p.contains_key((cx + a - 1, cy + b - 1))]
                0 <= a < 3 && 0 <= b < ddy && !(a == 1 && b == 1)
                && lit(v, ehi, gl, cx + a - 1, cy + b - 1)
                ==> p.contains_key((cx + a - 1, cy + b - 1)) && p[(cx + a - 1, cy + b - 1)].0 == nb,
        decreases 3 - ddy,
    {
        let mut ddx: u32 = 0;
        while ddx < 3
            invariant
                v == img@,
                v.wf(),
                ehi == eh,
                gl == grow_level,
                2 <= eh <= v.height,
                2 <= v.width,
                2 <= cx < v.width - 2,
                2 <= cy < eh - 2,
                cur == comp0[head as int],
                cx == cur.0,
                cy == cur.1,
                head < comp0.len(),
                bfs_state(v, ehi, gl, visited@, pos0, p, comp@, q, nb),
                extends(pos, p),
                comp@.len() >= comp0.len(),
                forall|k: int| 0 <= k < comp0.len() ==> #[trigger] comp@[k] == comp0[k],
                count_true(visited@) == count0 + comp@.len() - comp0.len(),
                0 <= ddy < 3,
                0 <= ddx <= 3,
                q.len() == comp@.len(),
                forall|k: int| 0 <= k < comp0.len() ==> #[trigger] q[k] == par[k],
                forall|k: int| comp0.len() <= k < comp@.len() ==> #[trigger] q[k] == head,
                forall|k: int| comp0.len() <= k < comp@.len() ==> !pos.contains_key(#[trigger] pkey(comp@[k])),
                forall|k: int| comp0.len() <= k < comp@.len()
                    ==> #[trigger] neighbour_rank(pkey(cur), pkey(comp@[k])) < 3 * ddy + ddx,
                forall|k: int, l: int| comp0.len() <= k < l < comp@.len()
                    ==> #[trigger] neighbour_rank(pkey(cur), pkey(comp@[k])) < #[trigger] neighbour_rank(pkey(cur), pkey(comp@[l])),
                forall|a: int, b: int|
                    #![trigger p.contains_key((cx + a - 1, cy + b - 1))]
                    0 <= a < 3 && 0 <= b < 3 && (b < ddy || (b == ddy && a < ddx)) && !(a == 1 && b == 1)
                    && lit(v, ehi, gl, cx + a - 1, cy + b - 1)
                    ==> p.contains_key((cx + a - 1, cy + b - 1)) && p[(cx + a - 1, cy + b - 1)].0 == nb,
            decreases 3 - ddx,
        {
            if !(ddx == 1 && ddy == 1) {
                let nx: u32 = cx + ddx - 1;
                let ny: u32 = cy + ddy - 1;
                let ghost p_prev = p;
                let ghost comp_prev = comp@;
                let ghost count_prev = count_true(visited@);
                let ghost q_prev = q;
                assert(comp@[head as int] == cur);
                let (Ghost(p2), Ghost(q2)) = visit_neighbor(
                    img, eh, grow_level, visited, comp, head, nx, ny,
                    Ghost(pos0), Ghost(p), Ghost(q), Ghost(nb));
                proof {
                    p = p2;
                    q = q2;
                    if comp@.len() != comp_prev.len() {
                        let n = comp_prev.len() as int;
                        assert(q[n] == head);
                        assert(pkey(comp@[n]) == (nx as int, ny as int));
                        assert(neighbour_rank(pkey(cur), pkey(comp@[n])) == 3 * ddy + ddx);
                        assert(!pos.contains_key(pkey(comp@[n])));
                        assert forall|k: int| 0 <= k < comp0.len() implies #[trigger] q[k] == par[k] by {
                            assert(q[k] == q_prev[k]);
                        }
                        assert forall|k: int| comp0.len() <= k < comp@.len()
                            implies #[trigger] q[k] == head && !pos.contains_key(pkey(comp@[k])) by {
                            if k < n {
                                assert(q[k] == q_prev[k]);
                                assert(comp@[k] == comp_prev[k]);
                            }
                        }
                        assert forall|k: int| comp0.len() <= k < comp@.len()
                            implies #[trigger] neighbour_rank(pkey(cur), pkey(comp@[k])) < 3 * ddy + ddx + 1 by {
                            if k < n {
                                assert(comp@[k] == comp_prev[k]);
                            }
                        }
                        assert forall|k: int, l: int| comp0.len() <= k < l < comp@.len()
                            implies #[trigger] neighbour_rank(pkey(cur), pkey(comp@[k])) < #[trigger] neighbour_rank(pkey(cur), pkey(comp@[l])) by {
                            assert(comp@[k] == comp_prev[k]);
                            if l < n {
                                assert(comp@[l] == comp_prev[l]);
                            }
                        }
                    }
                    assert forall|k: int| 0 <= k < comp0.len() implies #[trigger] comp@[k] == comp0[k] by {
                        assert(comp@[k] == comp_prev[k]);
                    }
                    assert forall|c: (int, int)| #[trigger] pos.contains_key(c)
                        implies p.contains_key(c) && p[c] == pos[c] by {
                        assert(p_prev.contains_key(c));
                    }
                    assert forall|a: int, b: int|
                        #![trigger p.contains_key((cx + a - 1, cy + b - 1))]
                        0 <= a < 3 && 0 <= b < 3 && (b < ddy || (b == ddy && a < ddx + 1)) && !(a == 1 && b == 1)
                        && lit(v, ehi, gl, cx + a - 1, cy + b - 1)
                        implies p.contains_key((cx + a - 1, cy + b - 1)) && p[(cx + a - 1, cy + b - 1)].0 == nb by {
                        if b < ddy || (b == ddy && a < ddx) {
                            assert(p_prev.contains_key((cx + a - 1, cy + b - 1)));
                        }
                    }
                }
            }
            ddx = ddx + 1;
        }
        ddy = ddy + 1;
    }
    proof {
        assert forall|d: (int, int)|
            adjacent(pkey(comp0[head as int]), d) && lit(v, ehi, gl, d.0, d.1)
            implies #[trigger] p.contains_key(d) && p[d].0 == nb by {
            let a = d.0 - cx + 1;
            let b = d.1 - cy + 1;
            assert(d == (cx + a - 1, cy + b - 1));
            assert(p.contains_key((cx + a - 1, cy + b - 1)));
        }
    }
    (Ghost(p), Ghost(q))
}

/// Breadth-first growth of a new blob `nb` from the seed (`sx`, `sy`): on
/// return the blob is closed, every growing neighbour of one of its pixels is
/// in it.
fn grow_blob(
    img: &GrayPlane,
    eh: u32,
    grow_level: u16,
    visited: &mut Vec<bool>,
    sx: u32,
    sy: u32,
    Ghost(pos0): Ghost<Map<(int, int), (int, int)>>,
    Ghost(nb): Ghost<int>,
) -> (res: (Vec<(u32, u32, u8)>, Ghost<Map<(int, int), (int, int)>>, Ghost<Seq<int>>))
    requires
        img@.wf(),
        2 <= eh <= img@.height,
        2 <= img@.width,
        marks_match(old(visited)@, pos0, img@.width as int, eh as int),
        forall|c: (int, int)| #[trigger] pos0.contains_key(c) ==> pos0[c].0 < nb,
        forall|c: (int, int), d: (int, int)|
            #![trigger pos0.contains_key(c), pos0.contains_key(d)]
            pos0.contains_key(c) && adjacent(c, d) && lit(img@, eh as int, grow_level as int, d.0, d.1)
                ==> pos0.contains_key(d) && pos0[d].0 == pos0[c].0,
        lit(img@, eh as int, grow_level as int, sx as int, sy as int),
        !pos0.contains_key((sx as int, sy as int)),
    ensures
        bfs_state(img@, eh as int, grow_level as int, final(visited)@, pos0, res.1@, res.0@, res.2@, nb),
        res.0@.len() >= 1,
        res.0@[0] == (sx, sy, img@.px(sx as int, sy as int)),
        blob_closed(img@, eh as int, grow_level as int, res.0@, res.1@, nb),
        queue_order(res.0@, res.2@),
        first_parents(res.0@, res.2@),
{
    let w = img.width();
    let ghost v = img@;
    let ghost wi = w as int;
    let ghost ehi = eh as int;
    let ghost gl = grow_level as int;
    let ghost total = (wi * ehi) as nat;
    proof {
        lemma_pixel_index(wi, ehi, sx as int, sy as int);
    }
    let v0 = img.pixel(sx, sy);
    let vlen: usize = visited.len();
    let sidx: usize = (sy as usize) * (w as usize) + (sx as usize);
    assert(sidx < vlen);
    proof {
        assert(!old(visited)@[cell(wi, sx as int, sy as int)]);
        lemma_count_true_set(old(visited)@, sidx as int);
    }
    visited.set(sidx, true);
    let mut comp: Vec<(u32, u32, u8)> = Vec::new();
    comp.push((sx, sy, v0));
    let ghost mut pos = pos0.insert((sx as int, sy as int), (nb, 0int));
    let ghost mut par: Seq<int> = seq![0int];
    proof {
        assert forall|x: int, y: int| 0 <= x < wi && 0 <= y < ehi
            implies visited@[cell(wi, x, y)] == pos.contains_key((x, y)) by {
            if x != sx || y != sy {
                lemma_pixel_index(wi, ehi, x, y);
                if cell(wi, x, y) == sidx {
                    lemma_pixel_index_injective(wi, x, y, sx as int, sy as int);
                }
            }
        }
        assert forall|c: (int, int)| #[trigger] pos0.contains_key(c)
            implies pos.contains_key(c) && pos[c] == pos0[c] by {
            assert(c != (sx as int, sy as int));
        }
        reveal(bfs_state);
        assert(bfs_state(v, ehi, gl, visited@, pos0, pos, comp@, par, nb));
        lemma_count_true_bound(visited@);
    }
    let mut head: usize = 0;
    while head < comp.len()
        invariant
            v == img@,
            v.wf(),
            wi == w,
            wi == v.width,
            ehi == eh,
            gl == grow_level,
            2 <= eh <= v.height,
            2 <= w,
            total == wi * ehi,
            visited@.len() == total,
            bfs_state(v, ehi, gl, visited@, pos0, pos, comp@, par, nb),
            comp@.len() >= 1,
            comp@[0] == (sx, sy, v.px(sx as int, sy as int)),
            0 <= head <= comp@.len(),
            forall|k: int, d: (int, int)|
                #![trigger pkey(comp@[k]), pos.contains_key(d)]
                0 <= k < head && adjacent(pkey(comp@[k]), d) && lit(v, ehi, gl, d.0, d.1)
                ==> pos.contains_key(d) && pos[d].0 == nb,
            count_true(visited@) <= total,
            queue_order(comp@, par),
            first_parents(comp@, par),
            forall|k: int| 0 < k < comp@.len() ==> #[trigger] par[k] < head,
        decreases 2 * (total - count_true(visited@)) + comp@.len() - head,
    {
        let ghost pos_prev = pos;
        let ghost comp_prev = comp@;
        let ghost head_prev = head as int;
        let ghost par_prev = par;
        proof {
            reveal(bfs_state);
        }
        let (Ghost(p2), Ghost(q2)) = expand_pixel(
            img, eh, grow_level, visited, &mut comp, head, Ghost(pos0), Ghost(pos), Ghost(par), Ghost(nb));
        head = head + 1;
        proof {
            pos = p2;
            par = q2;
            reveal(bfs_state);
            let n0 = comp_prev.len() as int;
            assert forall|k: int| 0 < k < comp@.len() implies #[trigger] par[k] < head by {
                if k < n0 {
                    assert(par[k] == par_prev[k]);
                }
            }
            assert forall|k: int, l: int|
                #![trigger par[k], par[l]]
                0 < k < l < comp@.len() implies par[k] < par[l] || (par[k] == par[l]
                    && neighbour_rank(pkey(comp@[par[k]]), pkey(comp@[k])) < neighbour_rank(pkey(comp@[par[l]]), pkey(comp@[l]))) by {
                if l < n0 {
                    assert(par[k] == par_prev[k]);
                    assert(par[l] == par_prev[l]);
                    assert(comp@[k] == comp_prev[k]);
                    assert(comp@[l] == comp_prev[l]);
                    assert(comp@[par[k]] == comp_prev[par_prev[k]]);
                    assert(comp@[par[l]] == comp_prev[par_prev[l]]);
                } else if k < n0 {
                    assert(par[k] == par_prev[k]);
                    assert(par[l] == head_prev);
                } else {
                    assert(par[k] == head_prev);
                    assert(par[l] == head_prev);
                    assert(comp@[head_prev] == comp_prev[head_prev]);
                    assert(neighbour_rank(pkey(comp_prev[head_prev]), pkey(comp@[k]))
                        < neighbour_rank(pkey(comp_prev[head_prev]), pkey(comp@[l])));
                }
            }
            assert forall|k: int, i: int|
                #![trigger par[k], comp@[i]]
                0 < k < comp@.len() && 0 <= i < par[k] implies !adjacent(pkey(comp@[i]), pkey(comp@[k])) by {
                if k < n0 {
                    assert(par[k] == par_prev[k]);
                    assert(comp@[k] == comp_prev[k]);
                    assert(comp@[i] == comp_prev[i]);
                } else {
                    assert(par[k] == head_prev);
                    assert(comp@[i] == comp_prev[i]);
                    let d = pkey(comp@[k]);
                    assert(!pos_prev.contains_key(d));
                    if adjacent(pkey(comp@[i]), d) {
                        assert(lit(v, ehi, gl, comp@[k].0 as int, comp@[k].1 as int));
                        assert(pkey(comp_prev[i]) == pkey(comp@[i]));
                        assert(pos_prev.contains_key(d));
                    }
                }
            }
            lemma_count_true_bound(visited@);
            assert(comp@[0] == comp_prev[0]);
            assert forall|k: int, d: (int, int)|
                #![trigger pkey(comp@[k]), pos.contains_key(d)]
                0 <= k < head && adjacent(pkey(comp@[k]), d) && lit(v, ehi, gl, d.0, d.1)
                implies pos.contains_key(d) && pos[d].0 == nb by {
                assert(comp@[k] == comp_prev[k]);
                assert(head == head_prev + 1);
                if k < head_prev {
                    assert(pkey(comp_prev[k]) == pkey(comp@[k]));
                    assert(pos_prev.contains_key(d));
                    assert(pos_prev[d].0 == nb);
                    assert(extends(pos_prev, pos));
                    assert(pos.contains_key(d));
                } else {
                    assert(k == head_prev);
                    assert(adjacent(pkey(comp_prev[head_prev]), d));
                    assert(pos.contains_key(d));
                }
            }
        }
    }
    proof {
        assert(head == comp@.len());
        assert forall|k: int, d: (int, int)|
            #![trigger pkey(comp@[k]), pos.contains_key(d)]
            0 <= k < comp@.len() && adjacent(pkey(comp@[k]), d) && lit(v, ehi, gl, d.0, d.1)
            implies pos.contains_key(d) && pos[d].0 == nb by {
            assert(k < head);
        }
    }
    assert(blob_closed(v, ehi, gl, comp@, pos, nb));
    (comp, Ghost(pos), Ghost(par))
}

/// The brightest value among the pixels (0 for no pixels).
fn blob_peak(pixels: &Vec<(u32, u32, u8)>) -> (peak: u8)
    ensures
        forall|k: int| 0 <= k < pixels@.len() ==> #[trigger] pixels@[k].2 <= peak,
        pixels@.len() > 0 ==> exists|k: int| 0 <= k < pixels@.len() && #[trigger] pixels@[k].2 == peak,
{
    let mut peak: u8 = 0;
    let mut i: usize = 0;
    while i < pixels.len()
        invariant
            0 <= i <= pixels@.len(),
            i == 0 ==> peak == 0,
            forall|k: int| 0 <= k < i ==> #[trigger] pixels@[k].2 <= peak,
            i > 0 ==> exists|k: int| 0 <= k < i && #[trigger] pixels@[k].2 == peak,
        decreases pixels@.len() - i,
    {
        let ghost before = peak;
        if pixels[i].2 > peak {
            peak = pixels[i].2;
        }
        proof {
            if pixels@[i as int].2 != peak {
                assert(i > 0);
                assert(before == peak);
                let k = choose|k: int| 0 <= k < i && #[trigger] pixels@[k].2 == before;
                assert(0 <= k < i + 1 && pixels@[k].2 == peak);
            }
        }
        i = i + 1;
    }
    peak
}

/// The pixel lists of a sequence of blobs.
pub open spec fn blob_pixels(blobs: Seq<StarBlob>) -> Seq<Seq<(u32, u32, u8)>> {
    blobs.map_values(|b: StarBlob| b.pixels@)
}

/// `blobs` are the 8-connected regions of pixels at or above `grow` within
/// the search region that hold a pixel at or above `seed`, each listed once,
/// in the scan order of their first such pixel, which heads the list.
pub open spec fn blob_labelling(v: GrayView, eh: int, seed: int, grow: int, blobs: Seq<Seq<(u32, u32, u8)>>) -> bool {
    &&& forall|b: int, k: int|
        0 <= b < blobs.len() && 0 <= k < blobs[b].len()
        ==> lit(v, eh, grow, #[trigger] blobs[b][k].0 as int, blobs[b][k].1 as int)
        && blobs[b][k].2 == v.px(blobs[b][k].0 as int, blobs[b][k].1 as int)
    &&& forall|b1: int, k1: int, b2: int, k2: int|
        0 <= b1 < blobs.len() && 0 <= k1 < blobs[b1].len()
        && 0 <= b2 < blobs.len() && 0 <= k2 < blobs[b2].len()
        && #[trigger] pkey(blobs[b1][k1]) == #[trigger] pkey(blobs[b2][k2])
        ==> b1 == b2 && k1 == k2
    &&& forall|b: int, k: int, d: (int, int)|
        #![trigger adjacent(pkey(blobs[b][k]), d)]
        0 <= b < blobs.len() && 0 <= k < blobs[b].len()
        && adjacent(pkey(blobs[b][k]), d) && lit(v, eh, grow, d.0, d.1)
        ==> exists|k2: int| 0 <= k2 < blobs[b].len() && #[trigger] pkey(blobs[b][k2]) == d
    &&& forall|b: int, k: int|
        #![trigger pkey(blobs[b][k])]
        0 <= b < blobs.len() && 0 < k < blobs[b].len()
        ==> exists|j: int| #![trigger pkey(blobs[b][j])] 0 <= j < k && adjacent(pkey(blobs[b][j]), pkey(blobs[b][k]))
    &&& forall|b: int| 0 <= b < blobs.len()
        ==> (#[trigger] blobs[b]).len() >= 1 && v.px(blobs[b][0].0 as int, blobs[b][0].1 as int) >= seed
    &&& forall|b: int, k: int|
        0 <= b < blobs.len() && 0 <= k < blobs[b].len()
        && v.px(#[trigger] blobs[b][k].0 as int, blobs[b][k].1 as int) >= seed
        ==> !raster_before(pkey(blobs[b][k]), pkey(blobs[b][0]))
    &&& forall|b1: int, b2: int|
        0 <= b1 < b2 < blobs.len()
        ==> raster_before(pkey(#[trigger] blobs[b1][0]), pkey(#[trigger] blobs[b2][0]))
    &&& forall|x: int, y: int|
        in_box(v, eh, x, y) && #[trigger] v.px(x, y) >= seed
        ==> exists|b: int, k: int|
            0 <= b < blobs.len() && 0 <= k < blobs[b].len() && #[trigger] pkey(blobs[b][k]) == (x, y)
}

/// No labelled pixel lies in the two rows above the effective bottom row or
/// below it: with the horizon as effective height, every star candidate lies
/// in the sky above the landscape.
pub proof fn lemma_labelling_above_bottom(
    v: GrayView,
    eh: int,
    seed: int,
    grow: int,
    blobs: Seq<Seq<(u32, u32, u8)>>,
)
    requires
        blob_labelling(v, eh, seed, grow, blobs),
    ensures
        forall|b: int, k: int| 0 <= b < blobs.len() && 0 <= k < blobs[b].len()
            ==> 2 <= #[trigger] blobs[b][k].1 < eh - 2,
{
    assert forall|b: int, k: int| 0 <= b < blobs.len() && 0 <= k < blobs[b].len()
        implies 2 <= #[trigger] blobs[b][k].1 < eh - 2 by {
        assert(lit(v, eh, grow, blobs[b][k].0 as int, blobs[b][k].1 as int));
    }
}

/// The bookkeeping of the labelling scan: `pos` places every labelled
/// position in the blobs `bl`, the blobs are closed, connected through the
/// parent indices `par`, seeded, and in scan order of their seeds.
#[verifier::opaque]
pub open spec fn labelled(
    v: GrayView,
    eh: int,
    seed: int,
    gl: int,
    visited: Seq<bool>,
    pos: Map<(int, int), (int, int)>,
    bl: Seq<Seq<(u32, u32, u8)>>,
    par: Seq<Seq<int>>,
) -> bool {
    &&& marks_match(visited, pos, v.width as int, eh)
    &&& forall|c: (int, int)| #[trigger] pos.contains_key(c)
        ==> 0 <= pos[c].0 < bl.len() && 0 <= pos[c].1 < bl[pos[c].0].len() && pkey(bl[pos[c].0][pos[c].1]) == c
    &&& forall|b: int, k: int| 0 <= b < bl.len() && 0 <= k < bl[b].len()
        ==> #[trigger] pos.contains_key(pkey(bl[b][k])) && pos[pkey(bl[b][k])] == (b, k)
    &&& forall|b: int, k: int| 0 <= b < bl.len() && 0 <= k < bl[b].len()
        ==> lit(v, eh, gl, #[trigger] bl[b][k].0 as int, bl[b][k].1 as int)
        && bl[b][k].2 == v.px(bl[b][k].0 as int, bl[b][k].1 as int)
    &&& forall|c: (int, int), d: (int, int)|
        #![trigger pos.contains_key(c), pos.contains_key(d)]
        pos.contains_key(c) && adjacent(c, d) && lit(v, eh, gl, d.0, d.1)
            ==> pos.contains_key(d) && pos[d].0 == pos[c].0
    &&& par.len() == bl.len()
    &&& forall|b: int| 0 <= b < bl.len() ==> (#[trigger] par[b]).len() == bl[b].len()
    &&& forall|b: int, k: int| 0 <= b < bl.len() && 0 < k < bl[b].len()
        ==> 0 <= #[trigger] par[b][k] < k && adjacent(pkey(bl[b][par[b][k]]), pkey(bl[b][k]))
    &&& forall|b: int| 0 <= b < bl.len()
        ==> (#[trigger] bl[b]).len() >= 1 && v.px(bl[b][0].0 as int, bl[b][0].1 as int) >= seed
    &&& forall|b: int, k: int| 0 <= b < bl.len() && 0 <= k < bl[b].len()
        && v.px(#[trigger] bl[b][k].0 as int, bl[b][k].1 as int) >= seed
        ==> !raster_before(pkey(bl[b][k]), pkey(bl[b][0]))
    &&& forall|b1: int, b2: int| 0 <= b1 < b2 < bl.len()
        ==> raster_before(pkey(#[trigger] bl[b1][0]), pkey(#[trigger] bl[b2][0]))
}

/// Each blob's `peak` is the brightest value among its pixels.
pub open spec fn peaks_match(blobs: Seq<StarBlob>) -> bool {
    forall|b: int| #![trigger blobs[b]] 0 <= b < blobs.len() ==> {
        &&& forall|k: int| 0 <= k < blobs[b].pixels@.len() ==> #[trigger] blobs[b].pixels@[k].2 <= blobs[b].peak
        &&& exists|k: int| 0 <= k < blobs[b].pixels@.len() && #[trigger] blobs[b].pixels@[k].2 == blobs[b].peak
    }
}

/// A finished scan, in which every seed pixel of the search region is
/// labelled, gives the labelling that `blob_labelling` describes.
proof fn lemma_labelling_complete(
    v: GrayView,
    eh: int,
    seed: int,
    gl: int,
    visited: Seq<bool>,
    pos: Map<(int, int), (int, int)>,
    bl: Seq<Seq<(u32, u32, u8)>>,
    par: Seq<Seq<int>>,
)
    requires
        labelled(v, eh, seed, gl, visited, pos, bl, par),
        forall|x: int, y: int| in_box(v, eh, x, y) && v.px(x, y) >= seed ==> #[trigger] pos.contains_key((x, y)),
    ensures
        blob_labelling(v, eh, seed, gl, bl),
{
    reveal(labelled);
    assert forall|b1: int, k1: int, b2: int, k2: int|
        0 <= b1 < bl.len() && 0 <= k1 < bl[b1].len()
        && 0 <= b2 < bl.len() && 0 <= k2 < bl[b2].len()
        && #[trigger] pkey(bl[b1][k1]) == #[trigger] pkey(bl[b2][k2])
        implies b1 == b2 && k1 == k2 by {
        assert(pos.contains_key(pkey(bl[b1][k1])));
        assert(pos.contains_key(pkey(bl[b2][k2])));
    }
    assert forall|b: int, k: int, d: (int, int)|
        #![trigger adjacent(pkey(bl[b][k]), d)]
        0 <= b < bl.len() && 0 <= k < bl[b].len()
        && adjacent(pkey(bl[b][k]), d) && lit(v, eh, gl, d.0, d.1)
        implies exists|k2: int| 0 <= k2 < bl[b].len() && #[trigger] pkey(bl[b][k2]) == d by {
        let c = pkey(bl[b][k]);
        assert(pos.contains_key(c));
        assert(pos.contains_key(d));
        let k2 = pos[d].1;
        assert(pkey(bl[b][k2]) == d);
    }
    assert forall|b: int, k: int|
        #![trigger pkey(bl[b][k])]
        0 <= b < bl.len() && 0 < k < bl[b].len()
        implies exists|j: int| #![trigger pkey(bl[b][j])] 0 <= j < k && adjacent(pkey(bl[b][j]), pkey(bl[b][k])) by {
        let j = par[b][k];
        assert(adjacent(pkey(bl[b][j]), pkey(bl[b][k])));
    }
    assert forall|x: int, y: int|
        in_box(v, eh, x, y) && #[trigger] v.px(x, y) >= seed
        implies exists|b: int, k: int|
            0 <= b < bl.len() && 0 <= k < bl[b].len() && #[trigger] pkey(bl[b][k]) == (x, y) by {
        assert(pos.contains_key((x, y)));
        let b = pos[(x, y)].0;
        let k = pos[(x, y)].1;
        assert(pkey(bl[b][k]) == (x, y));
    }
}

/// Adding the blob grown from the seed (`x`, `y`) at the scan position keeps
/// the labelling facts.
proof fn lemma_add_blob(
    v: GrayView,
    ehi: int,
    sl: int,
    gl: int,
    visited_old: Seq<bool>,
    visited: Seq<bool>,
    pos_prev: Map<(int, int), (int, int)>,
    pos1: Map<(int, int), (int, int)>,
    bl: Seq<Seq<(u32, u32, u8)>>,
    par: Seq<Seq<int>>,
    cv: Seq<(u32, u32, u8)>,
    par1: Seq<int>,
    x: int,
    y: int,
)
    requires
        labelled(v, ehi, sl, gl, visited_old, pos_prev, bl, par),
        bfs_state(v, ehi, gl, visited, pos_prev, pos1, cv, par1, bl.len() as int),
        blob_closed(v, ehi, gl, cv, pos1, bl.len() as int),
        cv.len() >= 1,
        cv[0] == (x as u32, y as u32, v.px(x, y)),
        0 <= x <= u32::MAX,
        0 <= y <= u32::MAX,
        v.px(x, y) >= sl,
        forall|b: int| 0 <= b < bl.len() ==> raster_before(pkey(#[trigger] bl[b][0]), (x, y)),
        forall|px: int, py: int|
            in_box(v, ehi, px, py) && v.px(px, py) >= sl && raster_before((px, py), (x, y))
            ==> #[trigger] pos_prev.contains_key((px, py)),
    ensures
        labelled(v, ehi, sl, gl, visited, pos1, bl.push(cv), par.push(par1)),
        pos1.contains_key((x, y)),
        forall|c: (int, int)| #[trigger] pos_prev.contains_key(c) ==> pos1.contains_key(c),
        forall|b: int| 0 <= b < bl.len() + 1 ==> raster_before(pkey(#[trigger] bl.push(cv)[b][0]), (x + 1, y)),
{
    reveal(labelled);
    reveal(bfs_state);
    let nb = bl.len() as int;
    let bl1 = bl.push(cv);
    let par2 = par.push(par1);
    assert forall|c: (int, int)| #[trigger] pos1.contains_key(c)
        implies 0 <= pos1[c].0 < bl1.len() && 0 <= pos1[c].1 < bl1[pos1[c].0].len()
            && pkey(bl1[pos1[c].0][pos1[c].1]) == c by {
        if pos_prev.contains_key(c) {
            assert(pos1[c] == pos_prev[c]);
        }
    }
    assert forall|b: int, k: int| 0 <= b < bl1.len() && 0 <= k < bl1[b].len()
        implies #[trigger] pos1.contains_key(pkey(bl1[b][k])) && pos1[pkey(bl1[b][k])] == (b, k) by {
        if b < nb {
            assert(bl1[b] == bl[b]);
            assert(pos_prev.contains_key(pkey(bl[b][k])));
        } else {
            assert(bl1[b] == cv);
            assert(b == nb);
            assert(0 <= k < cv.len());
            assert(pos1.contains_key(pkey(cv[k])));
            assert(pos1[pkey(cv[k])] == (nb, k));
        }
    }
    assert forall|b: int, k: int| 0 <= b < bl1.len() && 0 <= k < bl1[b].len()
        implies lit(v, ehi, gl, #[trigger] bl1[b][k].0 as int, bl1[b][k].1 as int)
        && bl1[b][k].2 == v.px(bl1[b][k].0 as int, bl1[b][k].1 as int) by {
        if b < nb {
            assert(bl1[b] == bl[b]);
        }
    }
    assert forall|c: (int, int), d: (int, int)|
        #![trigger pos1.contains_key(c), pos1.contains_key(d)]
        pos1.contains_key(c) && adjacent(c, d) && lit(v, ehi, gl, d.0, d.1)
        implies pos1.contains_key(d) && pos1[d].0 == pos1[c].0 by {
        if pos_prev.contains_key(c) {
            assert(pos_prev.contains_key(d));
        } else {
            let k = pos1[c].1;
            assert(pkey(cv[k]) == c);
            assert(blob_closed(v, ehi, gl, cv, pos1, nb));
            assert(pos1.contains_key(d));
        }
    }
    assert forall|b: int| 0 <= b < bl1.len() implies (#[trigger] par2[b]).len() == bl1[b].len() by {
        if b < nb {
            assert(par2[b] == par[b]);
            assert(bl1[b] == bl[b]);
        }
    }
    assert forall|b: int, k: int| 0 <= b < bl1.len() && 0 < k < bl1[b].len()
        implies 0 <= #[trigger] par2[b][k] < k && adjacent(pkey(bl1[b][par2[b][k]]), pkey(bl1[b][k])) by {
        if b < nb {
            assert(par2[b] == par[b]);
            assert(bl1[b] == bl[b]);
        }
    }
    assert forall|b: int| 0 <= b < bl1.len()
        implies (#[trigger] bl1[b]).len() >= 1 && v.px(bl1[b][0].0 as int, bl1[b][0].1 as int) >= sl by {
        if b < nb {
            assert(bl1[b] == bl[b]);
        }
    }
    assert forall|b: int, k: int| 0 <= b < bl1.len() && 0 <= k < bl1[b].len()
        && v.px(#[trigger] bl1[b][k].0 as int, bl1[b][k].1 as int) >= sl
        implies !raster_before(pkey(bl1[b][k]), pkey(bl1[b][0])) by {
        if b < nb {
            assert(bl1[b] == bl[b]);
        } else {
            let c = pkey(cv[k]);
            if raster_before(c, (x, y)) {
                assert(lit(v, ehi, gl, cv[k].0 as int, cv[k].1 as int));
                assert(pos_prev.contains_key(c));
                assert(pos1.contains_key(pkey(cv[k])));
                assert(false);
            }
        }
    }
    assert forall|b1: int, b2: int| 0 <= b1 < b2 < bl1.len()
        implies raster_before(pkey(#[trigger] bl1[b1][0]), pkey(#[trigger] bl1[b2][0])) by {
        assert(bl1[b1] == bl[b1]);
        if b2 < nb {
            assert(bl1[b2] == bl[b2]);
        }
    }
    assert(labelled(v, ehi, sl, gl, visited, pos1, bl1, par2));
    assert forall|b: int| 0 <= b < bl1.len()
        implies raster_before(pkey(#[trigger] bl1[b][0]), (x + 1, y)) by {
        if b < nb {
            assert(bl1[b] == bl[b]);
        }
    }
    assert(pkey(cv[0]) == (x, y));
    assert(pos1.contains_key(pkey(bl1[nb][0])));
    assert forall|c: (int, int)| #[trigger] pos_prev.contains_key(c) implies pos1.contains_key(c) by {
        assert(pos1.contains_key(c));
    }
}

/// Labels the star candidates of `img` above row `effective_height`: scanning
/// the search region row by row, every pixel at or above `seed_level` that no
/// earlier blob holds starts a new blob, grown breadth-first over the
/// 8-neighbours at or above `grow_level`.
pub fn label_star_blobs(img: &GrayPlane, effective_height: u32, seed_level: u16, grow_level: u16) -> (blobs: Vec<StarBlob>)
    requires
        effective_height <= img@.height,
        grow_level <= seed_level,
    ensures
        effective_height <= 4 || img@.width <= 4 ==> blobs@.len() == 0,
        blob_labelling(img@, effective_height as int, seed_level as int, grow_level as int, blob_pixels(blobs@)),
        peaks_match(blobs@),
        forall|b: int| 0 <= b < blobs@.len() ==> #[trigger] breadth_first(blobs@[b].pixels@),
{
    if effective_height <= 4 || img.width() <= 4 {
        // The search region has no rows or no columns.
        let blobs: Vec<StarBlob> = Vec::new();
        assert(blob_pixels(blobs@) =~= Seq::<Seq<(u32, u32, u8)>>::empty());
        return blobs;
    }
    let w = img.width();
    let eh = effective_height;
    let ghost v = img@;
    let ghost wi = w as int;
    let ghost ehi = eh as int;
    let ghost sl = seed_level as int;
    let ghost gl = grow_level as int;
    proof {
        assert((w as int) * (eh as int) <= (w as int) * (img@.height as int)) by (nonlinear_arith)
            requires
                0 <= eh <= img@.height,
                0 <= w,
        ;
    }
    let plen: usize = img.as_raw().len();
    let n: usize = (w as usize) * (eh as usize);
    assert(n <= plen);
    let mut visited: Vec<bool> = vec![false; n];
    let mut blobs: Vec<StarBlob> = Vec::new();
    let ghost mut pos: Map<(int, int), (int, int)> = Map::empty();
    let ghost mut bl: Seq<Seq<(u32, u32, u8)>> = Seq::empty();
    let ghost mut par: Seq<Seq<int>> = Seq::empty();
    proof {
        assert forall|x: int, y: int| 0 <= x < wi && 0 <= y < ehi
            implies visited@[cell(wi, x, y)] == pos.contains_key((x, y)) by {
            lemma_pixel_index(wi, ehi, x, y);
        }
        reveal(labelled);
        assert(labelled(v, ehi, sl, gl, visited@, pos, bl, par));
        assert(blob_pixels(blobs@) =~= bl);
    }
    let mut y: u32 = 2;
    while y < eh - 2
        invariant
            v == img@,
            v.wf(),
            wi == w,
            wi == v.width,
            ehi == eh,
            sl == seed_level,
            gl == grow_level,
            gl <= sl,
            2 <= eh <= v.height,
            2 <= w,
            2 <= y,
            y <= eh - 2 || y == 2,
            labelled(v, ehi, sl, gl, visited@, pos, bl, par),
            bl == blob_pixels(blobs@),
            forall|b: int| 0 <= b < bl.len() ==> #[trigger] breadth_first(bl[b]),
            peaks_match(blobs@),
            forall|b: int| 0 <= b < bl.len() ==> raster_before(pkey(#[trigger] bl[b][0]), (2int, y as int)),
            forall|px: int, py: int|
                in_box(v, ehi, px, py) && v.px(px, py) >= sl && raster_before((px, py), (2int, y as int))
                ==> #[trigger] pos.contains_key((px, py)),
        decreases eh - y,
    {
        let mut x: u32 = 2;
        while x < w - 2
            invariant
                v == img@,
                v.wf(),
                wi == w,
                wi == v.width,
                ehi == eh,
                sl == seed_level,
                gl == grow_level,
                gl <= sl,
                2 <= eh <= v.height,
                2 <= w,
                2 <= y < eh - 2,
                2 <= x,
                x <= w - 2 || x == 2,
                labelled(v, ehi, sl, gl, visited@, pos, bl, par),
                bl == blob_pixels(blobs@),
                forall|b: int| 0 <= b < bl.len() ==> #[trigger] breadth_first(bl[b]),
                peaks_match(blobs@),
                forall|b: int| 0 <= b < bl.len() ==> raster_before(pkey(#[trigger] bl[b][0]), (x as int, y as int)),
                forall|px: int, py: int|
                    in_box(v, ehi, px, py) && v.px(px, py) >= sl && raster_before((px, py), (x as int, y as int))
                    ==> #[trigger] pos.contains_key((px, py)),
            decreases w - x,
        {
            let ghost pos_start = pos;
            proof {
                lemma_pixel_index(wi, ehi, x as int, y as int);
                reveal(labelled);
            }
            let vlen: usize = visited.len();
            let idx: usize = (y as usize) * (w as usize) + (x as usize);
            assert(idx as int == cell(wi, x as int, y as int) && idx < vlen);
            if !visited[idx] {
                let val = img.pixel(x, y);
                if val as u16 >= seed_level {
                    let ghost nb = bl.len() as int;
                    let ghost pos_prev = pos;
                    let ghost vis_before = visited@;
                    assert(!pos.contains_key((x as int, y as int)));
                    let (comp, Ghost(pos1), Ghost(par1)) = grow_blob(
                        img, eh, grow_level, &mut visited, x, y, Ghost(pos), Ghost(nb));
                    proof {
                        reveal(bfs_state);
                        lemma_breadth_first(comp@, par1);
                    }
                    let peak = blob_peak(&comp);
                    let ghost cv = comp@;
                    let ghost blobs_prev = blobs@;
                    blobs.push(StarBlob { pixels: comp, peak });
                    proof {
                        assert(blob_pixels(blobs@) =~= bl.push(cv)) by {
                            assert forall|i: int| 0 <= i < blobs@.len()
                                implies blob_pixels(blobs@)[i] == bl.push(cv)[i] by {
                                if i < nb {
                                    assert(blobs@[i] == blobs_prev[i]);
                                }
                            }
                        }
                        assert forall|b: int| #![trigger blobs@[b]] 0 <= b < blobs@.len() implies {
                            &&& forall|k: int| 0 <= k < blobs@[b].pixels@.len() ==> #[trigger] blobs@[b].pixels@[k].2 <= blobs@[b].peak
                            &&& exists|k: int| 0 <= k < blobs@[b].pixels@.len() && #[trigger] blobs@[b].pixels@[k].2 == blobs@[b].peak
                        } by {
                            if b < nb {
                                assert(blobs@[b] == blobs_prev[b]);
                            } else {
                                assert(blobs@[b].pixels@ == cv);
                                assert(blobs@[b].peak == peak);
                                let k = choose|k: int| 0 <= k < cv.len() && #[trigger] cv[k].2 == peak;
                                assert(blobs@[b].pixels@[k].2 == blobs@[b].peak);
                            }
                        }
                        lemma_add_blob(v, ehi, sl, gl, vis_before, visited@, pos, pos1, bl, par, cv, par1, x as int, y as int);
                        let ghost bl_prev = bl;
                        pos = pos1;
                        bl = bl.push(cv);
                        par = par.push(par1);
                        assert forall|b: int| 0 <= b < bl.len() implies #[trigger] breadth_first(bl[b]) by {
                            if b < nb {
                                assert(bl[b] == bl_prev[b]);
                            }
                        }
                        assert(pos.contains_key((x as int, y as int)));
                    }
                } else {
                    assert(v.px(x as int, y as int) < sl);
                }
            } else {
                proof {
                    assert(visited@[cell(wi, x as int, y as int)]);
                    assert(pos.contains_key((x as int, y as int)));
                }
            }
            assert(v.px(x as int, y as int) >= sl ==> pos.contains_key((x as int, y as int)));
            assert(forall|c: (int, int)| #[trigger] pos_start.contains_key(c) ==> pos.contains_key(c));
            proof {
                reveal(labelled);
                assert forall|px: int, py: int|
                    in_box(v, ehi, px, py) && v.px(px, py) >= sl && raster_before((px, py), (x as int + 1, y as int))
                    implies #[trigger] pos.contains_key((px, py)) by {
                    if px == x && py == y {
                        assert(pos.contains_key((x as int, y as int)));
                    } else {
                        assert(raster_before((px, py), (x as int, y as int)));
                        assert(pos_start.contains_key((px, py)));
                    }
                }
            }
            x = x + 1;
        }
        y = y + 1;
    }
    proof {
        reveal(labelled);
        assert forall|x: int, y2: int| in_box(v, ehi, x, y2) && v.px(x, y2) >= sl
            implies #[trigger] pos.contains_key((x, y2)) by {
            assert(raster_before((x, y2), (2int, y as int)));
        }
        lemma_labelling_complete(v, ehi, sl, gl, visited@, pos, bl, par);
        assert forall|b: int| 0 <= b < blobs@.len() implies #[trigger] breadth_first(blobs@[b].pixels@) by {
            assert(blobs@[b].pixels@ == bl[b]);
        }
    }
    blobs
}

/// A blob of `n` pixels is kept when its area lies in [`min_area`, `max_area`].
pub open spec fn area_accepted(n: int, min_area: int, max_area: int) -> bool {
    min_area <= n <= max_area
}

/// The area test as a predicate on blobs.
pub open spec fn area_filter(min_area: usize, max_area: usize) -> spec_fn(StarBlob) -> bool {
    |b: StarBlob| area_accepted(b.pixels@.len() as int, min_area as int, max_area as int)
}

/// Splits the blobs by area: returns, in their order, the blobs whose pixel
/// count lies in [`min_area`, `max_area`], and the number of the others.
pub fn select_blobs_by_area(blobs: Vec<StarBlob>, min_area: usize, max_area: usize) -> (r: (Vec<StarBlob>, usize))
    ensures
        r.0@ == blobs@.filter(area_filter(min_area, max_area)),
        r.0@.len() + r.1 == blobs@.len(),
{
    let ghost all = blobs@;
    let ghost pred = area_filter(min_area, max_area);
    let mut kept: Vec<StarBlob> = Vec::new();
    let mut rejected: usize = 0;
    let n: usize = blobs.len();
    proof {
        assert(all.take(0) =~= Seq::<StarBlob>::empty());
        reveal(Seq::filter);
    }
    for b in it: blobs.into_iter()
        invariant
            all == it.seq(),
            n == all.len(),
            pred == area_filter(min_area, max_area),
            kept@ == all.take(it.index() as int).filter(pred),
            kept@.len() + rejected == it.index(),
    {
        let ghost i = it.index() as int;
        proof {
            assert(b == all[i]);
            assert(all.take(i + 1).drop_last() =~= all.take(i));
            reveal(Seq::filter);
        }
        let ghost kept_prev = kept@;
        assert(i < n);
        if b.pixels.len() < min_area || b.pixels.len() > max_area {
            rejected = rejected + 1;
            proof {
                assert(!area_accepted(b.pixels@.len() as int, min_area as int, max_area as int));
                assert(!pred(b));
                assert(all.take(i + 1).last() == b);
                assert(all.take(i + 1).filter(pred) == all.take(i).filter(pred));
            }
        } else {
            kept.push(b);
            proof {
                assert(area_accepted(b.pixels@.len() as int, min_area as int, max_area as int));
                assert(pred(b));
                assert(all.take(i + 1).last() == b);
                assert(all.take(i + 1).filter(pred) == all.take(i).filter(pred).push(b));
            }
        }
    }
    proof {
        assert(all.take(all.len() as int) =~= all);
    }
    (kept, rejected)
}

} // verus!
