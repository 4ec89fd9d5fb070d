//! Filling a room with monsters: which kinds are spawned, where, and how many.
use vstd::prelude::*;
use crate::loot::random_below;

verus! {

/// A kind of entity that a room may spawn, and what it costs of the room's points.
#[derive(Debug, Clone)]
pub struct SpawnOption {
    pub archetype: String,
    pub points: usize,
}

/// The indices of the options, among the first `n` of `opts`, that cost at
/// most half of `total` points, in order.
pub open spec fn eligible(opts: Seq<SpawnOption>, total: int, n: int) -> Seq<usize>
    decreases n,
{
    if n <= 0 {
        Seq::empty()
    } else {
        let e = eligible(opts, total, n - 1);
        if opts[n - 1].points + opts[n - 1].points <= total { e.push((n - 1) as usize) } else { e }
    }
}

/// The options a draw can pick: the only eligible one (if any), or all
/// eligible ones but the last.
pub open spec fn choosable(e: Seq<usize>) -> Seq<usize> {
    if e.len() <= 1 { e } else { e.drop_last() }
}

/// The spawns that the draws `draws[j..]` give once `cur` points are spent:
/// each draw picks an option of `c` and a spawnable cell (of `slen`), until
/// `total` points are spent or the draws run out.
pub open spec fn spawn_run(opts: Seq<SpawnOption>, c: Seq<usize>, slen: nat, total: int, draws: Seq<(usize, usize)>, j: int, cur: int) -> Seq<(usize, usize)>
    decreases draws.len() - j,
{
    if cur >= total || j < 0 || j >= draws.len() || c.len() == 0 || slen == 0 {
        Seq::empty()
    } else {
        let oi = c[if c.len() == 1 { 0int } else { draws[j].0 as int }];
        let pi: usize = if slen == 1 { 0 } else { draws[j].1 };
        seq![(oi, pi)] + spawn_run(opts, c, slen, total, draws, j + 1, cur + opts[oi as int].points)
    }
}

/// Whether `d` is a draw for a room with the choosable options `c` and
/// `slen` spawnable cells: a pick among the choosable options, and a cell
/// below the number of cells less one (each when there is more than one).
pub open spec fn draw_ok(d: (usize, usize), c: Seq<usize>, slen: nat) -> bool {
    &&& (c.len() > 1 ==> d.0 < c.len())
    &&& (slen > 1 ==> d.1 < slen - 1)
}

/// Whether no spawn can take the points spent past what `usize` holds: while
/// fewer than `total` points are spent, adding those of any option that costs
/// at most half of `total` stays within `usize`.
pub open spec fn spawns_fit(options: Seq<SpawnOption>, total: int) -> bool {
    forall|i: int| 0 <= i < options.len() && #[trigger] options[i].points + options[i].points <= total
        ==> total - 1 + options[i].points <= usize::MAX
}

/// The indices of the options that cost at most half of `total` points.
fn eligible_options(options: &Vec<SpawnOption>, total: usize) -> (r: Vec<usize>)
    requires
        forall|i: int| 0 <= i < options@.len() ==> #[trigger] options@[i].points <= usize::MAX / 2,
    ensures
        r@ == eligible(options@, total as int, options@.len() as int),
{
    let mut e: Vec<usize> = Vec::new();
    let n = options.len();
    for i in 0..n
        invariant
            n == options@.len(),
            forall|q: int| 0 <= q < n ==> #[trigger] options@[q].points <= usize::MAX / 2,
            e@ == eligible(options@, total as int, i as int),
    {
        let p = options[i].points;
        if p + p <= total {
            e.push(i);
        }
    }
    e
}

/// The spawns of a room whose options are `options`, with `spawnable_len`
/// spawnable cells and `total` points to spend, given the draws `draws`:
/// while points are left, the next draw picks an option and a cell (see
/// [`spawn_run`]); each spawn is the index of its option and of its cell.
pub fn room_spawns_with(options: &Vec<SpawnOption>, spawnable_len: usize, total: usize, draws: &Vec<(usize, usize)>) -> (r: Vec<(usize, usize)>)
    requires
        spawns_fit(options@, total as int),
        forall|i: int| 0 <= i < options@.len() ==> #[trigger] options@[i].points <= usize::MAX / 2,
        forall|j: int| 0 <= j < draws@.len() ==> draw_ok(#[trigger] draws@[j],
            choosable(eligible(options@, total as int, options@.len() as int)), spawnable_len as nat),
    ensures
        r@ == spawn_run(options@, choosable(eligible(options@, total as int, options@.len() as int)), spawnable_len as nat,
            total as int, draws@, 0, 0),
{
    let e = eligible_options(options, total);
    let ghost c = choosable(e@);
    let mut out: Vec<(usize, usize)> = Vec::new();
    if e.len() == 0 || spawnable_len == 0 {
        proof {
            assert(spawn_run(options@, c, spawnable_len as nat, total as int, draws@, 0, 0) =~= Seq::<(usize, usize)>::empty());
        }
        return out;
    }
    let num_options = options.len();
    proof { lemma_eligible_facts(options@, total as int, num_options as int); }
    let clen: usize = if e.len() == 1 { 1 } else { e.len() - 1 };
    let mut cur: usize = 0;
    let mut j: usize = 0;
    while cur < total && j < draws.len()
        invariant
            c == choosable(e@),
            e@ == eligible(options@, total as int, options@.len() as int),
            e@.len() > 0,
            clen == c.len(),
            spawnable_len > 0,
            spawns_fit(options@, total as int),
            j <= draws@.len(),
            forall|q: int| 0 <= q < draws@.len() ==> draw_ok(#[trigger] draws@[q], c, spawnable_len as nat),
            forall|q: int| 0 <= q < e@.len() ==> #[trigger] e@[q] < options@.len() && options@[e@[q] as int].points + options@[e@[q] as int].points <= total,
            out@ + spawn_run(options@, c, spawnable_len as nat, total as int, draws@, j as int, cur as int)
                == spawn_run(options@, c, spawnable_len as nat, total as int, draws@, 0, 0),
        decreases draws@.len() - j,
    {
        let d = draws[j];
        let ci: usize = if clen == 1 { 0 } else { d.0 };
        proof {
            assert(draw_ok(draws@[j as int], c, spawnable_len as nat));
            assert(c[ci as int] == e@[ci as int]);
        }
        let oi = e[ci];
        let pi: usize = if spawnable_len == 1 { 0 } else { d.1 };
        proof {
            assert(options@[oi as int].points + options@[oi as int].points <= total);
        }
        out.push((oi, pi));
        let ghost before = out@;
        proof {
            let rest = spawn_run(options@, c, spawnable_len as nat, total as int, draws@, j + 1, cur + options@[oi as int].points);
            assert(spawn_run(options@, c, spawnable_len as nat, total as int, draws@, j as int, cur as int) == seq![(oi, pi)] + rest);
            assert(out@.drop_last() + (seq![(oi, pi)] + rest) =~= out@ + rest);
        }
        cur = cur + options[oi].points;
        j = j + 1;
    }
    proof {
        assert(spawn_run(options@, c, spawnable_len as nat, total as int, draws@, j as int, cur as int) =~= Seq::<(usize, usize)>::empty());
        assert(out@ + Seq::<(usize, usize)>::empty() =~= out@);
    }
    out
}

proof fn lemma_eligible_facts(opts: Seq<SpawnOption>, total: int, n: int)
    requires
        0 <= n <= opts.len(),
        opts.len() <= usize::MAX,
    ensures
        forall|q: int| 0 <= q < eligible(opts, total, n).len() ==> #[trigger] eligible(opts, total, n)[q] < n
            && opts[eligible(opts, total, n)[q] as int].points + opts[eligible(opts, total, n)[q] as int].points <= total,
    decreases n,
{
    if n > 0 {
        lemma_eligible_facts(opts, total, n - 1);
        let e = eligible(opts, total, n);
        let p = eligible(opts, total, n - 1);
        assert forall|q: int| 0 <= q < e.len() implies #[trigger] e[q] < n
            && opts[e[q] as int].points + opts[e[q] as int].points <= total by {
            if q < p.len() {
                assert(e[q] == p[q]);
                assert(p[q] < n - 1);
            } else {
                assert(opts[n - 1].points + opts[n - 1].points <= total);
                assert(e =~= p.push((n - 1) as usize));
                assert(e[q] == (n - 1) as usize);
            }
        }
    }
}

/// The spawns of a room (see [`room_spawns_with`]), with draws made at
/// random: as many as there are points to spend, each pick below the number
/// of eligible options less one and each cell below the number of cells less
/// one (`rand::Rng::gen_range` on those ranges), or 0 where there is only
/// one to pick from.
pub fn room_spawns(options: &Vec<SpawnOption>, spawnable_len: usize, total: usize) -> (r: Vec<(usize, usize)>)
    requires
        spawns_fit(options@, total as int),
        forall|i: int| 0 <= i < options@.len() ==> #[trigger] options@[i].points <= usize::MAX / 2,
    ensures
        exists|draws: Seq<(usize, usize)>| {
            &&& draws.len() == total
            &&& forall|j: int| 0 <= j < draws.len() ==> draw_ok(#[trigger] draws[j],
                    choosable(eligible(options@, total as int, options@.len() as int)), spawnable_len as nat)
            &&& r@ == spawn_run(options@, choosable(eligible(options@, total as int, options@.len() as int)),
                    spawnable_len as nat, total as int, draws, 0, 0)
        },
{
    let e = eligible_options(options, total);
    let ghost c = choosable(e@);
    let clen: usize = if e.len() <= 1 { e.len() } else { e.len() - 1 };
    let mut draws: Vec<(usize, usize)> = Vec::new();
    for k in 0..total
        invariant
            c == choosable(e@),
            clen == c.len(),
            draws@.len() == k,
            forall|q: int| 0 <= q < k ==> draw_ok(#[trigger] draws@[q], c, spawnable_len as nat),
    {
        let a: usize = if clen > 1 { random_below(clen) } else { 0 };
        let b: usize = if spawnable_len > 1 { random_below(spawnable_len - 1) } else { 0 };
        draws.push((a, b));
    }
    room_spawns_with(options, spawnable_len, total, &draws)
}

} // verus!

verus! {

/// The points that the spawns `s` cost together.
pub open spec fn points_of(opts: Seq<SpawnOption>, s: Seq<(usize, usize)>) -> int
    decreases s.len(),
{
    if s.len() == 0 {
        0
    } else {
        opts[s[0].0 as int].points + points_of(opts, s.drop_first())
    }
}

/// A room whose options each cost at least a point, filled with at least as
/// many draws as there are points left to spend, spends all of them: the
/// spawns cost at least what was left.
pub proof fn lemma_room_spends_its_points(opts: Seq<SpawnOption>, c: Seq<usize>, slen: nat, total: int,
    draws: Seq<(usize, usize)>, j: int, cur: int)
    requires
        c.len() > 0,
        slen > 0,
        forall|q: int| 0 <= q < c.len() ==> #[trigger] opts[c[q] as int].points >= 1,
        forall|k: int| 0 <= k < draws.len() ==> draw_ok(#[trigger] draws[k], c, slen),
        0 <= j <= draws.len(),
        draws.len() - j >= total - cur,
    ensures
        cur + points_of(opts, spawn_run(opts, c, slen, total, draws, j, cur)) >= total,
    decreases draws.len() - j,
{
    if cur < total {
        let ci: int = if c.len() == 1 { 0int } else { draws[j].0 as int };
        assert(draw_ok(draws[j], c, slen));
        assert(0 <= ci < c.len());
        let oi = c[ci];
        assert(opts[c[ci] as int].points >= 1);
        let pi: usize = if slen == 1 { 0 } else { draws[j].1 };
        let rest = spawn_run(opts, c, slen, total, draws, j + 1, cur + opts[oi as int].points);
        lemma_room_spends_its_points(opts, c, slen, total, draws, j + 1, cur + opts[oi as int].points);
        let run = spawn_run(opts, c, slen, total, draws, j, cur);
        assert(run == seq![(oi, pi)] + rest);
        assert(run.drop_first() =~= rest);
    }
}

} // verus!
