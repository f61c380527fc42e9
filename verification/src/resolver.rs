//! Deferred animation-binding resolver.
//!
//! Each tick, every actor still tagged as needing a binding has its visual
//! subtree searched breadth-first — shallowest first, left to right within a
//! depth — for the first node able to play animations. A hit records the
//! binding and leaves the state machine; a miss leaves the tag set, so the
//! actor is retried once more of its subtree has loaded. The search is
//! specified level by level: `bfs_first` consumes one whole generation of
//! the frontier per unfolding, and terminates because every child's arena
//! index exceeds its parent's, so the least index on the frontier grows.

use vstd::prelude::*;

use crate::world::{
    actor_kids_wf, arena_wf, bind_wf, geometry_wf, kids_disjoint, transform_bounded, view_actors,
    view_nodes, world_wf, Actor, ActorV, BindPhase, SceneNode, SceneNodeV, World,
};

verus! {

/// Every entry of a frontier points into the arena.
pub open spec fn level_ok(nodes: Seq<SceneNodeV>, level: Seq<usize>) -> bool {
    forall|i: int| 0 <= i < level.len() ==> (#[trigger] level[i]) < nodes.len()
}

/// First animation-capable node of one frontier, left to right.
pub open spec fn first_player_in(nodes: Seq<SceneNodeV>, level: Seq<usize>) -> Option<usize>
    decreases level.len(),
{
    if level.len() == 0 {
        None
    } else if nodes[level[0] as int].is_animation_player {
        Some(level[0])
    } else {
        first_player_in(nodes, level.drop_first())
    }
}

/// The next frontier: all children of a frontier, in frontier order.
pub open spec fn next_level(nodes: Seq<SceneNodeV>, level: Seq<usize>) -> Seq<usize>
    decreases level.len(),
{
    if level.len() == 0 {
        Seq::empty()
    } else {
        nodes[level[0] as int].kids + next_level(nodes, level.drop_first())
    }
}

/// Least index on a frontier (0 for an empty one).
pub open spec fn seq_min(s: Seq<usize>) -> int
    decreases s.len(),
{
    if s.len() == 0 {
        0
    } else if s.len() == 1 {
        s[0] as int
    } else if (s[0] as int) <= seq_min(s.drop_first()) {
        s[0] as int
    } else {
        seq_min(s.drop_first())
    }
}

/// The least index on a nonempty frontier bounds every entry and is one.
pub proof fn lemma_seq_min_props(s: Seq<usize>)
    requires
        s.len() > 0,
    ensures
        forall|i: int| 0 <= i < s.len() ==> seq_min(s) <= (#[trigger] s[i]) as int,
        exists|i: int| 0 <= i < s.len() && (#[trigger] s[i]) as int == seq_min(s),
    decreases s.len(),
{
    if s.len() == 1 {
        assert(s[0] as int == seq_min(s));
    }
    if s.len() > 1 {
        lemma_seq_min_props(s.drop_first());
        assert forall|i: int| 0 <= i < s.len() implies seq_min(s) <= (#[trigger] s[i]) as int by {
            if i > 0 {
                assert(s.drop_first()[i - 1] == s[i]);
            }
        }
        if (s[0] as int) <= seq_min(s.drop_first()) {
            assert(s[0] as int == seq_min(s));
        } else {
            let i = choose|i: int|
                0 <= i < s.drop_first().len() && (#[trigger] s.drop_first()[i]) as int == seq_min(
                    s.drop_first(),
                );
            assert(s[i + 1] as int == seq_min(s));
        }
    }
}

/// Every entry of the next frontier is a child of some entry of this one.
pub proof fn lemma_next_elem_has_parent(nodes: Seq<SceneNodeV>, level: Seq<usize>, i: int)
    requires
        0 <= i < next_level(nodes, level).len(),
    ensures
        exists|j: int|
            0 <= j < level.len() && nodes[(#[trigger] level[j]) as int].kids.contains(
                next_level(nodes, level)[i],
            ),
    decreases level.len(),
{
    let nx = next_level(nodes, level);
    let kids0 = nodes[level[0] as int].kids;
    if i < kids0.len() {
        assert(nx[i] == kids0[i]);
        assert(kids0.contains(nx[i]));
        assert(0 <= 0 < level.len() && nodes[(level[0]) as int].kids.contains(nx[i]));
    } else {
        lemma_next_elem_has_parent(nodes, level.drop_first(), i - kids0.len());
        let rest = next_level(nodes, level.drop_first());
        assert(nx[i] == rest[i - kids0.len()]);
        let j = choose|j: int|
            0 <= j < level.drop_first().len() && nodes[(#[trigger] level.drop_first()[j]) as int].kids.contains(
                rest[i - kids0.len()],
            );
        assert(level[j + 1] == level.drop_first()[j]);
        assert(0 <= j + 1 < level.len() && nodes[(level[j + 1]) as int].kids.contains(nx[i]));
    }
}

/// A well-formed arena keeps every next frontier inside the arena.
pub proof fn lemma_level_ok_next(nodes: Seq<SceneNodeV>, level: Seq<usize>)
    requires
        arena_wf(nodes),
        level_ok(nodes, level),
    ensures
        level_ok(nodes, next_level(nodes, level)),
{
    let nx = next_level(nodes, level);
    assert forall|i: int| 0 <= i < nx.len() implies (#[trigger] nx[i]) < nodes.len() by {
        lemma_next_elem_has_parent(nodes, level, i);
        let j = choose|j: int|
            0 <= j < level.len() && nodes[(#[trigger] level[j]) as int].kids.contains(nx[i]);
        let k = choose|k: int|
            0 <= k < nodes[level[j] as int].kids.len() && nodes[level[j] as int].kids[k] == nx[i];
    }
}

/// The least index grows strictly from one frontier to the next.
pub proof fn lemma_min_next(nodes: Seq<SceneNodeV>, level: Seq<usize>)
    requires
        arena_wf(nodes),
        level_ok(nodes, level),
        next_level(nodes, level).len() > 0,
    ensures
        seq_min(next_level(nodes, level)) > seq_min(level),
        seq_min(next_level(nodes, level)) < nodes.len(),
{
    let nx = next_level(nodes, level);
    lemma_seq_min_props(nx);
    let i = choose|i: int| 0 <= i < nx.len() && (#[trigger] nx[i]) as int == seq_min(nx);
    lemma_next_elem_has_parent(nodes, level, i);
    let j = choose|j: int|
        0 <= j < level.len() && nodes[(#[trigger] level[j]) as int].kids.contains(nx[i]);
    let k = choose|k: int|
        0 <= k < nodes[level[j] as int].kids.len() && nodes[level[j] as int].kids[k] == nx[i];
    lemma_seq_min_props(level);
    lemma_level_ok_next(nodes, level);
}

/// Result of the breadth-first search from a frontier: the first
/// animation-capable node in level order, or `None` once the frontier dies
/// out. Well-defined on a well-formed arena.
pub open spec fn bfs_first(nodes: Seq<SceneNodeV>, level: Seq<usize>) -> Option<usize>
    decreases nodes.len() - seq_min(level),
        when arena_wf(nodes) && level_ok(nodes, level)
        via bfs_first_decreases
{
    if level.len() == 0 {
        None
    } else if first_player_in(nodes, level) is Some {
        first_player_in(nodes, level)
    } else if next_level(nodes, level).len() == 0 {
        None
    } else {
        bfs_first(nodes, next_level(nodes, level))
    }
}

#[via_fn]
proof fn bfs_first_decreases(nodes: Seq<SceneNodeV>, level: Seq<usize>) {
    if level.len() != 0 && !(first_player_in(nodes, level) is Some) && next_level(
        nodes,
        level,
    ).len() != 0 {
        lemma_level_ok_next(nodes, level);
        lemma_min_next(nodes, level);
        lemma_seq_min_props(level);
    }
}

/// What a frontier scan's result means: a hit is a player on the frontier,
/// a miss says nobody on it is one.
pub proof fn lemma_first_player_props(nodes: Seq<SceneNodeV>, level: Seq<usize>)
    requires
        level_ok(nodes, level),
    ensures
        match first_player_in(nodes, level) {
            Some(p) => level.contains(p) && (p as int) < nodes.len()
                && nodes[p as int].is_animation_player,
            None => forall|i: int|
                0 <= i < level.len() ==> !nodes[(#[trigger] level[i]) as int].is_animation_player,
        },
    decreases level.len(),
{
    if level.len() > 0 {
        if nodes[level[0] as int].is_animation_player {
            assert(level.contains(level[0]));
        } else {
            lemma_first_player_props(nodes, level.drop_first());
            match first_player_in(nodes, level.drop_first()) {
                Some(p) => {
                    let i = choose|i: int|
                        0 <= i < level.drop_first().len() && level.drop_first()[i] == p;
                    assert(level[i + 1] == p);
                    assert(level.contains(p));
                },
                None => {
                    assert forall|i: int| 0 <= i < level.len() implies !nodes[(#[trigger] level[i]) as int].is_animation_player by {
                        if i > 0 {
                            assert(level.drop_first()[i - 1] == level[i]);
                        }
                    }
                },
            }
        }
    }
}

/// A search hit names an animation-capable node inside the arena.
pub proof fn lemma_bfs_props(nodes: Seq<SceneNodeV>, level: Seq<usize>)
    requires
        arena_wf(nodes),
        level_ok(nodes, level),
    ensures
        match bfs_first(nodes, level) {
            Some(p) => (p as int) < nodes.len() && nodes[p as int].is_animation_player,
            None => true,
        },
    decreases nodes.len() - seq_min(level),
{
    if level.len() != 0 {
        lemma_first_player_props(nodes, level);
        if !(first_player_in(nodes, level) is Some) && next_level(nodes, level).len() != 0 {
            lemma_level_ok_next(nodes, level);
            lemma_min_next(nodes, level);
            lemma_seq_min_props(level);
            lemma_bfs_props(nodes, next_level(nodes, level));
        }
    }
}


/// Entries of the `k`-th generation of frontiers grown from `l0`.
pub open spec fn level_seq(nodes: Seq<SceneNodeV>, l0: Seq<usize>, k: nat) -> Seq<usize>
    decreases k,
{
    if k == 0 {
        l0
    } else {
        level_seq(nodes, next_level(nodes, l0), (k - 1) as nat)
    }
}

/// A node is in the subtree over `l0` when some generation holds it.
pub open spec fn in_subtree(nodes: Seq<SceneNodeV>, l0: Seq<usize>, x: usize) -> bool {
    exists|k: nat| level_seq(nodes, l0, k).contains(x)
}

/// Generations grown from an empty frontier stay empty.
proof fn lemma_level_seq_empty(nodes: Seq<SceneNodeV>, k: nat)
    ensures
        level_seq(nodes, Seq::empty(), k).len() == 0,
    decreases k,
{
    if k > 0 {
        assert(next_level(nodes, Seq::empty()) =~= Seq::<usize>::empty());
        lemma_level_seq_empty(nodes, (k - 1) as nat);
    }
}

/// Every generation of a frontier inside the arena stays inside it.
proof fn lemma_level_seq_ok(nodes: Seq<SceneNodeV>, l0: Seq<usize>, k: nat)
    requires
        arena_wf(nodes),
        level_ok(nodes, l0),
    ensures
        level_ok(nodes, level_seq(nodes, l0, k)),
    decreases k,
{
    if k > 0 {
        lemma_level_ok_next(nodes, l0);
        lemma_level_seq_ok(nodes, next_level(nodes, l0), (k - 1) as nat);
    }
}

/// On a frontier whose only player is `p`, the scan returns `p`.
proof fn lemma_first_player_unique(nodes: Seq<SceneNodeV>, level: Seq<usize>, p: usize)
    requires
        level_ok(nodes, level),
        level.contains(p),
        (p as int) < nodes.len(),
        nodes[p as int].is_animation_player,
        forall|i: int|
            0 <= i < level.len() && nodes[(#[trigger] level[i]) as int].is_animation_player
                ==> level[i] == p,
    ensures
        first_player_in(nodes, level) == Some(p),
    decreases level.len(),
{
    if nodes[level[0] as int].is_animation_player {
        assert(level[0] == p);
    } else {
        let i = choose|i: int| 0 <= i < level.len() && level[i] == p;
        assert(i >= 1);
        assert(level.drop_first()[i - 1] == p);
        assert(level.drop_first().contains(p));
        assert forall|i2: int|
            0 <= i2 < level.drop_first().len() && nodes[(#[trigger] level.drop_first()[i2]) as int].is_animation_player implies level.drop_first()[i2]
            == p by {
            assert(level[i2 + 1] == level.drop_first()[i2]);
        }
        lemma_first_player_unique(nodes, level.drop_first(), p);
    }
}

/// If no generation shallower than `k` holds a player and `p` is the only
/// player in generation `k`, the search binds `p`: the shallowest candidate
/// wins, reproducibly.
pub proof fn lemma_bfs_finds_unique_at_depth(
    nodes: Seq<SceneNodeV>,
    l0: Seq<usize>,
    k: nat,
    p: usize,
)
    requires
        arena_wf(nodes),
        level_ok(nodes, l0),
        level_seq(nodes, l0, k).contains(p),
        (p as int) < nodes.len(),
        nodes[p as int].is_animation_player,
        forall|m: nat, x: usize|
            m <= k && #[trigger] level_seq(nodes, l0, m).contains(x) && nodes[x as int].is_animation_player
                ==> x == p,
    ensures
        bfs_first(nodes, l0) == Some(p),
    decreases k,
{
    if k == 0 {
        assert forall|i: int|
            0 <= i < l0.len() && nodes[(#[trigger] l0[i]) as int].is_animation_player implies l0[i]
            == p by {
            assert(level_seq(nodes, l0, 0).contains(l0[i]));
        }
        lemma_first_player_unique(nodes, l0, p);
        assert(l0.len() > 0);
    } else {
        lemma_first_player_props(nodes, l0);
        match first_player_in(nodes, l0) {
            Some(q) => {
                assert(level_seq(nodes, l0, 0).contains(q));
                assert(q == p);
                assert(l0.len() > 0);
            },
            None => {
                let nx = next_level(nodes, l0);
                assert(level_seq(nodes, l0, k) == level_seq(nodes, nx, (k - 1) as nat));
                if nx.len() == 0 {
                    assert(nx =~= Seq::<usize>::empty());
                    lemma_level_seq_empty(nodes, (k - 1) as nat);
                    assert(false);
                }
                lemma_level_ok_next(nodes, l0);
                assert forall|m: nat, x: usize|
                    m <= (k - 1) as nat && #[trigger] level_seq(nodes, nx, m).contains(x)
                        && nodes[x as int].is_animation_player implies x == p by {
                    assert(level_seq(nodes, l0, m + 1) == level_seq(nodes, nx, m));
                    assert(level_seq(nodes, l0, m + 1).contains(x));
                }
                lemma_bfs_finds_unique_at_depth(nodes, nx, (k - 1) as nat, p);
                assert(l0.len() > 0) by {
                    assert(level_seq(nodes, l0, k).len() > 0);
                    if l0.len() == 0 {
                        assert(l0 =~= Seq::<usize>::empty());
                        lemma_level_seq_empty(nodes, k);
                    }
                }
            },
        }
    }
}

/// Eventual binding: once the subtree over `l0` holds exactly one
/// animation-capable node, a single resolver pass finds exactly that node —
/// and `setup_helpers` then records a binding that later ticks never change.
pub proof fn lemma_eventual_binding(nodes: Seq<SceneNodeV>, l0: Seq<usize>, p: usize)
    requires
        arena_wf(nodes),
        level_ok(nodes, l0),
        in_subtree(nodes, l0, p),
        (p as int) < nodes.len(),
        nodes[p as int].is_animation_player,
        forall|x: usize|
            #[trigger] in_subtree(nodes, l0, x) && (x as int) < nodes.len()
                && nodes[x as int].is_animation_player ==> x == p,
    ensures
        bfs_first(nodes, l0) == Some(p),
{
    let k = choose|k: nat| level_seq(nodes, l0, k).contains(p);
    assert forall|m: nat, x: usize|
        m <= k && #[trigger] level_seq(nodes, l0, m).contains(x) && nodes[x as int].is_animation_player implies x
        == p by {
        assert(in_subtree(nodes, l0, x));
        lemma_level_seq_ok(nodes, l0, m);
    }
    lemma_bfs_finds_unique_at_depth(nodes, l0, k, p);
}

/// A binding, once recorded, survives every later resolver tick unchanged.
pub proof fn lemma_binding_immutable(nodes: Seq<SceneNodeV>, a: ActorV)
    requires
        a.bind matches BindPhase::Bound(_) || a.bind matches BindPhase::Activated(_),
    ensures
        resolved_bind(nodes, a) == a.bind,
{
}

/// Tie-break determinism: when the subtree holds exactly two players `p` and
/// `q`, `p` in generation `i` and `q` only deeper, the resolver always binds
/// the shallower `p`, never `q`.
pub proof fn lemma_tie_break_shallower(
    nodes: Seq<SceneNodeV>,
    l0: Seq<usize>,
    i: nat,
    j: nat,
    p: usize,
    q: usize,
)
    requires
        arena_wf(nodes),
        level_ok(nodes, l0),
        i < j,
        p != q,
        level_seq(nodes, l0, i).contains(p),
        (p as int) < nodes.len(),
        nodes[p as int].is_animation_player,
        level_seq(nodes, l0, j).contains(q),
        (q as int) < nodes.len(),
        nodes[q as int].is_animation_player,
        forall|x: usize|
            #[trigger] in_subtree(nodes, l0, x) && (x as int) < nodes.len()
                && nodes[x as int].is_animation_player ==> x == p || x == q,
        forall|m: nat| m <= i ==> !(#[trigger] level_seq(nodes, l0, m).contains(q)),
    ensures
        bfs_first(nodes, l0) == Some(p),
        bfs_first(nodes, l0) != Some(q),
{
    assert forall|m: nat, x: usize|
        m <= i && #[trigger] level_seq(nodes, l0, m).contains(x) && nodes[x as int].is_animation_player implies x
        == p by {
        assert(in_subtree(nodes, l0, x));
        lemma_level_seq_ok(nodes, l0, m);
        if x == q {
            assert(!(level_seq(nodes, l0, m).contains(q)));
        }
    }
    lemma_bfs_finds_unique_at_depth(nodes, l0, i, p);
}

/// Scan one frontier left to right for an animation-capable node.
fn first_player_scan(nodes: &Vec<SceneNode>, level: &Vec<usize>) -> (r: Option<usize>)
    requires
        level_ok(view_nodes(nodes@), level@),
    ensures
        r == first_player_in(view_nodes(nodes@), level@),
{
    let nv = Ghost(view_nodes(nodes@));
    proof {
        assert(level@.skip(0) =~= level@);
    }
    let mut i: usize = 0;
    while i < level.len()
        invariant
            0 <= i <= level.len(),
            nv@ == view_nodes(nodes@),
            level_ok(nv@, level@),
            first_player_in(nv@, level@) == first_player_in(nv@, level@.skip(i as int)),
        decreases level.len() - i,
    {
        let n = level[i];
        proof {
            assert(level@.skip(i as int)[0] == level@[i as int]);
            assert(nv@[n as int] == nodes@[n as int]@);
        }
        if nodes[n].is_animation_player {
            return Some(n);
        }
        proof {
            assert(level@.skip(i as int).drop_first() =~= level@.skip(i as int + 1));
        }
        i = i + 1;
    }
    proof {
        assert(level@.skip(level@.len() as int).len() == 0);
    }
    None
}

/// Collect the children of a whole frontier, in frontier order.
fn next_level_scan(nodes: &Vec<SceneNode>, level: &Vec<usize>) -> (r: Vec<usize>)
    requires
        level_ok(view_nodes(nodes@), level@),
    ensures
        r@ == next_level(view_nodes(nodes@), level@),
{
    let nv = Ghost(view_nodes(nodes@));
    proof {
        assert(level@.skip(0) =~= level@);
    }
    let mut r: Vec<usize> = Vec::new();
    let mut i: usize = 0;
    while i < level.len()
        invariant
            0 <= i <= level.len(),
            nv@ == view_nodes(nodes@),
            level_ok(nv@, level@),
            r@ + next_level(nv@, level@.skip(i as int)) == next_level(nv@, level@),
        decreases level.len() - i,
    {
        let n = level[i];
        let ghost r_before = r@;
        let kids = &nodes[n].kids;
        let mut j: usize = 0;
        while j < kids.len()
            invariant
                0 <= j <= kids.len(),
                kids@ == nodes@[n as int].kids@,
                n < nodes@.len(),
                r@ == r_before + kids@.take(j as int),
            decreases kids.len() - j,
        {
            let k = kids[j];
            r.push(k);
            proof {
                assert(r@ =~= r_before + kids@.take(j as int + 1));
            }
            j = j + 1;
        }
        proof {
            assert(kids@.take(kids@.len() as int) =~= kids@);
            assert(level@.skip(i as int)[0] == level@[i as int]);
            assert(level@.skip(i as int).drop_first() =~= level@.skip(i as int + 1));
            assert(nv@[level@[i as int] as int].kids == nodes@[n as int].kids@);
            assert(next_level(nv@, level@.skip(i as int)) == nv@[level@[i as int] as int].kids
                + next_level(nv@, level@.skip(i as int + 1)));
            assert(r_before + (kids@ + next_level(nv@, level@.skip(i as int + 1))) =~= (r_before
                + kids@) + next_level(nv@, level@.skip(i as int + 1)));
        }
        i = i + 1;
    }
    proof {
        assert(level@.skip(level@.len() as int).len() == 0);
        assert(r@ + next_level(nv@, level@.skip(level@.len() as int)) =~= r@);
    }
    r
}

/// Breadth-first search for the animation-player node under an actor's
/// subtree roots: shallowest generation first, left to right within one.
///
/// Returns the node `bfs_first` names, or `None` while no reachable node can
/// play animations — which is no error, only "not yet resolvable".
pub fn find_animation_player_entity(nodes: &Vec<SceneNode>, start: &Vec<usize>) -> (r: Option<
    usize,
>)
    requires
        arena_wf(view_nodes(nodes@)),
        level_ok(view_nodes(nodes@), start@),
    ensures
        r == bfs_first(view_nodes(nodes@), start@),
{
    let nv = Ghost(view_nodes(nodes@));
    let mut level: Vec<usize> = Vec::new();
    let mut i: usize = 0;
    while i < start.len()
        invariant
            0 <= i <= start.len(),
            level@ == start@.take(i as int),
        decreases start.len() - i,
    {
        level.push(start[i]);
        proof {
            assert(start@.take(i as int).push(start@[i as int]) =~= start@.take(i as int + 1));
        }
        i = i + 1;
    }
    proof {
        assert(start@.take(start@.len() as int) =~= start@);
    }
    loop
        invariant
            nv@ == view_nodes(nodes@),
            arena_wf(nv@),
            level_ok(nv@, level@),
            bfs_first(nv@, start@) == bfs_first(nv@, level@),
        decreases nv@.len() - seq_min(level@),
    {
        if level.len() == 0 {
            return None;
        }
        let hit = first_player_scan(nodes, &level);
        if hit.is_some() {
            return hit;
        }
        let nx = next_level_scan(nodes, &level);
        if nx.len() == 0 {
            return None;
        }
        proof {
            lemma_level_ok_next(nv@, level@);
            lemma_min_next(nv@, level@);
            lemma_seq_min_props(level@);
        }
        level = nx;
    }
}

/// The binding phase an actor leaves the resolver tick with.
pub open spec fn resolved_bind(nodes: Seq<SceneNodeV>, a: ActorV) -> BindPhase {
    if a.bind is NeedsBinding {
        match bfs_first(nodes, a.kids) {
            Some(p) => BindPhase::Bound(p),
            None => BindPhase::NeedsBinding,
        }
    } else {
        a.bind
    }
}

/// Resolver tick: bind every actor that needs it and has a findable player.
///
/// Actors already bound or activated are left exactly as they are — a
/// binding, once made, never changes — and nothing but binding phases moves.
pub fn setup_helpers(w: &mut World)
    requires
        world_wf(old(w)@),
    ensures
        final(w)@.actors.len() == old(w)@.actors.len(),
        forall|a: int|
            0 <= a < old(w)@.actors.len() ==> #[trigger] final(w)@.actors[a] == (ActorV {
                bind: resolved_bind(old(w)@.nodes, old(w)@.actors[a]),
                ..old(w)@.actors[a]
            }),
        final(w)@.nodes == old(w)@.nodes,
        final(w)@.cameras == old(w)@.cameras,
        final(w).subject_changed == old(w).subject_changed,
        world_wf(final(w)@),
{
    let n = w.actors.len();
    let mut a: usize = 0;
    while a < n
        invariant
            0 <= a <= n,
            n == w.actors@.len(),
            world_wf(old(w)@),
            w@.actors.len() == old(w)@.actors.len(),
            forall|x: int|
                0 <= x < a ==> #[trigger] view_actors(w.actors@)[x] == (ActorV {
                    bind: resolved_bind(old(w)@.nodes, old(w)@.actors[x]),
                    ..old(w)@.actors[x]
                }),
            forall|x: int|
                a <= x < n ==> #[trigger] view_actors(w.actors@)[x] == old(w)@.actors[x],
            w.nodes@ == old(w).nodes@,
            w.cameras@ == old(w).cameras@,
            w.subject_changed == old(w).subject_changed,
        decreases n - a,
    {
        let ghost snap = w.actors@;
        let needs = match w.actors[a].bind {
            BindPhase::NeedsBinding => true,
            _ => false,
        };
        if needs {
            proof {
                assert(view_actors(w.actors@)[a as int] == w.actors@[a as int]@);
                assert(level_ok(view_nodes(w.nodes@), w.actors@[a as int].kids@)) by {
                    assert(old(w)@.actors[a as int].kids == w.actors@[a as int].kids@);
                }
            }
            let hit = find_animation_player_entity(&w.nodes, &w.actors[a].kids);
            if let Some(p) = hit {
                w.actors[a].bind = BindPhase::Bound(p);
            }
            proof {
                assert(view_actors(w.actors@)[a as int] =~= ActorV {
                    bind: resolved_bind(old(w)@.nodes, old(w)@.actors[a as int]),
                    ..old(w)@.actors[a as int]
                });
            }
        } else {
            proof {
                assert(view_actors(w.actors@)[a as int] =~= ActorV {
                    bind: resolved_bind(old(w)@.nodes, old(w)@.actors[a as int]),
                    ..old(w)@.actors[a as int]
                });
            }
        }
        proof {
            assert forall|x: int|
                0 <= x < n as int && x != a as int implies #[trigger] view_actors(w.actors@)[x]
                == view_actors(snap)[x] by {
                assert(w.actors@[x] == snap[x]);
            }
        }
        a = a + 1;
    }
    proof {
        assert(w@.nodes =~= old(w)@.nodes);
        assert(w@.cameras =~= old(w)@.cameras);
        assert forall|x: int|
            0 <= x < w@.actors.len() implies (#[trigger] w@.actors[x]).kids == old(
            w,
        )@.actors[x].kids && w@.actors[x].transform == old(w)@.actors[x].transform by {
            assert(w@.actors[x] == view_actors(w.actors@)[x]);
        }
        assert(arena_wf(w@.nodes));
        assert(actor_kids_wf(w@)) by {
            assert forall|x: int, j: int|
                0 <= x < w@.actors.len() && 0 <= j < w@.actors[x].kids.len() implies #[trigger] w@.actors[x].kids[j]
                < w@.nodes.len() by {
                assert(w@.actors[x].kids == old(w)@.actors[x].kids);
                assert(old(w)@.actors[x].kids[j] < old(w)@.nodes.len());
            }
        }
        assert(kids_disjoint(w@)) by {
            assert forall|a1: int, j1: int, a2: int, j2: int|
                0 <= a1 < w@.actors.len() && 0 <= j1 < w@.actors[a1].kids.len() && 0 <= a2
                < w@.actors.len() && 0 <= j2 < w@.actors[a2].kids.len() && a1 != a2 implies #[trigger] w@.actors[a1].kids[j1]
                != #[trigger] w@.actors[a2].kids[j2] by {
                assert(w@.actors[a1].kids == old(w)@.actors[a1].kids);
                assert(w@.actors[a2].kids == old(w)@.actors[a2].kids);
            }
        }
        assert(bind_wf(w@)) by {
            assert forall|x: int|
                0 <= x < w@.actors.len() implies (match #[trigger] w@.actors[x].bind {
                BindPhase::Bound(p) => p < w@.nodes.len(),
                BindPhase::Activated(p) => p < w@.nodes.len(),
                _ => true,
            }) by {
                assert(w@.actors[x] == view_actors(w.actors@)[x]);
                assert(w@.actors[x].bind == resolved_bind(old(w)@.nodes, old(w)@.actors[x]));
                if old(w)@.actors[x].bind is NeedsBinding {
                    assert(level_ok(old(w)@.nodes, old(w)@.actors[x].kids));
                    lemma_bfs_props(old(w)@.nodes, old(w)@.actors[x].kids);
                }
            }
        }
        assert(geometry_wf(w@)) by {
            assert forall|x: int|
                0 <= x < w@.actors.len() implies transform_bounded(
                #[trigger] w@.actors[x].transform,
            ) by {
                assert(w@.actors[x].transform == old(w)@.actors[x].transform);
            }
            assert(w@.cameras == old(w)@.cameras);
        }
        assert(world_wf(w@));
    }
}

} // verus!
