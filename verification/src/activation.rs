//! One-shot activation of resolved bindings.
//!
//! Once the resolver has bound an actor to its animation-player node, this
//! pass issues "play the idle clip, looping" to that node exactly once —
//! monsters get the monster clip, the character the character clip, anything
//! else gets nothing — and moves the actor to `Activated`, which no later
//! tick ever leaves. Re-running the pass, or re-running the resolver first,
//! can therefore never issue a second play command for the same actor.

use vstd::prelude::*;

use crate::resolver::resolved_bind;
use crate::world::{
    view_actors, world_wf, ActorV, BindPhase, SceneNodeV, World,
};

verus! {

/// Which idle clip a play command names.
#[derive(Clone, Copy, PartialEq, Eq, Structural, Debug)]
pub enum ClipId {
    MonsterIdle,
    CharacterIdle,
}

/// "Play this clip, looping, on this player node" for one actor.
#[derive(Clone, Copy, PartialEq, Eq, Structural, Debug)]
pub struct PlayCommand {
    pub actor: usize,
    pub player: usize,
    pub clip: ClipId,
}

/// The binding phase an actor leaves the activation pass with.
pub open spec fn activated_bind(a: ActorV) -> BindPhase {
    match a.bind {
        BindPhase::Bound(n) => BindPhase::Activated(n),
        other => other,
    }
}

/// The play command one actor causes, if any: only a freshly bound monster
/// or character is played.
pub open spec fn play_for(a: ActorV, idx: usize) -> Option<PlayCommand> {
    match a.bind {
        BindPhase::Bound(n) => {
            if a.is_monster {
                Some(PlayCommand { actor: idx, player: n, clip: ClipId::MonsterIdle })
            } else if a.is_character {
                Some(PlayCommand { actor: idx, player: n, clip: ClipId::CharacterIdle })
            } else {
                None
            }
        },
        _ => None,
    }
}

/// All play commands of one pass over the first `upto` actors, in order.
pub open spec fn play_stream(actors: Seq<ActorV>, upto: int) -> Seq<PlayCommand>
    decreases upto,
{
    if upto <= 0 {
        Seq::empty()
    } else {
        play_stream(actors, upto - 1) + match play_for(actors[upto - 1], (upto - 1) as usize) {
            Some(c) => seq![c],
            None => Seq::empty(),
        }
    }
}

/// Activation pass: issue the idle clip once per freshly bound actor and
/// advance each such actor to `Activated`.
pub fn setup_scene_once_loaded(w: &mut World) -> (cmds: Vec<PlayCommand>)
    requires
        world_wf(old(w)@),
    ensures
        cmds@ == play_stream(old(w)@.actors, old(w)@.actors.len() as int),
        final(w)@.actors.len() == old(w)@.actors.len(),
        forall|a: int|
            0 <= a < old(w)@.actors.len() ==> #[trigger] final(w)@.actors[a] == (ActorV {
                bind: activated_bind(old(w)@.actors[a]),
                ..old(w)@.actors[a]
            }),
        final(w)@.nodes == old(w)@.nodes,
        final(w)@.cameras == old(w)@.cameras,
        final(w).subject_changed == old(w).subject_changed,
        world_wf(final(w)@),
{
    let n = w.actors.len();
    let mut cmds: Vec<PlayCommand> = Vec::new();
    let mut a: usize = 0;
    while a < n
        invariant
            0 <= a <= n,
            n == w.actors@.len(),
            world_wf(old(w)@),
            w@.actors.len() == old(w)@.actors.len(),
            cmds@ == play_stream(old(w)@.actors, a as int),
            forall|x: int|
                0 <= x < a ==> #[trigger] view_actors(w.actors@)[x] == (ActorV {
                    bind: activated_bind(old(w)@.actors[x]),
                    ..old(w)@.actors[x]
                }),
            forall|x: int|
                a <= x < n ==> #[trigger] view_actors(w.actors@)[x] == old(w)@.actors[x],
            w.nodes@ == old(w).nodes@,
            w.cameras@ == old(w).cameras@,
            w.subject_changed == old(w).subject_changed,
        decreases n - a,
    {
        let ghost snap = w.actors@;
        proof {
            assert(view_actors(w.actors@)[a as int] == w.actors@[a as int]@);
        }
        let bind = w.actors[a].bind;
        if let BindPhase::Bound(p) = bind {
            if w.actors[a].is_monster {
                cmds.push(PlayCommand { actor: a, player: p, clip: ClipId::MonsterIdle });
            } else if w.actors[a].is_character {
                cmds.push(PlayCommand { actor: a, player: p, clip: ClipId::CharacterIdle });
            }
            w.actors[a].bind = BindPhase::Activated(p);
        }
        proof {
            assert(view_actors(w.actors@)[a as int] =~= ActorV {
                bind: activated_bind(old(w)@.actors[a as int]),
                ..old(w)@.actors[a as int]
            });
            assert forall|x: int|
                0 <= x < n as int && x != a as int implies #[trigger] view_actors(w.actors@)[x]
                == view_actors(snap)[x] by {
                assert(w.actors@[x] == snap[x]);
            }
            assert(cmds@ =~= play_stream(old(w)@.actors, a as int + 1));
        }
        a = a + 1;
    }
    proof {
        assert(w@.nodes =~= old(w)@.nodes);
        assert(w@.cameras =~= old(w)@.cameras);
        assert(world_wf(w@)) by {
            assert forall|x: int|
                0 <= x < w@.actors.len() implies (#[trigger] w@.actors[x]).kids == old(
                w,
            )@.actors[x].kids && w@.actors[x].transform == old(w)@.actors[x].transform && (match w@
                .actors[x].bind {
                BindPhase::Bound(p) => p < w@.nodes.len(),
                BindPhase::Activated(p) => p < w@.nodes.len(),
                _ => true,
            }) by {
                assert(w@.actors[x] == view_actors(w.actors@)[x]);
            }
        }
    }
    cmds
}

/// After one activation pass no actor is still freshly bound, so a second
/// pass issues nothing.
pub proof fn lemma_play_stream_empty(actors: Seq<ActorV>, upto: int)
    requires
        forall|i: int| 0 <= i < actors.len() ==> !((#[trigger] actors[i].bind) is Bound),
        upto <= actors.len(),
    ensures
        play_stream(actors, upto).len() == 0,
    decreases upto,
{
    if upto > 0 {
        lemma_play_stream_empty(actors, upto - 1);
    }
}

/// Every issued command names the actor it was built from.
pub proof fn lemma_play_stream_membership(actors: Seq<ActorV>, upto: int, c: PlayCommand)
    requires
        0 <= upto <= actors.len(),
        actors.len() <= usize::MAX as int,
        play_stream(actors, upto).contains(c),
    ensures
        (c.actor as int) < upto,
        play_for(actors[c.actor as int], c.actor) == Some(c),
    decreases upto,
{
    if upto > 0 {
        let prev = play_stream(actors, upto - 1);
        let cur = play_stream(actors, upto);
        let i = choose|i: int| 0 <= i < cur.len() && cur[i] == c;
        if i < prev.len() {
            assert(prev[i] == c);
            assert(prev.contains(c));
            lemma_play_stream_membership(actors, upto - 1, c);
        } else {
            match play_for(actors[upto - 1], (upto - 1) as usize) {
                Some(cc) => {
                    assert(cur[i] == seq![cc][i - prev.len()]);
                    assert(c == cc);
                    assert(cc.actor == (upto - 1) as usize);
                    assert((c.actor as int) == upto - 1);
                },
                None => {
                    assert(false);
                },
            }
        }
    }
}

/// One-shot activation: across one activation pass, any number of further
/// resolver passes, and a second activation pass, no actor's play command is
/// ever issued twice.
pub proof fn lemma_one_shot_activation(
    before: Seq<ActorV>,
    after: Seq<ActorV>,
    nodes: Seq<SceneNodeV>,
    evolved: Seq<ActorV>,
    c1: PlayCommand,
    c2: PlayCommand,
)
    requires
        after.len() == before.len(),
        forall|i: int|
            0 <= i < before.len() ==> (#[trigger] after[i]).bind == activated_bind(before[i]),
        evolved.len() == after.len(),
        forall|i: int|
            0 <= i < after.len() ==> (#[trigger] evolved[i]).bind == resolved_bind(
                nodes,
                after[i],
            ),
        before.len() <= usize::MAX as int,
        play_stream(before, before.len() as int).contains(c1),
        play_stream(evolved, evolved.len() as int).contains(c2),
    ensures
        c1.actor != c2.actor,
{
    lemma_play_stream_membership(before, before.len() as int, c1);
    lemma_play_stream_membership(evolved, evolved.len() as int, c2);
    let i = c1.actor as int;
    let j = c2.actor as int;
    assert(before[i].bind is Bound);
    assert(evolved[j].bind is Bound);
    assert(after[j].bind == activated_bind(before[j]));
    assert(evolved[j].bind == resolved_bind(nodes, after[j]));
    if i == j {
        assert(after[i].bind is Activated);
        assert(!(resolved_bind(nodes, after[i]) is Bound));
        assert(false);
    }
}

} // verus!
