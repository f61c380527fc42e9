//! Collision-triggered spawning and projectile launching.
//!
//! For every "contact started" event of the tick whose two participants can
//! be read as one hit-detecting actor and one projectile — either
//! assignment, detector tried on the first participant before the second —
//! exactly one new hostile actor is spawned at the detector's pose. Events
//! with the wrong tags, and every "contact ended" event, are ignored without
//! error, and nothing deduplicates several qualifying events of one tick.
//! Launching spawns a projectile actor ahead of the character along the
//! camera's view line, with its velocity on the same line, once per
//! edge-triggered fire press — skipped while eye and aim target coincide.

use vstd::prelude::*;

use crate::fixed::{
    add3, bounded3, is_zero3, normalize3, scale3, sub3, add3v, lemma_unit_scale_bounded, scale3v,
    sub3v, unit3v, Fx2, Fx3, V2, V3, SCALE,
};
use crate::world::{
    monster_actor, spawn_monster, the_character, view_actors, view_cameras, world_wf, Actor,
    ActorV, BindPhase, CameraRigV, Transform, TransformV, World, CAM_LIMIT, POS_LIMIT,
};

verus! {

/// One physics contact report: two actor handles and the transition kind.
#[derive(Clone, Copy, PartialEq, Eq, Structural, Debug)]
pub struct CollisionEvent {
    pub a: usize,
    pub b: usize,
    pub started: bool,
}

/// Speed of a launched projectile along the view line, in fixed units.
pub const LAUNCH_SPEED: i64 = 200_000;

/// How far ahead of the character a projectile appears, in fixed units.
pub const LAUNCH_LEAD: i64 = 2000;

/// Radius of a launched projectile, in fixed units.
pub const PROJECTILE_RADIUS: i64 = 500;

/// A projectile to hand to the physics collaborator.
#[derive(Clone, Copy, PartialEq, Eq, Structural, Debug)]
pub struct ProjectileSpawn {
    pub position: Fx3,
    pub velocity: Fx3,
    pub radius: i64,
}

/// The participant read as the detector: the first one carrying the
/// hit-detection tag, trying `a` before `b`.
pub open spec fn pick_detector(actors: Seq<ActorV>, e: CollisionEvent) -> Option<usize> {
    if actors[e.a as int].has_hit_detection {
        Some(e.a)
    } else if actors[e.b as int].has_hit_detection {
        Some(e.b)
    } else {
        None
    }
}

/// The participant read as the projectile, trying `a` before `b`.
pub open spec fn pick_projectile(actors: Seq<ActorV>, e: CollisionEvent) -> Option<usize> {
    if actors[e.a as int].is_projectile {
        Some(e.a)
    } else if actors[e.b as int].is_projectile {
        Some(e.b)
    } else {
        None
    }
}

/// Whether an event spawns a hostile: contact started, with a readable
/// detector/projectile pairing.
pub open spec fn qualifying(actors: Seq<ActorV>, e: CollisionEvent) -> bool {
    e.started && pick_detector(actors, e) is Some && pick_projectile(actors, e) is Some
}

/// The hostiles spawned by the first `upto` events, in event order, each at
/// its detector's pose. Membership is judged against the store as it stood
/// when the tick began: spawns of this tick do not see each other.
pub open spec fn spawned_actors(actors: Seq<ActorV>, events: Seq<CollisionEvent>, upto: int) -> Seq<
    ActorV,
>
    decreases upto,
{
    if upto <= 0 {
        Seq::empty()
    } else {
        spawned_actors(actors, events, upto - 1) + (if qualifying(actors, events[upto - 1]) {
            seq![
                monster_actor(
                    actors[pick_detector(actors, events[upto - 1])->Some_0 as int].transform,
                ),
            ]
        } else {
            Seq::empty()
        })
    }
}

/// Spawn correctness, event by event: one started event with a valid
/// pairing spawns exactly one hostile at the detector's pose; an event with
/// the wrong tags, or a contact-ended event, spawns none.
pub proof fn lemma_spawn_correctness(actors: Seq<ActorV>, e: CollisionEvent)
    ensures
        qualifying(actors, e) ==> spawned_actors(actors, seq![e], 1) =~= seq![
            monster_actor(actors[pick_detector(actors, e)->Some_0 as int].transform),
        ],
        !e.started ==> spawned_actors(actors, seq![e], 1) =~= Seq::<ActorV>::empty(),
        !(qualifying(actors, e)) ==> spawned_actors(actors, seq![e], 1) =~= Seq::<ActorV>::empty(),
{
    assert(spawned_actors(actors, seq![e], 0) =~= Seq::<ActorV>::empty());
    assert(seq![e][0] == e);
}

/// Collision reaction: consume the tick's event stream once and spawn one
/// hostile per qualifying started event. Returns how many were spawned.
pub fn detect_projectile_collision(w: &mut World, events: &Vec<CollisionEvent>) -> (spawned: usize)
    requires
        world_wf(old(w)@),
        forall|i: int|
            0 <= i < events@.len() ==> (#[trigger] events@[i]).a < old(w)@.actors.len()
                && events@[i].b < old(w)@.actors.len(),
    ensures
        final(w)@.actors == old(w)@.actors + spawned_actors(
            old(w)@.actors,
            events@,
            events@.len() as int,
        ),
        spawned == spawned_actors(old(w)@.actors, events@, events@.len() as int).len(),
        final(w)@.nodes == old(w)@.nodes,
        final(w)@.cameras == old(w)@.cameras,
        final(w).subject_changed == old(w).subject_changed,
        world_wf(final(w)@),
{
    let ghost base = old(w)@.actors;
    let n0 = w.actors.len();
    let mut spawned: usize = 0;
    let mut i: usize = 0;
    while i < events.len()
        invariant
            0 <= i <= events@.len(),
            world_wf(old(w)@),
            n0 == old(w)@.actors.len(),
            base == old(w)@.actors,
            forall|j: int|
                0 <= j < events@.len() ==> (#[trigger] events@[j]).a < n0 && events@[j].b < n0,
            view_actors(w.actors@) == base + spawned_actors(base, events@, i as int),
            spawned == spawned_actors(base, events@, i as int).len(),
            spawned <= i,
            w.nodes@ == old(w).nodes@,
            w.cameras@ == old(w).cameras@,
            w.subject_changed == old(w).subject_changed,
        decreases events@.len() - i,
    {
        let e = events[i];
        proof {
            assert(e.a < n0 && e.b < n0);
            assert(view_actors(w.actors@) == base + spawned_actors(base, events@, i as int));
            assert(view_actors(w.actors@).len() == w.actors@.len());
            assert(view_actors(w.actors@).len() == base.len() + spawned_actors(
                base,
                events@,
                i as int,
            ).len());
            assert((base + spawned_actors(base, events@, i as int))[e.a as int] == base[e.a as int]);
            assert((base + spawned_actors(base, events@, i as int))[e.b as int] == base[e.b as int]);
            assert(view_actors(w.actors@)[e.a as int] == w.actors@[e.a as int]@);
            assert(view_actors(w.actors@)[e.b as int] == w.actors@[e.b as int]@);
        }
        if e.started {
            let det = if w.actors[e.a].has_hit_detection {
                Some(e.a)
            } else if w.actors[e.b].has_hit_detection {
                Some(e.b)
            } else {
                None
            };
            let proj_found = if w.actors[e.a].is_projectile {
                true
            } else {
                w.actors[e.b].is_projectile
            };
            if let Some(d) = det {
                if proj_found {
                    let pose = w.actors[d].transform;
                    proof {
                        assert(view_actors(w.actors@)[d as int] == w.actors@[d as int]@);
                        assert((base + spawned_actors(base, events@, i as int))[d as int]
                            == base[d as int]);
                        assert(pose@ == base[d as int].transform);
                    }
                    spawn_monster(pose, &mut w.actors);
                    spawned = spawned + 1;
                    proof {
                        assert(view_actors(w.actors@) =~= base + spawned_actors(
                            base,
                            events@,
                            i as int + 1,
                        ));
                    }
                }
            }
        }
        proof {
            assert(view_actors(w.actors@) =~= base + spawned_actors(base, events@, i as int + 1));
        }
        i = i + 1;
    }
    proof {
        assert(w@.nodes =~= old(w)@.nodes);
        assert(w@.cameras =~= old(w)@.cameras);
        assert(world_wf(w@)) by {
            let fin = view_actors(w.actors@);
            let spawn = spawned_actors(base, events@, events@.len() as int);
            assert forall|x: int| 0 <= x < fin.len() implies (#[trigger] fin[x]).kids.len() == 0
                || x < base.len() by {
                if x >= base.len() {
                    lemma_spawned_shape(base, events@, events@.len() as int, x - base.len());
                }
            }
            assert forall|x: int|
                0 <= x < fin.len() implies crate::world::transform_bounded(
                (#[trigger] fin[x]).transform,
            ) && (match fin[x].bind {
                BindPhase::Bound(p) => p < w@.nodes.len(),
                BindPhase::Activated(p) => p < w@.nodes.len(),
                _ => true,
            }) && fin[x].kids.len() == 0 || x < base.len() by {
                if x >= base.len() {
                    lemma_spawned_shape(base, events@, events@.len() as int, x - base.len());
                }
            }
        }
    }
    spawned
}

/// Every spawned hostile has the shape `monster_actor` gives: empty subtree,
/// needs binding, and a pose taken from some detector in the old store.
pub proof fn lemma_spawned_shape(
    actors: Seq<ActorV>,
    events: Seq<CollisionEvent>,
    upto: int,
    k: int,
)
    requires
        0 <= k < spawned_actors(actors, events, upto).len(),
        upto <= events.len(),
        forall|j: int|
            0 <= j < events.len() ==> (#[trigger] events[j]).a < actors.len() && events[j].b
                < actors.len(),
    ensures
        exists|d: int|
            0 <= d < actors.len() && spawned_actors(actors, events, upto)[k] == monster_actor(
                actors[d].transform,
            ),
    decreases upto,
{
    if upto > 0 {
        let prev = spawned_actors(actors, events, upto - 1);
        if k < prev.len() {
            lemma_spawned_shape(actors, events, upto - 1, k);
            let d = choose|d: int|
                0 <= d < actors.len() && prev[k] == monster_actor(actors[d].transform);
            assert(spawned_actors(actors, events, upto)[k] == prev[k]);
            assert(spawned_actors(actors, events, upto)[k] == monster_actor(actors[d].transform));
        } else {
            let e = events[upto - 1];
            assert(qualifying(actors, e));
            let d = pick_detector(actors, e)->Some_0 as int;
            assert(d == e.a as int || d == e.b as int);
            assert(spawned_actors(actors, events, upto)[k] == seq![
                monster_actor(actors[d].transform),
            ][k - prev.len()]);
            assert(0 <= d < actors.len() && spawned_actors(actors, events, upto)[k]
                == monster_actor(actors[d].transform));
        }
    }
}

/// The projectile actor a launch adds to the store.
pub open spec fn projectile_actor(pos: V3) -> ActorV {
    ActorV {
        transform: TransformV { pos, facing: V2 { x: 0, y: SCALE as int }, scale: SCALE as int },
        is_character: false,
        is_monster: false,
        is_projectile: true,
        has_hit_detection: false,
        needs_height_fix: false,
        bind: BindPhase::Inert,
        kids: Seq::empty(),
    }
}

/// The spawn a fire press owes: position one lead ahead of the character
/// along the camera's eye-to-target line, velocity on the same line.
pub open spec fn launch_spec(char_pos: V3, cam: CameraRigV) -> Option<(V3, V3)> {
    let aim = sub3v(cam.look.target, cam.look.eye);
    if is_zero3(aim) {
        None
    } else {
        let dir = unit3v(aim);
        Some(
            (
                add3v(char_pos, scale3v(dir, LAUNCH_LEAD as int)),
                scale3v(dir, LAUNCH_SPEED as int),
            ),
        )
    }
}

/// Launch a projectile on an edge-triggered fire press, when exactly one
/// character and exactly one camera exist; skipped otherwise, and skipped
/// when the camera's eye and aim target coincide.
pub fn launch_projectile(w: &mut World, fire_pressed: bool) -> (r: Option<ProjectileSpawn>)
    requires
        world_wf(old(w)@),
        forall|a: int|
            0 <= a < old(w)@.actors.len() ==> bounded3(
                (#[trigger] old(w)@.actors[a]).transform.pos,
                POS_LIMIT as int - LAUNCH_LEAD as int,
            ),
    ensures
        ({
            let launch = if fire_pressed && old(w)@.cameras.len() == 1 && the_character(
                old(w)@.actors,
            ) is Some {
                launch_spec(
                    old(w)@.actors[the_character(old(w)@.actors)->Some_0].transform.pos,
                    old(w)@.cameras[0],
                )
            } else {
                None
            };
            match r {
                Some(ps) => launch == Some((ps.position@, ps.velocity@)) && ps.radius
                    == PROJECTILE_RADIUS && final(w)@.actors == old(w)@.actors.push(
                    projectile_actor(ps.position@),
                ),
                None => launch is None && final(w)@.actors == old(w)@.actors,
            }
        }),
        final(w)@.nodes == old(w)@.nodes,
        final(w)@.cameras == old(w)@.cameras,
        final(w).subject_changed == old(w).subject_changed,
        world_wf(final(w)@),
{
    if !fire_pressed || w.cameras.len() != 1 {
        proof {
            assert(view_actors(w.actors@) =~= old(w)@.actors);
            assert(w@.nodes =~= old(w)@.nodes);
            assert(w@.cameras =~= old(w)@.cameras);
        }
        return None;
    }
    let subject = match crate::world::get_single_character(&w.actors) {
        Some(i) => i,
        None => {
            proof {
                assert(view_actors(w.actors@) =~= old(w)@.actors);
                assert(w@.nodes =~= old(w)@.nodes);
                assert(w@.cameras =~= old(w)@.cameras);
            }
            return None;
        },
    };
    proof {
        assert(view_cameras(w.cameras@)[0] == w.cameras@[0]@);
        assert(view_actors(w.actors@)[subject as int] == w.actors@[subject as int]@);
    }
    let cam = w.cameras[0].look;
    let aim = sub3(cam.target, cam.eye);
    let dir = match normalize3(aim) {
        Some(u) => u,
        None => {
            proof {
                assert(view_actors(w.actors@) =~= old(w)@.actors);
                assert(w@.nodes =~= old(w)@.nodes);
                assert(w@.cameras =~= old(w)@.cameras);
            }
            return None;
        },
    };
    let char_pos = w.actors[subject].transform.pos;
    proof {
        lemma_unit_scale_bounded(aim@, LAUNCH_LEAD as int);
        lemma_unit_scale_bounded(aim@, LAUNCH_SPEED as int);
    }
    let position = add3(char_pos, scale3(dir, LAUNCH_LEAD));
    let velocity = scale3(dir, LAUNCH_SPEED);
    let ghost before = view_actors(w.actors@);
    let actor = Actor {
        transform: Transform {
            pos: position,
            facing: Fx2 { x: 0, y: SCALE },
            scale: SCALE,
        },
        is_character: false,
        is_monster: false,
        is_projectile: true,
        has_hit_detection: false,
        needs_height_fix: false,
        bind: BindPhase::Inert,
        kids: Vec::new(),
    };
    w.actors.push(actor);
    proof {
        assert(before == old(w)@.actors);
        assert(view_cameras(w.cameras@).len() == w.cameras@.len());
        assert(old(w)@.cameras.len() == 1);
        assert(the_character(old(w)@.actors) == Some(subject as int));
        let cam0 = old(w)@.cameras[0];
        assert(cam0 == w.cameras@[0]@);
        assert(cam0.look.target == cam@.target && cam0.look.eye == cam@.eye);
        assert(aim@ == sub3v(cam0.look.target, cam0.look.eye));
        assert(old(w)@.actors[subject as int].transform.pos == char_pos@);
        assert(launch_spec(old(w)@.actors[subject as int].transform.pos, cam0) == Some(
            (position@, velocity@),
        ));
        assert(view_actors(w.actors@) =~= before.push(projectile_actor(position@)));
        assert(w@.nodes =~= old(w)@.nodes);
        assert(w@.cameras =~= old(w)@.cameras);
        assert(world_wf(w@)) by {
            assert forall|x: int|
                0 <= x < view_actors(w.actors@).len() implies crate::world::transform_bounded(
                (#[trigger] view_actors(w.actors@)[x]).transform,
            ) by {
                if x < before.len() {
                    assert(view_actors(w.actors@)[x] == before[x]);
                }
            }
        }
    }
    Some(ProjectileSpawn { position, velocity, radius: PROJECTILE_RADIUS })
}

} // verus!
