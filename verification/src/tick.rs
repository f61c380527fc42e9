//! One gameplay tick: the four systems composed in their frame order.
//!
//! Input events are sampled once and handed in; the camera input map runs
//! first, then the follow step, then subject motion (which reads the camera
//! state produced this tick), then the binding resolver and the one-shot
//! activation, the mount-height correction, the collision spawn pass, and
//! the projectile launch. The whole tick is specified as one mathematical
//! function of the starting store and the inputs, so laws about repeated
//! ticks are statements about that function alone.

use vstd::prelude::*;

use crate::activation::{
    activated_bind, play_stream, setup_scene_once_loaded, PlayCommand,
};
use crate::camera::{
    camera_input_map, deltas_sum, follow_cam, look_at_character, orbit_event, pan_event,
    ControlEvents, DELTA_COUNT_LIMIT, DELTA_LIMIT,
};
use crate::fixed::{bounded2, bounded3, Fx2, Fx3, V3};
use crate::motion::{move_character, move_character_spec, KeyState, DT_LIMIT};
use crate::resolver::{resolved_bind, setup_helpers};
use crate::spawn::{
    detect_projectile_collision, launch_projectile, launch_spec, projectile_actor, spawned_actors,
    CollisionEvent, ProjectileSpawn, PROJECTILE_RADIUS,
};
use crate::world::{
    hacky_height_fix, height_fix_y_upto, the_character, ActorV, CameraRigV, SceneNodeV, World,
    WorldV, POS_LIMIT,
};

verus! {

/// Headroom the tick asks of every actor position, so one tick of motion
/// and spawning stays inside the well-formed range.
pub const TICK_MARGIN: i64 = 3000;

/// Everything the collaborators sampled for one tick.
pub struct TickInput {
    pub mouse_deltas: Vec<Fx2>,
    pub pan_held: bool,
    pub keys: KeyState,
    pub fire_pressed: bool,
    pub dt: i64,
    pub collisions: Vec<CollisionEvent>,
    /// Whether the physics collaborator moved the subject since last tick.
    pub subject_externally_moved: bool,
}

/// Everything one tick hands back to the collaborators.
pub struct TickOutput {
    pub control: ControlEvents,
    pub plays: Vec<PlayCommand>,
    pub spawned_monsters: usize,
    pub projectile: Option<ProjectileSpawn>,
}

/// The follow step runs when a subject exists and moved last tick.
pub open spec fn follow_gate(w: WorldV) -> bool {
    the_character(w.actors) is Some && w.subject_changed
}

/// Motion runs when a subject and exactly one camera exist and the subject
/// moved last tick.
pub open spec fn move_gate(w: WorldV) -> bool {
    the_character(w.actors) is Some && w.cameras.len() == 1 && w.subject_changed
}

/// Camera list after the follow step.
pub open spec fn cams_after_follow(w: WorldV) -> Seq<CameraRigV> {
    if follow_gate(w) {
        Seq::new(
            w.cameras.len(),
            |i: int|
                follow_cam(
                    w.cameras[i],
                    w.actors[the_character(w.actors)->Some_0].transform.pos,
                ),
        )
    } else {
        w.cameras
    }
}

/// Actor store after the motion step.
pub open spec fn actors_after_motion(w: WorldV, keys: KeyState, dt: int) -> Seq<ActorV> {
    if move_gate(w) {
        let s = the_character(w.actors)->Some_0;
        w.actors.update(
            s,
            ActorV {
                transform: move_character_spec(
                    w.actors[s].transform,
                    cams_after_follow(w)[0].look,
                    keys,
                    dt,
                ),
                ..w.actors[s]
            },
        )
    } else {
        w.actors
    }
}

/// Actor store after the resolver pass.
pub open spec fn actors_resolved(nodes: Seq<SceneNodeV>, actors: Seq<ActorV>) -> Seq<ActorV> {
    Seq::new(actors.len(), |a: int| ActorV { bind: resolved_bind(nodes, actors[a]), ..actors[a] })
}

/// Actor store after the activation pass.
pub open spec fn actors_activated(actors: Seq<ActorV>) -> Seq<ActorV> {
    Seq::new(actors.len(), |a: int| ActorV { bind: activated_bind(actors[a]), ..actors[a] })
}

/// Actor store after the mount-height pass drops satisfied flags.
pub open spec fn actors_heightfix(w: WorldV) -> Seq<ActorV> {
    Seq::new(
        w.actors.len(),
        |a: int|
            ActorV {
                needs_height_fix: w.actors[a].needs_height_fix && !((w.actors[a].is_character
                    || w.actors[a].is_monster) && w.actors[a].kids.len() > 0),
                ..w.actors[a]
            },
    )
}

/// Node arena after the mount-height pass pins offsets.
pub open spec fn nodes_heightfix(w: WorldV) -> Seq<SceneNodeV> {
    Seq::new(
        w.nodes.len(),
        |m: int|
            SceneNodeV {
                y_offset: height_fix_y_upto(w, m, w.actors.len() as int),
                ..w.nodes[m]
            },
    )
}

/// The store midway through the tick, after motion, binding and the height
/// pass, before spawning.
pub open spec fn mid_world(w: WorldV, keys: KeyState, dt: int) -> WorldV {
    let c1 = cams_after_follow(w);
    let a1 = actors_after_motion(w, keys, dt);
    let a3 = actors_activated(actors_resolved(w.nodes, a1));
    WorldV { actors: a3, nodes: w.nodes, cameras: c1, subject_changed: w.subject_changed }
}

/// The projectile a tick launches, if any.
pub open spec fn tick_launch(w: WorldV, keys: KeyState, dt: int, collisions: Seq<CollisionEvent>, fire: bool) -> Option<
    (V3, V3),
> {
    let w3 = mid_world(w, keys, dt);
    let a4 = actors_heightfix(w3);
    let a5 = a4 + spawned_actors(a4, collisions, collisions.len() as int);
    if fire && cams_after_follow(w).len() == 1 && the_character(a5) is Some {
        launch_spec(a5[the_character(a5)->Some_0].transform.pos, cams_after_follow(w)[0])
    } else {
        None
    }
}

/// The store one whole tick leaves behind.
pub open spec fn tick_spec(
    w: WorldV,
    keys: KeyState,
    dt: int,
    collisions: Seq<CollisionEvent>,
    fire: bool,
    external: bool,
) -> WorldV {
    let c1 = cams_after_follow(w);
    let a1 = actors_after_motion(w, keys, dt);
    let w3 = mid_world(w, keys, dt);
    let a4 = actors_heightfix(w3);
    let n4 = nodes_heightfix(w3);
    let a5 = a4 + spawned_actors(a4, collisions, collisions.len() as int);
    let a6 = match tick_launch(w, keys, dt, collisions, fire) {
        Some((p, _v)) => a5.push(projectile_actor(p)),
        None => a5,
    };
    let s = the_character(w.actors)->Some_0;
    let changed = (move_gate(w) && a1[s].transform != w.actors[s].transform) || external;
    WorldV { actors: a6, nodes: n4, cameras: c1, subject_changed: changed }
}

/// What the tick asks of its inputs: bounded deltas, a bounded tick size,
/// and collision handles that point into the store.
pub open spec fn input_ok(w: WorldV, input: TickInput) -> bool {
    &&& forall|i: int|
        0 <= i < input.mouse_deltas@.len() ==> bounded2(
            (#[trigger] input.mouse_deltas@[i])@,
            DELTA_LIMIT as int,
        )
    &&& input.mouse_deltas@.len() <= DELTA_COUNT_LIMIT
    &&& 0 <= input.dt <= DT_LIMIT
    &&& forall|i: int|
        0 <= i < input.collisions@.len() ==> (#[trigger] input.collisions@[i]).a < w.actors.len()
            && input.collisions@[i].b < w.actors.len()
}

/// Every actor stands clear of the coordinate bound by one tick's margin.
pub open spec fn world_headroom(w: WorldV) -> bool {
    forall|a: int|
        0 <= a < w.actors.len() ==> bounded3(
            (#[trigger] w.actors[a]).transform.pos,
            POS_LIMIT as int - TICK_MARGIN as int,
        )
}

/// Input mapping, follow and motion: the tick's front half.
fn tick_front(w: &mut World, input: &TickInput) -> (r: (ControlEvents, bool))
    requires
        crate::world::world_wf(old(w)@),
        world_headroom(old(w)@),
        input_ok(old(w)@, *input),
    ensures
        crate::world::world_wf(final(w)@),
        final(w)@.actors == actors_after_motion(old(w)@, input.keys, input.dt as int),
        final(w)@.actors.len() == old(w)@.actors.len(),
        final(w)@.nodes == old(w)@.nodes,
        final(w)@.cameras == cams_after_follow(old(w)@),
        final(w).subject_changed == old(w).subject_changed,
        (match r.0.orbit {
            Some(v) => orbit_event(
                old(w)@.cameras,
                deltas_sum(input.mouse_deltas@, input.mouse_deltas@.len() as int),
            ) == Some(v@),
            None => orbit_event(
                old(w)@.cameras,
                deltas_sum(input.mouse_deltas@, input.mouse_deltas@.len() as int),
            ) is None,
        }),
        (match r.0.pan {
            Some(v) => pan_event(
                old(w)@.cameras,
                deltas_sum(input.mouse_deltas@, input.mouse_deltas@.len() as int),
                input.pan_held,
            ) == Some(v@),
            None => pan_event(
                old(w)@.cameras,
                deltas_sum(input.mouse_deltas@, input.mouse_deltas@.len() as int),
                input.pan_held,
            ) is None,
        }),
        r.1 == (move_gate(old(w)@) && actors_after_motion(
            old(w)@,
            input.keys,
            input.dt as int,
        )[the_character(old(w)@.actors)->Some_0].transform != old(w)@.actors[the_character(
            old(w)@.actors,
        )->Some_0].transform),
        forall|a: int|
            0 <= a < final(w)@.actors.len() ==> bounded3(
                (#[trigger] final(w)@.actors[a]).transform.pos,
                POS_LIMIT as int - crate::spawn::LAUNCH_LEAD as int,
            ),
{
    let ghost w0 = old(w)@;
    proof {
        assert forall|i: int|
            0 <= i < crate::world::view_cameras(w.cameras@).len() implies -crate::world::SENS_LIMIT as int
            <= (#[trigger] crate::world::view_cameras(
            w.cameras@,
        )[i]).ctl.mouse_rotate_sensitivity <= crate::world::SENS_LIMIT as int
            && -crate::world::SENS_LIMIT as int <= crate::world::view_cameras(
            w.cameras@,
        )[i].ctl.mouse_translate_sensitivity <= crate::world::SENS_LIMIT as int by {
            assert(crate::world::view_cameras(w.cameras@)[i] == w0.cameras[i]);
            assert(bounded3(w0.cameras[i].look.eye, crate::world::CAM_LIMIT as int));
        }
    }
    let control = camera_input_map(&w.cameras, &input.mouse_deltas, input.pan_held);
    let subject = crate::world::get_single_character(&w.actors);
    let (present, subject_pos) = match subject {
        Some(i) => {
            proof {
                assert(crate::world::view_actors(w.actors@)[i as int] == w.actors@[i as int]@);
            }
            (true, w.actors[i].transform.pos)
        },
        None => (false, Fx3 { x: 0, y: 0, z: 0 }),
    };
    proof {
        assert(bounded3(subject_pos@, POS_LIMIT as int)) by {
            if subject is Some {
                assert(bounded3(
                    w0.actors[subject->Some_0 as int].transform.pos,
                    POS_LIMIT as int - TICK_MARGIN as int,
                ));
            }
        }
        assert forall|i: int|
            0 <= i < crate::world::view_cameras(w.cameras@).len() implies bounded3(
            (#[trigger] crate::world::view_cameras(w.cameras@)[i]).look.eye,
            crate::world::CAM_LIMIT as int,
        ) && bounded3(
            crate::world::view_cameras(w.cameras@)[i].look.target,
            crate::world::CAM_LIMIT as int,
        ) by {
            assert(crate::world::view_cameras(w.cameras@)[i] == w0.cameras[i]);
        }
    }
    look_at_character(&mut w.cameras, subject_pos, present, w.subject_changed);
    proof {
        assert(crate::world::view_cameras(w.cameras@) =~= cams_after_follow(w0));
        assert(crate::world::world_wf(w@)) by {
            assert(w@.nodes =~= w0.nodes);
            assert forall|a: int|
                0 <= a < w@.actors.len() implies #[trigger] w@.actors[a] == w0.actors[a] by {
                assert(w@.actors[a] == crate::world::view_actors(w.actors@)[a]);
            }
            assert forall|c: int|
                0 <= c < w@.cameras.len() implies bounded3(
                (#[trigger] w@.cameras[c]).look.eye,
                crate::world::CAM_LIMIT as int,
            ) && bounded3(w@.cameras[c].look.target, crate::world::CAM_LIMIT as int)
                && -crate::world::SENS_LIMIT as int <= w@.cameras[c].ctl.mouse_rotate_sensitivity
                <= crate::world::SENS_LIMIT as int && -crate::world::SENS_LIMIT as int
                <= w@.cameras[c].ctl.mouse_translate_sensitivity <= crate::world::SENS_LIMIT as int by {
                assert(w@.cameras[c] == crate::world::view_cameras(w.cameras@)[c]);
                if follow_gate(w0) {
                    assert(w@.cameras[c].ctl == w0.cameras[c].ctl);
                }
            }
        }
    }
    let mut moved = false;
    if let Some(s) = subject {
        if w.cameras.len() == 1 && w.subject_changed {
            proof {
                assert(crate::world::view_cameras(w.cameras@)[0] == w.cameras@[0]@);
                assert(crate::world::view_actors(w.actors@)[s as int] == w.actors@[s as int]@);
            }
            let t1 = move_character(&w.actors[s].transform, &w.cameras[0].look, input.keys, input.dt);
            moved = t1 != w.actors[s].transform;
            w.actors[s].transform = t1;
            proof {
                assert(crate::world::view_actors(w.actors@) =~= actors_after_motion(
                    w0,
                    input.keys,
                    input.dt as int,
                ));
            }
        }
    }
    proof {
        assert(crate::world::view_actors(w.actors@) =~= actors_after_motion(
            w0,
            input.keys,
            input.dt as int,
        ));
        assert forall|a: int|
            0 <= a < w@.actors.len() implies bounded3(
            (#[trigger] w@.actors[a]).transform.pos,
            POS_LIMIT as int - crate::spawn::LAUNCH_LEAD as int,
        ) by {
            assert(w@.actors[a] == crate::world::view_actors(w.actors@)[a]);
            assert(bounded3(
                w0.actors[a].transform.pos,
                POS_LIMIT as int - TICK_MARGIN as int,
            ));
        }
        assert(crate::world::world_wf(w@)) by {
            assert forall|a: int|
                0 <= a < w@.actors.len() implies crate::world::transform_bounded(
                (#[trigger] w@.actors[a]).transform,
            ) && (match w@.actors[a].bind {
                crate::world::BindPhase::Bound(p) => p < w@.nodes.len(),
                crate::world::BindPhase::Activated(p) => p < w@.nodes.len(),
                _ => true,
            }) by {
                assert(w@.actors[a] == crate::world::view_actors(w.actors@)[a]);
            }
            assert forall|a: int, j: int|
                0 <= a < w@.actors.len() && 0 <= j < w@.actors[a].kids.len() implies #[trigger] w@.actors[a].kids[j]
                < w@.nodes.len() by {
                assert(w@.actors[a].kids == w0.actors[a].kids);
            }
            assert forall|a1: int, j1: int, a2: int, j2: int|
                0 <= a1 < w@.actors.len() && 0 <= j1 < w@.actors[a1].kids.len() && 0 <= a2
                < w@.actors.len() && 0 <= j2 < w@.actors[a2].kids.len() && a1 != a2 implies #[trigger] w@.actors[a1].kids[j1]
                != #[trigger] w@.actors[a2].kids[j2] by {
                assert(w@.actors[a1].kids == w0.actors[a1].kids);
                assert(w@.actors[a2].kids == w0.actors[a2].kids);
            }
        }
    }
    (control, moved)
}

/// Run one whole gameplay tick over the store.
#[verifier::rlimit(100)]
pub fn tick(w: &mut World, input: &TickInput) -> (out: TickOutput)
    requires
        crate::world::world_wf(old(w)@),
        world_headroom(old(w)@),
        input_ok(old(w)@, *input),
    ensures
        final(w)@ == tick_spec(
            old(w)@,
            input.keys,
            input.dt as int,
            input.collisions@,
            input.fire_pressed,
            input.subject_externally_moved,
        ),
        crate::world::world_wf(final(w)@),
        (match out.control.orbit {
            Some(v) => orbit_event(
                old(w)@.cameras,
                deltas_sum(input.mouse_deltas@, input.mouse_deltas@.len() as int),
            ) == Some(v@),
            None => orbit_event(
                old(w)@.cameras,
                deltas_sum(input.mouse_deltas@, input.mouse_deltas@.len() as int),
            ) is None,
        }),
        (match out.control.pan {
            Some(v) => pan_event(
                old(w)@.cameras,
                deltas_sum(input.mouse_deltas@, input.mouse_deltas@.len() as int),
                input.pan_held,
            ) == Some(v@),
            None => pan_event(
                old(w)@.cameras,
                deltas_sum(input.mouse_deltas@, input.mouse_deltas@.len() as int),
                input.pan_held,
            ) is None,
        }),
        out.plays@ == play_stream(
            actors_resolved(
                old(w)@.nodes,
                actors_after_motion(old(w)@, input.keys, input.dt as int),
            ),
            old(w)@.actors.len() as int,
        ),
        out.spawned_monsters == spawned_actors(
            actors_heightfix(mid_world(old(w)@, input.keys, input.dt as int)),
            input.collisions@,
            input.collisions@.len() as int,
        ).len(),
        (match out.projectile {
            Some(ps) => tick_launch(
                old(w)@,
                input.keys,
                input.dt as int,
                input.collisions@,
                input.fire_pressed,
            ) == Some((ps.position@, ps.velocity@)) && ps.radius == PROJECTILE_RADIUS,
            None => tick_launch(
                old(w)@,
                input.keys,
                input.dt as int,
                input.collisions@,
                input.fire_pressed,
            ) is None,
        }),
{
    let ghost w0 = old(w)@;
    let front = tick_front(w, input);
    let control = front.0;
    let moved = front.1;
    let ghost a1 = crate::world::view_actors(w.actors@);
    setup_helpers(w);
    proof {
        assert(crate::world::view_actors(w.actors@) =~= actors_resolved(w0.nodes, a1));
    }
    let plays = setup_scene_once_loaded(w);
    proof {
        assert(a1 == actors_after_motion(w0, input.keys, input.dt as int));
        assert(a1.len() == w0.actors.len());
        assert(actors_resolved(w0.nodes, a1).len() == w0.actors.len());
        assert(plays@ == play_stream(
            actors_resolved(w0.nodes, actors_after_motion(w0, input.keys, input.dt as int)),
            w0.actors.len() as int,
        ));
        assert(crate::world::view_actors(w.actors@) =~= actors_activated(
            actors_resolved(w0.nodes, a1),
        ));
        assert(w@ =~= mid_world(w0, input.keys, input.dt as int));
    }
    hacky_height_fix(w);
    proof {
        assert(crate::world::view_actors(w.actors@) =~= actors_heightfix(
            mid_world(w0, input.keys, input.dt as int),
        ));
        assert(crate::world::view_nodes(w.nodes@) =~= nodes_heightfix(
            mid_world(w0, input.keys, input.dt as int),
        ));
    }
    proof {
        let w3 = mid_world(w0, input.keys, input.dt as int);
        assert(crate::world::view_actors(w.actors@).len() == actors_heightfix(w3).len());
        assert(actors_heightfix(w3).len() == w3.actors.len());
        assert(w3.actors.len() == actors_after_motion(w0, input.keys, input.dt as int).len());
        assert(actors_after_motion(w0, input.keys, input.dt as int).len() == w0.actors.len());
        assert forall|i: int|
            0 <= i < input.collisions@.len() implies (#[trigger] input.collisions@[i]).a
            < crate::world::view_actors(w.actors@).len() && input.collisions@[i].b
            < crate::world::view_actors(w.actors@).len() by {
        }
    }
    let spawned = detect_projectile_collision(w, &input.collisions);
    proof {
        let w3 = mid_world(w0, input.keys, input.dt as int);
        assert(spawned_actors(
            actors_heightfix(w3),
            input.collisions@,
            input.collisions@.len() as int,
        ).len() + actors_heightfix(w3).len() == w@.actors.len());
        assert(crate::world::view_actors(w.actors@) =~= actors_heightfix(w3) + spawned_actors(
            actors_heightfix(w3),
            input.collisions@,
            input.collisions@.len() as int,
        ));
        assert forall|a: int|
            0 <= a < w@.actors.len() implies bounded3(
            (#[trigger] w@.actors[a]).transform.pos,
            POS_LIMIT as int - crate::spawn::LAUNCH_LEAD as int,
        ) by {
            let a4 = actors_heightfix(w3);
            if a < a4.len() {
                assert(w@.actors[a] == a4[a]);
                assert(a4[a].transform == w3.actors[a].transform);
                assert(w3.actors[a].transform == actors_activated(
                    actors_resolved(w0.nodes, actors_after_motion(w0, input.keys, input.dt as int)),
                )[a].transform);
                assert(w3.actors[a].transform == actors_after_motion(
                    w0,
                    input.keys,
                    input.dt as int,
                )[a].transform);
            } else {
                crate::spawn::lemma_spawned_shape(
                    a4,
                    input.collisions@,
                    input.collisions@.len() as int,
                    a - a4.len(),
                );
                let d = choose|d: int|
                    0 <= d < a4.len() && spawned_actors(
                        a4,
                        input.collisions@,
                        input.collisions@.len() as int,
                    )[a - a4.len()] == crate::world::monster_actor(a4[d].transform);
                assert(a4[d].transform == actors_after_motion(
                    w0,
                    input.keys,
                    input.dt as int,
                )[d].transform);
            }
        }
    }
    let projectile = launch_projectile(w, input.fire_pressed);
    let ghost wlaunch = w@;
    let changed = moved || input.subject_externally_moved;
    w.subject_changed = changed;
    proof {
        assert(w@.actors == wlaunch.actors && w@.nodes == wlaunch.nodes && w@.cameras
            == wlaunch.cameras);
        assert(crate::world::world_wf(w@)) by {
            assert(crate::world::arena_wf(w@.nodes));
            assert(crate::world::actor_kids_wf(w@)) by {
                assert forall|a: int, j: int|
                    0 <= a < w@.actors.len() && 0 <= j < w@.actors[a].kids.len() implies #[trigger] w@.actors[a].kids[j]
                    < w@.nodes.len() by {
                    assert(w@.actors[a] == wlaunch.actors[a]);
                }
            }
            assert(crate::world::kids_disjoint(w@)) by {
                assert forall|a1: int, j1: int, a2: int, j2: int|
                    0 <= a1 < w@.actors.len() && 0 <= j1 < w@.actors[a1].kids.len() && 0 <= a2
                    < w@.actors.len() && 0 <= j2 < w@.actors[a2].kids.len() && a1 != a2 implies #[trigger] w@.actors[a1].kids[j1]
                    != #[trigger] w@.actors[a2].kids[j2] by {
                    assert(w@.actors[a1] == wlaunch.actors[a1]);
                    assert(w@.actors[a2] == wlaunch.actors[a2]);
                }
            }
            assert(crate::world::bind_wf(w@)) by {
                assert forall|a: int|
                    0 <= a < w@.actors.len() implies (match #[trigger] w@.actors[a].bind {
                    crate::world::BindPhase::Bound(p) => p < w@.nodes.len(),
                    crate::world::BindPhase::Activated(p) => p < w@.nodes.len(),
                    _ => true,
                }) by {
                    assert(w@.actors[a] == wlaunch.actors[a]);
                }
            }
            assert(crate::world::geometry_wf(w@)) by {
                assert forall|a: int|
                    0 <= a < w@.actors.len() implies crate::world::transform_bounded(
                    (#[trigger] w@.actors[a]).transform,
                ) by {
                    assert(w@.actors[a] == wlaunch.actors[a]);
                }
                assert forall|c: int|
                    0 <= c < w@.cameras.len() implies bounded3(
                    (#[trigger] w@.cameras[c]).look.eye,
                    crate::world::CAM_LIMIT as int,
                ) && bounded3(w@.cameras[c].look.target, crate::world::CAM_LIMIT as int)
                    && -crate::world::SENS_LIMIT as int
                    <= w@.cameras[c].ctl.mouse_rotate_sensitivity <= crate::world::SENS_LIMIT as int
                    && -crate::world::SENS_LIMIT as int
                    <= w@.cameras[c].ctl.mouse_translate_sensitivity
                    <= crate::world::SENS_LIMIT as int by {
                    assert(w@.cameras[c] == wlaunch.cameras[c]);
                    assert(bounded3(wlaunch.cameras[c].look.eye, crate::world::CAM_LIMIT as int));
                }
            }
        }
        assert(w@ =~= tick_spec(
            w0,
            input.keys,
            input.dt as int,
            input.collisions@,
            input.fire_pressed,
            input.subject_externally_moved,
        ));
    }
    TickOutput { control, plays, spawned_monsters: spawned, projectile }
}

/// Idempotent idle: while the subject did not move last tick, a tick with
/// no collision events, no fire press and no external motion leaves every
/// actor's transform, every camera, and the settled flag itself unchanged —
/// so by induction any number of such ticks changes no transform at all.
pub proof fn lemma_idle_tick(
    w: WorldV,
    keys: KeyState,
    dt: int,
    collisions: Seq<CollisionEvent>,
    external: bool,
)
    requires
        !w.subject_changed,
        collisions.len() == 0,
        !external,
    ensures
        tick_spec(w, keys, dt, collisions, false, external).cameras == w.cameras,
        tick_spec(w, keys, dt, collisions, false, external).actors.len() == w.actors.len(),
        forall|a: int|
            0 <= a < w.actors.len() ==> (#[trigger] tick_spec(
                w,
                keys,
                dt,
                collisions,
                false,
                external,
            ).actors[a]).transform == w.actors[a].transform,
        !tick_spec(w, keys, dt, collisions, false, external).subject_changed,
{
    let w3 = mid_world(w, keys, dt);
    let a4 = actors_heightfix(w3);
    let sp = spawned_actors(a4, collisions, collisions.len() as int);
    assert(sp =~= Seq::<ActorV>::empty());
    let a5 = a4 + sp;
    assert(a5 =~= a4);
    assert(tick_launch(w, keys, dt, collisions, false) is None);
    assert forall|a: int|
        0 <= a < w.actors.len() implies (#[trigger] tick_spec(
        w,
        keys,
        dt,
        collisions,
        false,
        external,
    ).actors[a]).transform == w.actors[a].transform by {
        assert(actors_after_motion(w, keys, dt) == w.actors);
        assert(actors_resolved(w.nodes, w.actors)[a].transform == w.actors[a].transform);
        assert(w3.actors[a].transform == w.actors[a].transform);
        assert(a4[a].transform == w.actors[a].transform);
        assert(tick_spec(w, keys, dt, collisions, false, external).actors[a] == a5[a]);
    }
}

/// The store after `n` settled idle ticks in a row.
pub open spec fn idle_ticks(w: WorldV, keys: KeyState, dt: int, n: nat) -> WorldV
    decreases n,
{
    if n == 0 {
        w
    } else {
        tick_spec(idle_ticks(w, keys, dt, (n - 1) as nat), keys, dt, Seq::empty(), false, false)
    }
}

/// Any number of idle ticks moves nothing: transforms and cameras after `n`
/// ticks equal those before the first.
pub proof fn lemma_idle_many_ticks(w: WorldV, keys: KeyState, dt: int, n: nat)
    requires
        !w.subject_changed,
    ensures
        idle_ticks(w, keys, dt, n).cameras == w.cameras,
        idle_ticks(w, keys, dt, n).actors.len() == w.actors.len(),
        forall|a: int|
            0 <= a < w.actors.len() ==> (#[trigger] idle_ticks(w, keys, dt, n).actors[a]).transform
                == w.actors[a].transform,
        !idle_ticks(w, keys, dt, n).subject_changed,
    decreases n,
{
    if n > 0 {
        lemma_idle_many_ticks(w, keys, dt, (n - 1) as nat);
        lemma_idle_tick(idle_ticks(w, keys, dt, (n - 1) as nat), keys, dt, Seq::empty(), false);
    }
}

} // verus!
