use stress_bevy::activation::{setup_scene_once_loaded, ClipId};
use stress_bevy::camera::{camera_input_map, look_at_character, ControlEvents};
use stress_bevy::fixed::{Fx2, Fx3, SCALE};
use stress_bevy::motion::{move_character, KeyState};
use stress_bevy::resolver::{find_animation_player_entity, setup_helpers};
use stress_bevy::spawn::{detect_projectile_collision, launch_projectile, CollisionEvent};
use stress_bevy::tick::{tick, TickInput};
use stress_bevy::world::{
    add_actor_child, add_node_child, hacky_height_fix, setup, spawn_monster, Actor, BindPhase,
    CameraRig, LookCam, OrbitCameraController, Transform, World,
};

fn no_keys() -> KeyState {
    KeyState { forward: false, back: false, right: false, left: false }
}

fn idle_input() -> TickInput {
    TickInput {
        mouse_deltas: vec![],
        pan_held: false,
        keys: no_keys(),
        fire_pressed: false,
        dt: 16,
        collisions: vec![],
        subject_externally_moved: false,
    }
}

fn plain_transform(x: i64, y: i64, z: i64) -> Transform {
    Transform { pos: Fx3 { x, y, z }, facing: Fx2 { x: 0, y: SCALE }, scale: SCALE }
}

fn plain_actor(x: i64, y: i64, z: i64) -> Actor {
    Actor {
        transform: plain_transform(x, y, z),
        is_character: false,
        is_monster: false,
        is_projectile: false,
        has_hit_detection: false,
        needs_height_fix: false,
        bind: BindPhase::Inert,
        kids: vec![],
    }
}

#[test]
fn setup_builds_expected_scene() {
    let w = setup();
    assert_eq!(w.actors.len(), 2);
    assert!(w.actors[0].is_monster && w.actors[0].has_hit_detection);
    assert!(matches!(w.actors[0].bind, BindPhase::NeedsBinding));
    assert_eq!(w.actors[0].transform.pos, Fx3 { x: 2000, y: 2000, z: 2000 });
    assert_eq!(w.actors[0].transform.scale, 1400);
    assert!(w.actors[1].is_character);
    assert_eq!(w.actors[1].transform.pos, Fx3 { x: 10000, y: 200, z: 0 });
    assert_eq!(w.cameras.len(), 1);
    assert!(w.cameras[0].ctl.enabled);
    assert_eq!(w.cameras[0].look.eye, Fx3 { x: -2000, y: 5000, z: 5000 });
    assert!(w.subject_changed);
}

#[test]
fn resolver_waits_for_the_subtree() {
    let mut w = setup();
    setup_helpers(&mut w);
    assert!(matches!(w.actors[0].bind, BindPhase::NeedsBinding));
    assert!(matches!(w.actors[1].bind, BindPhase::NeedsBinding));
}

#[test]
fn resolver_binds_once_the_player_arrives() {
    let mut w = setup();
    let root = add_actor_child(&mut w, 0, false, 0);
    let player = add_node_child(&mut w, root, true, 0);
    setup_helpers(&mut w);
    assert_eq!(w.actors[0].bind, BindPhase::Bound(player));
    // A recorded binding never changes, even if a shallower player appears.
    add_actor_child(&mut w, 0, true, 0);
    setup_helpers(&mut w);
    assert_eq!(w.actors[0].bind, BindPhase::Bound(player));
}

#[test]
fn bfs_prefers_the_shallower_player() {
    let mut w = setup();
    let root = add_actor_child(&mut w, 0, false, 0);
    let mid = add_node_child(&mut w, root, false, 0);
    let deep_player = add_node_child(&mut w, mid, true, 0);
    let shallow_player = add_node_child(&mut w, root, true, 0);
    assert!(deep_player < shallow_player);
    let hit = find_animation_player_entity(&w.nodes, &w.actors[0].kids);
    assert_eq!(hit, Some(shallow_player));
}

#[test]
fn bfs_is_left_to_right_within_a_depth() {
    let mut w = setup();
    let root = add_actor_child(&mut w, 0, false, 0);
    let left = add_node_child(&mut w, root, true, 0);
    let _right = add_node_child(&mut w, root, true, 0);
    let hit = find_animation_player_entity(&w.nodes, &w.actors[0].kids);
    assert_eq!(hit, Some(left));
}

#[test]
fn activation_is_one_shot() {
    let mut w = setup();
    let root = add_actor_child(&mut w, 0, false, 0);
    let _player = add_node_child(&mut w, root, true, 0);
    setup_helpers(&mut w);
    let first = setup_scene_once_loaded(&mut w);
    assert_eq!(first.len(), 1);
    assert_eq!(first[0].actor, 0);
    assert_eq!(first[0].clip, ClipId::MonsterIdle);
    assert!(matches!(w.actors[0].bind, BindPhase::Activated(_)));
    // Re-scanning and re-activating issues nothing further.
    setup_helpers(&mut w);
    let second = setup_scene_once_loaded(&mut w);
    assert!(second.is_empty());
}

#[test]
fn character_gets_the_character_clip() {
    let mut w = setup();
    let root = add_actor_child(&mut w, 1, false, 0);
    let _player = add_node_child(&mut w, root, true, 0);
    setup_helpers(&mut w);
    let plays = setup_scene_once_loaded(&mut w);
    assert_eq!(plays.len(), 1);
    assert_eq!(plays[0].actor, 1);
    assert_eq!(plays[0].clip, ClipId::CharacterIdle);
}

#[test]
fn input_map_needs_an_enabled_controller() {
    let mut w = setup();
    w.cameras[0].ctl.enabled = false;
    let deltas = vec![Fx2 { x: 10, y: 20 }];
    let r = camera_input_map(&w.cameras, &deltas, false);
    assert_eq!(r, ControlEvents { orbit: None, pan: None });
}

#[test]
fn input_map_scales_by_sensitivity() {
    let w = setup();
    let deltas = vec![Fx2 { x: 10, y: 20 }, Fx2 { x: 30, y: 40 }];
    let r = camera_input_map(&w.cameras, &deltas, false);
    assert_eq!(r.orbit, Some(Fx2 { x: 3, y: 4 }));
    assert_eq!(r.pan, None);
    let r2 = camera_input_map(&w.cameras, &deltas, true);
    assert_eq!(r2.orbit, Some(Fx2 { x: 3, y: 4 }));
    assert_eq!(r2.pan, Some(Fx2 { x: 4, y: 6 }));
}

#[test]
fn input_map_is_silent_on_zero_motion() {
    let w = setup();
    let deltas = vec![Fx2 { x: 5, y: -7 }, Fx2 { x: -5, y: 7 }];
    let r = camera_input_map(&w.cameras, &deltas, true);
    assert_eq!(r, ControlEvents { orbit: None, pan: None });
}

#[test]
fn follow_reasserts_the_distance() {
    let mut cams = vec![CameraRig {
        look: LookCam { eye: Fx3 { x: 3000, y: 0, z: 4000 }, target: Fx3 { x: 0, y: 0, z: 0 } },
        ctl: OrbitCameraController {
            enabled: true,
            mouse_rotate_sensitivity: 80,
            mouse_translate_sensitivity: 100,
        },
    }];
    look_at_character(&mut cams, Fx3 { x: 0, y: 0, z: 0 }, true, true);
    assert_eq!(cams[0].look.target, Fx3 { x: 0, y: 4000, z: 0 });
    assert_eq!(cams[0].look.eye, Fx3 { x: 12000, y: 0, z: 16000 });
}

#[test]
fn follow_skips_when_subject_is_still() {
    let mut cams = vec![CameraRig {
        look: LookCam { eye: Fx3 { x: 3000, y: 0, z: 4000 }, target: Fx3 { x: 0, y: 0, z: 0 } },
        ctl: OrbitCameraController {
            enabled: true,
            mouse_rotate_sensitivity: 80,
            mouse_translate_sensitivity: 100,
        },
    }];
    let before = cams[0];
    look_at_character(&mut cams, Fx3 { x: 0, y: 0, z: 0 }, true, false);
    assert_eq!(cams[0], before);
}

#[test]
fn follow_guards_coinciding_eye() {
    let eye = Fx3 { x: 700, y: 800, z: 900 };
    let mut cams = vec![CameraRig {
        look: LookCam { eye, target: Fx3 { x: 0, y: 0, z: 0 } },
        ctl: OrbitCameraController {
            enabled: true,
            mouse_rotate_sensitivity: 80,
            mouse_translate_sensitivity: 100,
        },
    }];
    look_at_character(&mut cams, eye, true, true);
    // The target still follows; the eye keeps its place for this tick.
    assert_eq!(cams[0].look.eye, eye);
    assert_eq!(cams[0].look.target, Fx3 { x: 700, y: 4800, z: 900 });
}

#[test]
fn motion_turns_and_walks_forward() {
    let t = Transform {
        pos: Fx3 { x: 10000, y: 200, z: 0 },
        facing: Fx2 { x: 0, y: 1000 },
        scale: 300,
    };
    let cam = LookCam { eye: Fx3 { x: 0, y: 0, z: 0 }, target: Fx3 { x: 0, y: 0, z: 0 } };
    let keys = KeyState { forward: true, back: false, right: false, left: false };
    let r = move_character(&t, &cam, keys, 100);
    assert_eq!(r.facing, Fx2 { x: 500, y: 500 });
    assert_eq!(r.pos, Fx3 { x: 11000, y: 200, z: 0 });
    assert_eq!(r.scale, 300);
}

#[test]
fn motion_without_keys_keeps_the_position() {
    let t = Transform {
        pos: Fx3 { x: 10000, y: 200, z: 0 },
        facing: Fx2 { x: 0, y: 1000 },
        scale: 300,
    };
    let cam = LookCam { eye: Fx3 { x: 0, y: 0, z: 0 }, target: Fx3 { x: 0, y: 0, z: 0 } };
    let r = move_character(&t, &cam, no_keys(), 100);
    assert_eq!(r.pos, t.pos);
    assert_ne!(r.facing, t.facing);
}

#[test]
fn motion_opposite_keys_cancel() {
    let t = plain_transform(10000, 0, 0);
    let cam = LookCam { eye: Fx3 { x: 0, y: 0, z: 0 }, target: Fx3 { x: 0, y: 0, z: 0 } };
    let keys = KeyState { forward: true, back: true, right: false, left: false };
    let r = move_character(&t, &cam, keys, 100);
    assert_eq!(r.pos, t.pos);
}

#[test]
fn guarded_normalization_on_coinciding_positions() {
    let t = plain_transform(500, 600, 700);
    let cam = LookCam { eye: Fx3 { x: 500, y: 600, z: 700 }, target: Fx3 { x: 0, y: 0, z: 0 } };
    let keys = KeyState { forward: true, back: false, right: false, left: false };
    let r = move_character(&t, &cam, keys, 100);
    assert_eq!(r, t);
}

#[test]
fn frame_rate_independence_within_tolerance() {
    // One tick of size 2h against two ticks of size h, no keys held: the
    // orientation differs only in the second order of the tick size.
    let t = Transform {
        pos: Fx3 { x: 10000, y: 200, z: 0 },
        facing: Fx2 { x: 0, y: 1000 },
        scale: 300,
    };
    let cam = LookCam { eye: Fx3 { x: 0, y: 0, z: 0 }, target: Fx3 { x: 0, y: 0, z: 0 } };
    let h: i64 = 50;
    let big = move_character(&t, &cam, no_keys(), 2 * h);
    let mid = move_character(&t, &cam, no_keys(), h);
    let two = move_character(&mid, &cam, no_keys(), h);
    assert_eq!(big.facing, Fx2 { x: 500, y: 500 });
    assert_eq!(two.facing, Fx2 { x: 437, y: 563 });
    assert!((big.facing.x - two.facing.x).abs() <= 64);
    assert!((big.facing.y - two.facing.y).abs() <= 64);
    assert_eq!(big.pos, two.pos);
}

#[test]
fn spawn_on_valid_started_contact() {
    let mut w = setup();
    let mut projectile = plain_actor(0, 0, 0);
    projectile.is_projectile = true;
    w.actors.push(projectile);
    let events = vec![CollisionEvent { a: 2, b: 0, started: true }];
    let spawned = detect_projectile_collision(&mut w, &events);
    assert_eq!(spawned, 1);
    assert_eq!(w.actors.len(), 4);
    let hostile = &w.actors[3];
    assert!(hostile.is_monster && hostile.has_hit_detection);
    assert_eq!(hostile.transform.pos, w.actors[0].transform.pos);
    assert_eq!(hostile.transform.scale, 1400);
    assert!(matches!(hostile.bind, BindPhase::NeedsBinding));
}

#[test]
fn no_spawn_on_ended_contact() {
    let mut w = setup();
    let mut projectile = plain_actor(0, 0, 0);
    projectile.is_projectile = true;
    w.actors.push(projectile);
    let events = vec![CollisionEvent { a: 0, b: 2, started: false }];
    let spawned = detect_projectile_collision(&mut w, &events);
    assert_eq!(spawned, 0);
    assert_eq!(w.actors.len(), 3);
}

#[test]
fn no_spawn_without_the_tags() {
    let mut w = setup();
    let bystander = plain_actor(0, 0, 0);
    w.actors.push(bystander);
    // Character and bystander touch: neither detector nor projectile pair.
    let events = vec![CollisionEvent { a: 1, b: 2, started: true }];
    let spawned = detect_projectile_collision(&mut w, &events);
    assert_eq!(spawned, 0);
    assert_eq!(w.actors.len(), 3);
}

#[test]
fn each_qualifying_event_spawns_independently() {
    let mut w = setup();
    let mut projectile = plain_actor(0, 0, 0);
    projectile.is_projectile = true;
    w.actors.push(projectile);
    let events = vec![
        CollisionEvent { a: 0, b: 2, started: true },
        CollisionEvent { a: 2, b: 0, started: true },
    ];
    let spawned = detect_projectile_collision(&mut w, &events);
    assert_eq!(spawned, 2);
    assert_eq!(w.actors.len(), 5);
}

#[test]
fn launch_needs_the_fire_edge() {
    let mut w = setup();
    assert!(launch_projectile(&mut w, false).is_none());
    assert_eq!(w.actors.len(), 2);
}

#[test]
fn launch_flies_along_the_view_line() {
    let mut w = setup();
    w.cameras[0].look = LookCam {
        eye: Fx3 { x: 0, y: 0, z: 0 },
        target: Fx3 { x: 0, y: 0, z: 10000 },
    };
    let ps = launch_projectile(&mut w, true).unwrap();
    assert_eq!(ps.position, Fx3 { x: 10000, y: 200, z: 2000 });
    assert_eq!(ps.velocity, Fx3 { x: 0, y: 0, z: 200000 });
    assert_eq!(ps.radius, 500);
    assert_eq!(w.actors.len(), 3);
    assert!(w.actors[2].is_projectile);
    assert_eq!(w.actors[2].transform.pos, ps.position);
}

#[test]
fn launch_guards_coinciding_eye_and_target() {
    let mut w = setup();
    w.cameras[0].look = LookCam {
        eye: Fx3 { x: 1000, y: 2000, z: 3000 },
        target: Fx3 { x: 1000, y: 2000, z: 3000 },
    };
    assert!(launch_projectile(&mut w, true).is_none());
    assert_eq!(w.actors.len(), 2);
}

#[test]
fn height_fix_pins_child_mounts() {
    let mut w = setup();
    let monster_root = add_actor_child(&mut w, 0, false, 0);
    let character_root = add_actor_child(&mut w, 1, false, 0);
    hacky_height_fix(&mut w);
    assert_eq!(w.nodes[monster_root].y_offset, -3000);
    assert_eq!(w.nodes[character_root].y_offset, -9000);
    assert!(!w.actors[0].needs_height_fix);
    assert!(!w.actors[1].needs_height_fix);
}

#[test]
fn height_fix_waits_for_children() {
    let mut w = setup();
    hacky_height_fix(&mut w);
    assert!(w.actors[0].needs_height_fix);
    assert!(w.actors[1].needs_height_fix);
}

#[test]
fn spawn_monster_marks_binding_needed() {
    let mut actors: Vec<Actor> = vec![];
    spawn_monster(plain_transform(7, 8, 9), &mut actors);
    assert_eq!(actors.len(), 1);
    assert!(actors[0].is_monster);
    assert!(matches!(actors[0].bind, BindPhase::NeedsBinding));
    assert_eq!(actors[0].transform.pos, Fx3 { x: 7, y: 8, z: 9 });
    assert_eq!(actors[0].kids.len(), 0);
}

#[test]
fn idle_ticks_move_nothing() {
    let mut w = setup();
    w.subject_changed = false;
    let monster_t = w.actors[0].transform;
    let character_t = w.actors[1].transform;
    let cam = w.cameras[0];
    for _ in 0..10 {
        let out = tick(&mut w, &idle_input());
        assert!(out.projectile.is_none());
        assert_eq!(out.spawned_monsters, 0);
    }
    assert_eq!(w.actors[0].transform, monster_t);
    assert_eq!(w.actors[1].transform, character_t);
    assert_eq!(w.cameras[0], cam);
    assert!(!w.subject_changed);
}

#[test]
fn a_full_tick_binds_and_activates() {
    let mut w = setup();
    let root = add_actor_child(&mut w, 0, false, 0);
    let _player = add_node_child(&mut w, root, true, 0);
    // The resolver binds and the activation pass plays, within one tick.
    let out = tick(&mut w, &idle_input());
    assert_eq!(out.plays.len(), 1);
    assert_eq!(out.plays[0].clip, ClipId::MonsterIdle);
    assert!(matches!(w.actors[0].bind, BindPhase::Activated(_)));
    let out2 = tick(&mut w, &idle_input());
    assert_eq!(out2.plays.len(), 0);
}

#[test]
fn a_walking_tick_moves_the_subject_and_camera() {
    let mut w = setup();
    assert!(w.subject_changed);
    let before = w.actors[1].transform;
    let camera_before = w.cameras[0];
    let mut inp = idle_input();
    inp.keys = KeyState { forward: true, back: false, right: false, left: false };
    inp.mouse_deltas = vec![Fx2 { x: 100, y: 50 }];
    let out = tick(&mut w, &inp);
    assert!(out.control.orbit.is_some());
    assert_ne!(w.actors[1].transform.pos, before.pos);
    // The follow step retargeted the camera at the subject's old position.
    assert_ne!(w.cameras[0], camera_before);
    assert_eq!(
        w.cameras[0].look.target,
        Fx3 { x: before.pos.x, y: before.pos.y + 4000, z: before.pos.z },
    );
    assert!(w.subject_changed);
}

#[test]
fn resolver_reaches_a_deep_player() {
    let mut w = setup();
    let a = add_actor_child(&mut w, 0, false, 0);
    let b = add_node_child(&mut w, a, false, 0);
    let c = add_node_child(&mut w, b, false, 0);
    let player = add_node_child(&mut w, c, true, 0);
    let hit = find_animation_player_entity(&w.nodes, &w.actors[0].kids);
    assert_eq!(hit, Some(player));
}
