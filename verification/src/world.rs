//! The entity store the gameplay systems read and write each tick.
//!
//! Actors are logical game entities (the character, monsters, projectiles)
//! held by index in one store, each with a transform, role tags, a binding
//! phase and the roots of its visual subtree. Subtree nodes live in a shared
//! arena with parent-to-child adjacency by index; the arena is append-only,
//! so a child's index is always larger than its parent's, which grounds
//! every traversal's termination. Cameras pair a look transform with an
//! orbit-controller configuration.

use vstd::prelude::*;

use crate::fixed::{bounded2, bounded3, Fx2, Fx3, V2, V3, SCALE};

verus! {

/// Largest coordinate magnitude a well-formed world holds; one tick of any
/// system stays far inside the range the vector operations accept.
pub const POS_LIMIT: i64 = 1_000_000_000_000_000;

/// Largest controller sensitivity magnitude a well-formed world holds.
pub const SENS_LIMIT: i64 = 1_000_000;

/// Largest camera coordinate magnitude a well-formed world holds; the
/// follow step may stand the eye a little beyond the actor range.
pub const CAM_LIMIT: i64 = 1_000_000_000_100_000;

/// An actor's pose: position, horizontal facing direction, uniform scale.
#[derive(Clone, Copy, PartialEq, Eq, Structural, Debug)]
pub struct Transform {
    pub pos: Fx3,
    pub facing: Fx2,
    pub scale: i64,
}

/// Mathematical value of a `Transform`.
pub struct TransformV {
    pub pos: V3,
    pub facing: V2,
    pub scale: int,
}

impl View for Transform {
    type V = TransformV;

    open spec fn view(&self) -> TransformV {
        TransformV { pos: self.pos@, facing: self.facing@, scale: self.scale as int }
    }
}

/// Where an actor stands in the animation-binding state machine.
///
/// `Inert` actors take no part in binding; `NeedsBinding` actors are scanned
/// each tick; `Bound` records the resolved player node; `Activated` keeps the
/// node and marks that the one-shot play command has been issued.
#[derive(Clone, Copy, PartialEq, Eq, Structural, Debug)]
pub enum BindPhase {
    Inert,
    NeedsBinding,
    Bound(usize),
    Activated(usize),
}

/// A logical game entity.
#[derive(Clone, Debug)]
pub struct Actor {
    pub transform: Transform,
    pub is_character: bool,
    pub is_monster: bool,
    pub is_projectile: bool,
    pub has_hit_detection: bool,
    pub needs_height_fix: bool,
    pub bind: BindPhase,
    pub kids: Vec<usize>,
}

/// Mathematical value of an `Actor`.
#[verifier::ext_equal]
pub struct ActorV {
    pub transform: TransformV,
    pub is_character: bool,
    pub is_monster: bool,
    pub is_projectile: bool,
    pub has_hit_detection: bool,
    pub needs_height_fix: bool,
    pub bind: BindPhase,
    pub kids: Seq<usize>,
}

impl View for Actor {
    type V = ActorV;

    open spec fn view(&self) -> ActorV {
        ActorV {
            transform: self.transform@,
            is_character: self.is_character,
            is_monster: self.is_monster,
            is_projectile: self.is_projectile,
            has_hit_detection: self.has_hit_detection,
            needs_height_fix: self.needs_height_fix,
            bind: self.bind,
            kids: self.kids@,
        }
    }
}

/// A node of a visual subtree, owned by the arena.
#[derive(Clone, Debug)]
pub struct SceneNode {
    pub kids: Vec<usize>,
    pub is_animation_player: bool,
    pub y_offset: i64,
}

/// Mathematical value of a `SceneNode`.
#[verifier::ext_equal]
pub struct SceneNodeV {
    pub kids: Seq<usize>,
    pub is_animation_player: bool,
    pub y_offset: int,
}

impl View for SceneNode {
    type V = SceneNodeV;

    open spec fn view(&self) -> SceneNodeV {
        SceneNodeV {
            kids: self.kids@,
            is_animation_player: self.is_animation_player,
            y_offset: self.y_offset as int,
        }
    }
}

/// A camera's look state: where the eye stands and what it looks at.
#[derive(Clone, Copy, PartialEq, Eq, Structural, Debug)]
pub struct LookCam {
    pub eye: Fx3,
    pub target: Fx3,
}

/// Mathematical value of a `LookCam`.
pub struct LookCamV {
    pub eye: V3,
    pub target: V3,
}

impl View for LookCam {
    type V = LookCamV;

    open spec fn view(&self) -> LookCamV {
        LookCamV { eye: self.eye@, target: self.target@ }
    }
}

/// Orbit-controller configuration; only an enabled controller emits events.
#[derive(Clone, Copy, PartialEq, Eq, Structural, Debug)]
pub struct OrbitCameraController {
    pub enabled: bool,
    pub mouse_rotate_sensitivity: i64,
    pub mouse_translate_sensitivity: i64,
}

/// Mathematical value of an `OrbitCameraController`.
pub struct OrbitCameraControllerV {
    pub enabled: bool,
    pub mouse_rotate_sensitivity: int,
    pub mouse_translate_sensitivity: int,
}

impl View for OrbitCameraController {
    type V = OrbitCameraControllerV;

    open spec fn view(&self) -> OrbitCameraControllerV {
        OrbitCameraControllerV {
            enabled: self.enabled,
            mouse_rotate_sensitivity: self.mouse_rotate_sensitivity as int,
            mouse_translate_sensitivity: self.mouse_translate_sensitivity as int,
        }
    }
}

/// A camera entity: look state plus its controller.
#[derive(Clone, Copy, PartialEq, Eq, Structural, Debug)]
pub struct CameraRig {
    pub look: LookCam,
    pub ctl: OrbitCameraController,
}

/// Mathematical value of a `CameraRig`.
pub struct CameraRigV {
    pub look: LookCamV,
    pub ctl: OrbitCameraControllerV,
}

impl View for CameraRig {
    type V = CameraRigV;

    open spec fn view(&self) -> CameraRigV {
        CameraRigV { look: self.look@, ctl: self.ctl@ }
    }
}

/// The entity-component store the systems share.
#[derive(Clone, Debug)]
pub struct World {
    pub actors: Vec<Actor>,
    pub nodes: Vec<SceneNode>,
    pub cameras: Vec<CameraRig>,
    /// Whether the subject's transform changed during the previous tick.
    pub subject_changed: bool,
}

/// Mathematical value of a `World`.
#[verifier::ext_equal]
pub struct WorldV {
    pub actors: Seq<ActorV>,
    pub nodes: Seq<SceneNodeV>,
    pub cameras: Seq<CameraRigV>,
    pub subject_changed: bool,
}

/// View of an actor store.
pub open spec fn view_actors(s: Seq<Actor>) -> Seq<ActorV> {
    s.map_values(|a: Actor| a@)
}

/// View of a node arena.
pub open spec fn view_nodes(s: Seq<SceneNode>) -> Seq<SceneNodeV> {
    s.map_values(|n: SceneNode| n@)
}

/// View of the camera list.
pub open spec fn view_cameras(s: Seq<CameraRig>) -> Seq<CameraRigV> {
    s.map_values(|c: CameraRig| c@)
}

impl View for World {
    type V = WorldV;

    open spec fn view(&self) -> WorldV {
        WorldV {
            actors: view_actors(self.actors@),
            nodes: view_nodes(self.nodes@),
            cameras: view_cameras(self.cameras@),
            subject_changed: self.subject_changed,
        }
    }
}

/// Every child index points further into the arena than its parent: the
/// adjacency is acyclic and every traversal bottoms out.
pub open spec fn arena_wf(nodes: Seq<SceneNodeV>) -> bool {
    forall|i: int, j: int|
        0 <= i < nodes.len() && 0 <= j < nodes[i].kids.len() ==> i < #[trigger] nodes[i].kids[j]
            < nodes.len()
}

/// An actor's subtree roots point into the arena.
pub open spec fn actor_kids_wf(w: WorldV) -> bool {
    forall|a: int, j: int|
        0 <= a < w.actors.len() && 0 <= j < w.actors[a].kids.len()
            ==> #[trigger] w.actors[a].kids[j] < w.nodes.len()
}

/// No two actors own a common subtree root (exclusive subtree ownership).
pub open spec fn kids_disjoint(w: WorldV) -> bool {
    forall|a1: int, j1: int, a2: int, j2: int|
        0 <= a1 < w.actors.len() && 0 <= j1 < w.actors[a1].kids.len() && 0 <= a2 < w.actors.len()
            && 0 <= j2 < w.actors[a2].kids.len() && a1 != a2 ==> #[trigger] w.actors[a1].kids[j1]
            != #[trigger] w.actors[a2].kids[j2]
}

/// A recorded binding points into the arena.
pub open spec fn bind_wf(w: WorldV) -> bool {
    forall|a: int|
        0 <= a < w.actors.len() ==> match #[trigger] w.actors[a].bind {
            BindPhase::Bound(n) => n < w.nodes.len(),
            BindPhase::Activated(n) => n < w.nodes.len(),
            _ => true,
        }
}

pub open spec fn transform_bounded(t: TransformV) -> bool {
    &&& bounded3(t.pos, POS_LIMIT as int)
    &&& bounded2(t.facing, SCALE as int)
    &&& 0 <= t.scale <= SCALE as int * 100
}

/// Geometry within the range every tick's arithmetic accepts.
pub open spec fn geometry_wf(w: WorldV) -> bool {
    &&& forall|a: int|
        0 <= a < w.actors.len() ==> transform_bounded(#[trigger] w.actors[a].transform)
    &&& forall|c: int|
        0 <= c < w.cameras.len() ==> bounded3(#[trigger] w.cameras[c].look.eye, CAM_LIMIT as int)
            && bounded3(w.cameras[c].look.target, CAM_LIMIT as int) && -SENS_LIMIT as int
            <= w.cameras[c].ctl.mouse_rotate_sensitivity <= SENS_LIMIT as int && -SENS_LIMIT as int
            <= w.cameras[c].ctl.mouse_translate_sensitivity <= SENS_LIMIT as int
}

/// Well-formed world: what scene setup establishes and every tick preserves.
pub open spec fn world_wf(w: WorldV) -> bool {
    &&& arena_wf(w.nodes)
    &&& actor_kids_wf(w)
    &&& kids_disjoint(w)
    &&& bind_wf(w)
    &&& geometry_wf(w)
}

/// The pose a spawned hostile takes from the detector, rescaled.
pub open spec fn monster_transform(t: TransformV) -> TransformV {
    TransformV { pos: t.pos, facing: t.facing, scale: 1400 }
}

/// The actor a hostile spawn creates: monster-tagged, hit-detecting, with an
/// empty subtree that awaits its asset, so it needs binding and a height fix.
pub open spec fn monster_actor(t: TransformV) -> ActorV {
    ActorV {
        transform: monster_transform(t),
        is_character: false,
        is_monster: true,
        is_projectile: false,
        has_hit_detection: true,
        needs_height_fix: true,
        bind: BindPhase::NeedsBinding,
        kids: Seq::empty(),
    }
}

/// Append a hostile actor posed at `transform` to the store.
///
/// Scene setup places the first monster this way, and the collision spawn
/// system creates each further one through the same call.
pub fn spawn_monster(transform: Transform, actors: &mut Vec<Actor>)
    ensures
        view_actors(final(actors)@) == view_actors(old(actors)@).push(monster_actor(transform@)),
{
    let a = Actor {
        transform: Transform { pos: transform.pos, facing: transform.facing, scale: 1400 },
        is_character: false,
        is_monster: true,
        is_projectile: false,
        has_hit_detection: true,
        needs_height_fix: true,
        bind: BindPhase::NeedsBinding,
        kids: Vec::new(),
    };
    actors.push(a);
    proof {
        assert(view_actors(actors@) =~= view_actors(old(actors)@).push(monster_actor(transform@)));
    }
}

/// The subject actor scene setup creates.
pub open spec fn character_actor() -> ActorV {
    ActorV {
        transform: TransformV {
            pos: V3 { x: 10000, y: 200, z: 0 },
            facing: V2 { x: 0, y: SCALE as int },
            scale: 300,
        },
        is_character: true,
        is_monster: false,
        is_projectile: false,
        has_hit_detection: false,
        needs_height_fix: true,
        bind: BindPhase::NeedsBinding,
        kids: Seq::empty(),
    }
}

/// The camera rig scene setup creates: eye behind and above the origin,
/// orbit controller enabled with its default sensitivities.
pub open spec fn setup_camera() -> CameraRigV {
    CameraRigV {
        look: LookCamV {
            eye: V3 { x: -2000, y: 5000, z: 5000 },
            target: V3 { x: 0, y: 0, z: 0 },
        },
        ctl: OrbitCameraControllerV {
            enabled: true,
            mouse_rotate_sensitivity: 80,
            mouse_translate_sensitivity: 100,
        },
    }
}

/// Build the initial scene: one camera rig, one monster, one character.
///
/// Visual subtrees are empty until the asset loader reports nodes; both
/// creatures start in `NeedsBinding` so the resolver picks them up.
pub fn setup() -> (w: World)
    ensures
        w@.actors.len() == 2,
        w@.actors[0] == monster_actor(
            TransformV {
                pos: V3 { x: 2000, y: 2000, z: 2000 },
                facing: V2 { x: 0, y: SCALE as int },
                scale: SCALE as int,
            },
        ),
        w@.actors[1] == character_actor(),
        w@.nodes.len() == 0,
        w@.cameras.len() == 1,
        w@.cameras[0] == setup_camera(),
        w@.subject_changed == true,
        world_wf(w@),
{
    let ghost t0 = TransformV {
        pos: V3 { x: 2000, y: 2000, z: 2000 },
        facing: V2 { x: 0, y: SCALE as int },
        scale: SCALE as int,
    };
    let mut actors: Vec<Actor> = Vec::new();
    spawn_monster(
        Transform {
            pos: Fx3 { x: 2000, y: 2000, z: 2000 },
            facing: Fx2 { x: 0, y: SCALE },
            scale: SCALE,
        },
        &mut actors,
    );
    let ghost mid = actors@;
    let character = Actor {
        transform: Transform {
            pos: Fx3 { x: 10000, y: 200, z: 0 },
            facing: Fx2 { x: 0, y: SCALE },
            scale: 300,
        },
        is_character: true,
        is_monster: false,
        is_projectile: false,
        has_hit_detection: false,
        needs_height_fix: true,
        bind: BindPhase::NeedsBinding,
        kids: Vec::new(),
    };
    actors.push(character);
    let camera = CameraRig {
        look: LookCam {
            eye: Fx3 { x: -2000, y: 5000, z: 5000 },
            target: Fx3 { x: 0, y: 0, z: 0 },
        },
        ctl: OrbitCameraController {
            enabled: true,
            mouse_rotate_sensitivity: 80,
            mouse_translate_sensitivity: 100,
        },
    };
    let mut cameras: Vec<CameraRig> = Vec::new();
    cameras.push(camera);
    let w = World { actors, nodes: Vec::new(), cameras, subject_changed: true };
    proof {
        assert(view_actors(mid).len() == 1);
        assert(view_actors(mid)[0] == monster_actor(t0));
        assert(w.actors@ == mid.push(character));
        assert(w@.actors.len() == 2);
        assert(w@.actors[0] == w.actors@[0]@);
        assert(w.actors@[0] == mid[0]);
        assert(view_actors(mid)[0] == mid[0]@);
        assert(w@.actors[0] == monster_actor(t0));
        assert(w@.actors[1] == w.actors@[1]@);
        assert(w.actors@[1] == character);
        assert(w@.actors[1] =~= character_actor());
        assert(w@.cameras.len() == 1);
        assert(w@.cameras[0] == setup_camera());
        assert(w@.nodes.len() == 0);
    }
    w
}

/// Append a fresh subtree root under an actor; the node arrives from the
/// asset loader with no children of its own yet.
pub fn add_actor_child(w: &mut World, actor: usize, is_animation_player: bool, y_offset: i64) -> (
    node: usize)
    requires
        actor < old(w)@.actors.len(),
        world_wf(old(w)@),
        -POS_LIMIT <= y_offset <= POS_LIMIT,
        forall|a: int|
            0 <= a < old(w)@.actors.len() && a != actor ==> !(#[trigger] old(
                w,
            )@.actors[a].kids.contains(old(w)@.nodes.len() as usize)),
    ensures
        node == old(w)@.nodes.len(),
        final(w)@.nodes == old(w)@.nodes.push(
            SceneNodeV { kids: Seq::empty(), is_animation_player, y_offset: y_offset as int },
        ),
        final(w)@.actors == old(w)@.actors.update(
            actor as int,
            ActorV { kids: old(w)@.actors[actor as int].kids.push(node), ..old(
                w,
            )@.actors[actor as int] },
        ),
        final(w)@.cameras == old(w)@.cameras,
        final(w).subject_changed == old(w).subject_changed,
        world_wf(final(w)@),
{
    let node = w.nodes.len();
    w.nodes.push(SceneNode { kids: Vec::new(), is_animation_player, y_offset });
    let a = &mut w.actors[actor];
    a.kids.push(node);
    proof {
        assert(w@.nodes =~= old(w)@.nodes.push(
            SceneNodeV { kids: Seq::empty(), is_animation_player, y_offset: y_offset as int },
        ));
        assert(w@.actors =~= old(w)@.actors.update(
            actor as int,
            ActorV { kids: old(w)@.actors[actor as int].kids.push(node), ..old(
                w,
            )@.actors[actor as int] },
        ));
        assert(w@.cameras =~= old(w)@.cameras);
        let nn = old(w)@.nodes.len() as usize;
        assert(world_wf(w@)) by {
            assert forall|i: int, j: int|
                0 <= i < w@.nodes.len() && 0 <= j < w@.nodes[i].kids.len() implies i
                < (#[trigger] w@.nodes[i].kids[j]) < w@.nodes.len() by {
                if i < old(w)@.nodes.len() {
                    assert(w@.nodes[i] == old(w)@.nodes[i]);
                }
            }
            assert forall|a: int, j: int|
                0 <= a < w@.actors.len() && 0 <= j < w@.actors[a].kids.len() implies #[trigger] w@.actors[a].kids[j]
                < w@.nodes.len() by {
                if a != actor as int {
                    assert(w@.actors[a] == old(w)@.actors[a]);
                } else {
                    if j < old(w)@.actors[a].kids.len() {
                        assert(w@.actors[a].kids[j] == old(w)@.actors[a].kids[j]);
                    } else {
                        assert(w@.actors[a].kids[j] == nn);
                    }
                }
            }
            assert forall|a1: int, j1: int, a2: int, j2: int|
                0 <= a1 < w@.actors.len() && 0 <= j1 < w@.actors[a1].kids.len() && 0 <= a2
                < w@.actors.len() && 0 <= j2 < w@.actors[a2].kids.len() && a1 != a2 implies #[trigger] w@.actors[a1].kids[j1]
                != #[trigger] w@.actors[a2].kids[j2] by {
                if a1 != actor as int {
                    assert(w@.actors[a1] == old(w)@.actors[a1]);
                    assert(!(old(w)@.actors[a1].kids.contains(nn)));
                }
                if a2 != actor as int {
                    assert(w@.actors[a2] == old(w)@.actors[a2]);
                    assert(!(old(w)@.actors[a2].kids.contains(nn)));
                }
                if a1 == actor as int && j1 == old(w)@.actors[a1].kids.len() {
                    assert(w@.actors[a1].kids[j1] == nn);
                    if a2 != actor as int {
                        assert(old(w)@.actors[a2].kids[j2] != nn) by {
                            if old(w)@.actors[a2].kids[j2] == nn {
                                assert(old(w)@.actors[a2].kids.contains(nn));
                            }
                        }
                    }
                }
                if a2 == actor as int && j2 == old(w)@.actors[a2].kids.len() {
                    assert(w@.actors[a2].kids[j2] == nn);
                    if a1 != actor as int {
                        if old(w)@.actors[a1].kids[j1] == nn {
                            assert(old(w)@.actors[a1].kids.contains(nn));
                        }
                    }
                }
            }
            assert forall|a: int|
                0 <= a < w@.actors.len() implies (match (#[trigger] w@.actors[a]).bind {
                BindPhase::Bound(p) => p < w@.nodes.len(),
                BindPhase::Activated(p) => p < w@.nodes.len(),
                _ => true,
            }) && transform_bounded(w@.actors[a].transform) by {
                if a != actor as int {
                    assert(w@.actors[a] == old(w)@.actors[a]);
                } else {
                    assert(w@.actors[a].bind == old(w)@.actors[a].bind);
                    assert(w@.actors[a].transform == old(w)@.actors[a].transform);
                }
            }
            assert forall|c: int|
                0 <= c < w@.cameras.len() implies bounded3(
                (#[trigger] w@.cameras[c]).look.eye,
                CAM_LIMIT as int,
            ) && bounded3(w@.cameras[c].look.target, CAM_LIMIT as int) && -SENS_LIMIT as int
                <= w@.cameras[c].ctl.mouse_rotate_sensitivity <= SENS_LIMIT as int
                && -SENS_LIMIT as int <= w@.cameras[c].ctl.mouse_translate_sensitivity
                <= SENS_LIMIT as int by {
                assert(w@.cameras[c] == old(w)@.cameras[c]);
                assert(bounded3(old(w)@.cameras[c].look.eye, CAM_LIMIT as int));
            }
        }
    }
    node
}

/// Append a fresh child under an existing arena node.
pub fn add_node_child(w: &mut World, parent: usize, is_animation_player: bool, y_offset: i64) -> (
    node: usize)
    requires
        parent < old(w)@.nodes.len(),
        world_wf(old(w)@),
        -POS_LIMIT <= y_offset <= POS_LIMIT,
        forall|a: int|
            0 <= a < old(w)@.actors.len() ==> !(#[trigger] old(w)@.actors[a].kids.contains(old(
                w,
            )@.nodes.len() as usize)),
    ensures
        node == old(w)@.nodes.len(),
        final(w)@.nodes == old(w)@.nodes.update(
            parent as int,
            SceneNodeV { kids: old(w)@.nodes[parent as int].kids.push(node), ..old(
                w,
            )@.nodes[parent as int] },
        ).push(SceneNodeV { kids: Seq::empty(), is_animation_player, y_offset: y_offset as int }),
        final(w)@.actors == old(w)@.actors,
        final(w)@.cameras == old(w)@.cameras,
        final(w).subject_changed == old(w).subject_changed,
        world_wf(final(w)@),
{
    let node = w.nodes.len();
    w.nodes.push(SceneNode { kids: Vec::new(), is_animation_player, y_offset });
    let p = &mut w.nodes[parent];
    p.kids.push(node);
    proof {
        assert(w@.nodes =~= old(w)@.nodes.update(
            parent as int,
            SceneNodeV { kids: old(w)@.nodes[parent as int].kids.push(node), ..old(
                w,
            )@.nodes[parent as int] },
        ).push(SceneNodeV { kids: Seq::empty(), is_animation_player, y_offset: y_offset as int }));
        assert(w@.actors =~= old(w)@.actors);
        assert(w@.cameras =~= old(w)@.cameras);
    }
    node
}


/// Characters among the first `upto` actors.
pub open spec fn char_count_upto(actors: Seq<ActorV>, upto: int) -> int
    decreases upto,
{
    if upto <= 0 {
        0
    } else {
        char_count_upto(actors, upto - 1) + if actors[upto - 1].is_character {
            1int
        } else {
            0int
        }
    }
}

/// First character among the first `upto` actors.
pub open spec fn first_char_upto(actors: Seq<ActorV>, upto: int) -> Option<int>
    decreases upto,
{
    if upto <= 0 {
        None
    } else {
        match first_char_upto(actors, upto - 1) {
            Some(i) => Some(i),
            None => if actors[upto - 1].is_character {
                Some(upto - 1)
            } else {
                None
            },
        }
    }
}

/// The subject: defined only when exactly one actor carries the character
/// tag, as a single-result query demands.
pub open spec fn the_character(actors: Seq<ActorV>) -> Option<int> {
    if char_count_upto(actors, actors.len() as int) == 1 {
        first_char_upto(actors, actors.len() as int)
    } else {
        None
    }
}

/// The count is never negative, and a first character exists exactly when
/// the count is positive.
proof fn lemma_char_count(actors: Seq<ActorV>, upto: int)
    requires
        upto >= 0,
    ensures
        char_count_upto(actors, upto) >= 0,
        first_char_upto(actors, upto) is None <==> char_count_upto(actors, upto) == 0,
        match first_char_upto(actors, upto) {
            Some(i) => 0 <= i < upto && actors[i].is_character,
            None => true,
        },
    decreases upto,
{
    if upto > 0 {
        lemma_char_count(actors, upto - 1);
    }
}

/// Single-result query for the subject: `Some` exactly when one actor is
/// the character, `None` when none or several are.
pub fn get_single_character(actors: &Vec<Actor>) -> (r: Option<usize>)
    ensures
        match r {
            Some(i) => the_character(view_actors(actors@)) == Some(i as int) && (i as int)
                < actors@.len(),
            None => the_character(view_actors(actors@)) is None,
        },
{
    let va = Ghost(view_actors(actors@));
    let mut count: usize = 0;
    let mut first: Option<usize> = None;
    let mut i: usize = 0;
    while i < actors.len()
        invariant
            0 <= i <= actors@.len(),
            va@ == view_actors(actors@),
            count as int == char_count_upto(va@, i as int),
            count <= i,
            match first {
                Some(f) => first_char_upto(va@, i as int) == Some(f as int) && (f as int) < i,
                None => first_char_upto(va@, i as int) is None,
            },
        decreases actors@.len() - i,
    {
        proof {
            assert(va@[i as int] == actors@[i as int]@);
        }
        if actors[i].is_character {
            count = count + 1;
            if first.is_none() {
                first = Some(i);
            }
        }
        i = i + 1;
    }
    if count == 1 {
        proof {
            lemma_char_count(va@, va@.len() as int);
        }
        first
    } else {
        None
    }
}

/// Vertical offset of the child mounts of the two creature kinds.
pub const CHARACTER_MOUNT_Y: i64 = -9000;

/// Vertical offset of a monster's child mounts.
pub const MONSTER_MOUNT_Y: i64 = -3000;

/// Whether some actor among the first `upto`, carrying the height-fix flag
/// and the given creature tag, owns node `m` as a direct subtree root.
pub open spec fn flagged_owner_upto(
    w: WorldV,
    m: int,
    upto: int,
    monster: bool,
) -> bool {
    exists|a: int, j: int|
        0 <= a < upto && 0 <= j < w.actors[a].kids.len() && (#[trigger] w.actors[a].kids[j]) as int
            == m && (if monster {
            w.actors[a].is_monster
        } else {
            w.actors[a].is_character
        }) && w.actors[a].needs_height_fix
}

/// The vertical offset node `m` holds after a height-fix pass over the
/// first `upto` actors: a flagged monster's mount wins over a flagged
/// character's, and an unowned node keeps its offset.
pub open spec fn height_fix_y_upto(w: WorldV, m: int, upto: int) -> int {
    if flagged_owner_upto(w, m, upto, true) {
        MONSTER_MOUNT_Y as int
    } else if flagged_owner_upto(w, m, upto, false) {
        CHARACTER_MOUNT_Y as int
    } else {
        w.nodes[m].y_offset
    }
}

/// One-time mount-height correction: every flagged creature whose subtree
/// has begun to load gets its direct subtree roots pinned to its kind's
/// mount height, and drops the flag; a flagged creature with no children
/// yet keeps the flag for a later tick.
pub fn hacky_height_fix(w: &mut World)
    requires
        world_wf(old(w)@),
    ensures
        final(w)@.nodes.len() == old(w)@.nodes.len(),
        forall|m: int|
            0 <= m < old(w)@.nodes.len() ==> #[trigger] final(w)@.nodes[m] == (SceneNodeV {
                y_offset: height_fix_y_upto(old(w)@, m, old(w)@.actors.len() as int),
                ..old(w)@.nodes[m]
            }),
        final(w)@.actors.len() == old(w)@.actors.len(),
        forall|a: int|
            0 <= a < old(w)@.actors.len() ==> #[trigger] final(w)@.actors[a] == (ActorV {
                needs_height_fix: old(w)@.actors[a].needs_height_fix && !((old(
                    w,
                )@.actors[a].is_character || old(w)@.actors[a].is_monster) && old(
                    w,
                )@.actors[a].kids.len() > 0),
                ..old(w)@.actors[a]
            }),
        final(w)@.cameras == old(w)@.cameras,
        final(w).subject_changed == old(w).subject_changed,
        world_wf(final(w)@),
{
    let n = w.actors.len();
    let mut a: usize = 0;
    while a < n
        invariant
            0 <= a <= n,
            n == w.actors@.len(),
            world_wf(old(w)@),
            w@.actors.len() == old(w)@.actors.len(),
            w@.nodes.len() == old(w)@.nodes.len(),
            forall|m: int|
                0 <= m < old(w)@.nodes.len() ==> #[trigger] view_nodes(w.nodes@)[m] == (SceneNodeV {
                    y_offset: height_fix_y_upto(old(w)@, m, a as int),
                    ..old(w)@.nodes[m]
                }),
            forall|x: int|
                0 <= x < a ==> #[trigger] view_actors(w.actors@)[x] == (ActorV {
                    needs_height_fix: old(w)@.actors[x].needs_height_fix && !((old(
                        w,
                    )@.actors[x].is_character || old(w)@.actors[x].is_monster) && old(
                        w,
                    )@.actors[x].kids.len() > 0),
                    ..old(w)@.actors[x]
                }),
            forall|x: int|
                a <= x < n ==> #[trigger] view_actors(w.actors@)[x] == old(w)@.actors[x],
            w.cameras@ == old(w).cameras@,
            w.subject_changed == old(w).subject_changed,
        decreases n - a,
    {
        let ghost asnap = w.actors@;
        proof {
            assert(view_actors(w.actors@)[a as int] == w.actors@[a as int]@);
        }
        let creature = w.actors[a].is_character || w.actors[a].is_monster;
        let flagged = w.actors[a].needs_height_fix;
        let nkids = w.actors[a].kids.len();
        if creature && flagged && nkids > 0 {
            let y = if w.actors[a].is_monster {
                MONSTER_MOUNT_Y
            } else {
                CHARACTER_MOUNT_Y
            };
            let mut j: usize = 0;
            while j < nkids
                invariant
                    0 <= j <= nkids,
                    a < n,
                    n == w.actors@.len(),
                    n as int == old(w)@.actors.len(),
                    world_wf(old(w)@),
                    w.actors@ == asnap,
                    w.cameras@ == old(w).cameras@,
                    w.subject_changed == old(w).subject_changed,
                    nkids == old(w)@.actors[a as int].kids.len(),
                    view_actors(w.actors@)[a as int] == old(w)@.actors[a as int],
                    w.actors@[a as int]@ == old(w)@.actors[a as int],
                    old(w)@.actors[a as int].needs_height_fix,
                    old(w)@.actors[a as int].is_character || old(w)@.actors[a as int].is_monster,
                    y as int == (if old(w)@.actors[a as int].is_monster {
                        MONSTER_MOUNT_Y as int
                    } else {
                        CHARACTER_MOUNT_Y as int
                    }),
                    w@.nodes.len() == old(w)@.nodes.len(),
                    forall|m: int|
                        0 <= m < old(w)@.nodes.len() && !kid_of_prefix(old(w)@, a as int, j as int, m)
                            ==> #[trigger] view_nodes(w.nodes@)[m] == (SceneNodeV {
                            y_offset: height_fix_y_upto(old(w)@, m, a as int),
                            ..old(w)@.nodes[m]
                        }),
                    forall|m: int|
                        0 <= m < old(w)@.nodes.len() && kid_of_prefix(old(w)@, a as int, j as int, m)
                            ==> #[trigger] view_nodes(w.nodes@)[m] == (SceneNodeV {
                            y_offset: y as int,
                            ..old(w)@.nodes[m]
                        }),
                decreases nkids - j,
            {
                let ghost nsnap = w.nodes@;
                let kid = w.actors[a].kids[j];
                proof {
                    assert(old(w)@.actors[a as int].kids[j as int] < old(w)@.nodes.len());
                    assert(view_nodes(w.nodes@)[kid as int] == w.nodes@[kid as int]@);
                }
                w.nodes[kid].y_offset = y;
                proof {
                    assert(view_nodes(w.nodes@)[kid as int] == w.nodes@[kid as int]@);
                    assert(view_nodes(w.nodes@)[kid as int] =~= SceneNodeV {
                        y_offset: y as int,
                        ..old(w)@.nodes[kid as int]
                    });
                    assert forall|m: int|
                        0 <= m < old(w)@.nodes.len() && m != kid as int implies #[trigger] view_nodes(
                        w.nodes@,
                    )[m] == view_nodes(nsnap)[m] by {
                        assert(w.nodes@[m] == nsnap[m]);
                    }
                }
                j = j + 1;
            }
            w.actors[a].needs_height_fix = false;
            proof {
                assert(view_actors(w.actors@)[a as int] =~= ActorV {
                    needs_height_fix: false,
                    ..old(w)@.actors[a as int]
                });
                assert forall|x: int|
                    0 <= x < n as int && x != a as int implies #[trigger] view_actors(w.actors@)[x]
                    == view_actors(asnap)[x] by {
                    assert(w.actors@[x] == asnap[x]);
                }
                assert forall|m: int|
                    0 <= m < old(w)@.nodes.len() implies #[trigger] view_nodes(w.nodes@)[m]
                    == (SceneNodeV {
                    y_offset: height_fix_y_upto(old(w)@, m, a as int + 1),
                    ..old(w)@.nodes[m]
                }) by {
                    lemma_height_fix_step(old(w)@, m, a as int);
                }
            }
        } else {
            proof {
                assert(view_actors(w.actors@)[a as int] =~= ActorV {
                    needs_height_fix: old(w)@.actors[a as int].needs_height_fix && !((old(
                        w,
                    )@.actors[a as int].is_character || old(w)@.actors[a as int].is_monster) && old(
                        w,
                    )@.actors[a as int].kids.len() > 0),
                    ..old(w)@.actors[a as int]
                });
                assert forall|m: int|
                    0 <= m < old(w)@.nodes.len() implies #[trigger] view_nodes(w.nodes@)[m]
                    == (SceneNodeV {
                    y_offset: height_fix_y_upto(old(w)@, m, a as int + 1),
                    ..old(w)@.nodes[m]
                }) by {
                    lemma_height_fix_skip(old(w)@, m, a as int);
                }
            }
        }
        a = a + 1;
    }
    proof {
        assert(w@.cameras =~= old(w)@.cameras);
        assert(world_wf(w@)) by {
            assert forall|x: int|
                0 <= x < w@.actors.len() implies (#[trigger] w@.actors[x]).kids == old(
                w,
            )@.actors[x].kids && w@.actors[x].transform == old(w)@.actors[x].transform
                && w@.actors[x].bind == old(w)@.actors[x].bind by {
                assert(w@.actors[x] == view_actors(w.actors@)[x]);
            }
            assert forall|m: int|
                0 <= m < w@.nodes.len() implies (#[trigger] w@.nodes[m]).kids == old(
                w,
            )@.nodes[m].kids by {
                assert(w@.nodes[m] == view_nodes(w.nodes@)[m]);
            }
        }
    }
}

/// Node `m` stands among the first `j` subtree roots of actor `a`.
pub open spec fn kid_of_prefix(w: WorldV, a: int, j: int, m: int) -> bool {
    exists|jj: int| 0 <= jj < j && (#[trigger] w.actors[a].kids[jj]) as int == m
}

/// Processing one whole flagged creature advances the height-fix frontier.
proof fn lemma_height_fix_step(w: WorldV, m: int, a: int)
    requires
        0 <= a < w.actors.len(),
        0 <= m < w.nodes.len(),
        kids_disjoint(w),
        w.actors[a].needs_height_fix,
        w.actors[a].is_character || w.actors[a].is_monster,
    ensures
        kid_of_prefix(w, a, w.actors[a].kids.len() as int, m) ==> height_fix_y_upto(w, m, a + 1)
            == (if w.actors[a].is_monster {
            MONSTER_MOUNT_Y as int
        } else {
            CHARACTER_MOUNT_Y as int
        }),
        !kid_of_prefix(w, a, w.actors[a].kids.len() as int, m) ==> height_fix_y_upto(w, m, a + 1)
            == height_fix_y_upto(w, m, a),
{
    if kid_of_prefix(w, a, w.actors[a].kids.len() as int, m) {
        let jj = choose|jj: int|
            0 <= jj < w.actors[a].kids.len() && (#[trigger] w.actors[a].kids[jj]) as int == m;
        if w.actors[a].is_monster {
            assert(flagged_owner_upto(w, m, a + 1, true));
        } else {
            assert(flagged_owner_upto(w, m, a + 1, false));
            assert(!flagged_owner_upto(w, m, a + 1, true)) by {
                if flagged_owner_upto(w, m, a + 1, true) {
                    let (a2, j2) = choose|a2: int, j2: int|
                        0 <= a2 < a + 1 && 0 <= j2 < w.actors[a2].kids.len() && (
                        #[trigger] w.actors[a2].kids[j2]) as int == m && w.actors[a2].is_monster
                            && w.actors[a2].needs_height_fix;
                    if a2 != a {
                        assert(w.actors[a].kids[jj] == w.actors[a2].kids[j2]);
                    }
                    assert(a2 == a);
                }
            }
        }
    } else {
        assert(flagged_owner_upto(w, m, a + 1, true) == flagged_owner_upto(w, m, a, true)) by {
            if flagged_owner_upto(w, m, a + 1, true) && !flagged_owner_upto(w, m, a, true) {
                let (a2, j2) = choose|a2: int, j2: int|
                    0 <= a2 < a + 1 && 0 <= j2 < w.actors[a2].kids.len() && (
                    #[trigger] w.actors[a2].kids[j2]) as int == m && w.actors[a2].is_monster
                        && w.actors[a2].needs_height_fix;
                assert(a2 == a);
                assert(kid_of_prefix(w, a, w.actors[a].kids.len() as int, m));
            }
        }
        assert(flagged_owner_upto(w, m, a + 1, false) == flagged_owner_upto(w, m, a, false)) by {
            if flagged_owner_upto(w, m, a + 1, false) && !flagged_owner_upto(w, m, a, false) {
                let (a2, j2) = choose|a2: int, j2: int|
                    0 <= a2 < a + 1 && 0 <= j2 < w.actors[a2].kids.len() && (
                    #[trigger] w.actors[a2].kids[j2]) as int == m && w.actors[a2].is_character
                        && w.actors[a2].needs_height_fix;
                assert(a2 == a);
                assert(kid_of_prefix(w, a, w.actors[a].kids.len() as int, m));
            }
        }
    }
}

/// Skipping an actor that owes no fix leaves the frontier value unchanged.
proof fn lemma_height_fix_skip(w: WorldV, m: int, a: int)
    requires
        0 <= a < w.actors.len(),
        0 <= m < w.nodes.len(),
        !(w.actors[a].needs_height_fix && (w.actors[a].is_character || w.actors[a].is_monster)
            && w.actors[a].kids.len() > 0),
    ensures
        height_fix_y_upto(w, m, a + 1) == height_fix_y_upto(w, m, a),
{
    assert(flagged_owner_upto(w, m, a + 1, true) == flagged_owner_upto(w, m, a, true)) by {
        if flagged_owner_upto(w, m, a + 1, true) && !flagged_owner_upto(w, m, a, true) {
            let (a2, j2) = choose|a2: int, j2: int|
                0 <= a2 < a + 1 && 0 <= j2 < w.actors[a2].kids.len() && (
                #[trigger] w.actors[a2].kids[j2]) as int == m && w.actors[a2].is_monster
                    && w.actors[a2].needs_height_fix;
            assert(a2 == a);
        }
    }
    assert(flagged_owner_upto(w, m, a + 1, false) == flagged_owner_upto(w, m, a, false)) by {
        if flagged_owner_upto(w, m, a + 1, false) && !flagged_owner_upto(w, m, a, false) {
            let (a2, j2) = choose|a2: int, j2: int|
                0 <= a2 < a + 1 && 0 <= j2 < w.actors[a2].kids.len() && (
                #[trigger] w.actors[a2].kids[j2]) as int == m && w.actors[a2].is_character
                    && w.actors[a2].needs_height_fix;
            assert(a2 == a);
        }
    }
}

} // verus!
