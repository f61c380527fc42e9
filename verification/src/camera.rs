//! Orbit camera controller: input mapping and subject following.
//!
//! The input map sums the tick's pointer deltas into one vector and, through
//! the first enabled controller only, emits an orbit event scaled by the
//! rotate sensitivity — plus a translate-target event while the pan input is
//! held. The follow step re-targets every camera at the subject plus a fixed
//! vertical offset and re-asserts a fixed following distance along the
//! previous eye direction; it runs only when the subject's transform changed
//! last tick, and skips the distance step when eye and subject coincide
//! rather than normalize a zero-length direction.

use vstd::prelude::*;

use crate::fixed::{
    add2, add3, bounded2, bounded3, is_zero2, is_zero3, normalize3, scale2, scale3, sub3, add2v,
    add3v, scale2v, scale3v, sub3v, unit3v, Fx2, Fx3, V2, V3, MAX_COORD, SCALE,
};
use crate::fixed::{lemma_unit_scale_bounded};
use crate::world::{
    view_cameras, CameraRig, CameraRigV, LookCam, LookCamV, CAM_LIMIT, POS_LIMIT, SENS_LIMIT,
};

verus! {

/// Largest pointer-delta component magnitude accepted per event.
pub const DELTA_LIMIT: i64 = 1_000_000;

/// Most pointer-motion events accepted in one tick.
pub const DELTA_COUNT_LIMIT: usize = 1_000_000;

/// Height of the camera's aim point above the subject's position.
pub const TARGET_LIFT: i64 = 4000;

/// Following distance the camera re-asserts each tick, in fixed units.
pub const FOLLOW_RANGE: i64 = 20000;

/// Control events one tick of the input map emits.
#[derive(Clone, Copy, PartialEq, Eq, Structural, Debug)]
pub struct ControlEvents {
    pub orbit: Option<Fx2>,
    pub pan: Option<Fx2>,
}

/// Sum of the first `upto` pointer deltas.
pub open spec fn deltas_sum(ds: Seq<Fx2>, upto: int) -> V2
    decreases upto,
{
    if upto <= 0 {
        V2 { x: 0, y: 0 }
    } else {
        add2v(deltas_sum(ds, upto - 1), ds[upto - 1]@)
    }
}

/// Index of the first enabled controller, if any.
pub open spec fn first_enabled(cams: Seq<CameraRigV>) -> Option<int>
    decreases cams.len(),
{
    if cams.len() == 0 {
        None
    } else if cams[0].ctl.enabled {
        Some(0int)
    } else {
        match first_enabled(cams.drop_first()) {
            Some(i) => Some(i + 1),
            None => None,
        }
    }
}

/// The orbit event owed for a delta sum and a chosen controller.
pub open spec fn orbit_event(cams: Seq<CameraRigV>, sum: V2) -> Option<V2> {
    match first_enabled(cams) {
        Some(c) => {
            if is_zero2(sum) {
                None
            } else {
                Some(scale2v(sum, cams[c].ctl.mouse_rotate_sensitivity))
            }
        },
        None => None,
    }
}

/// The translate-target event owed for a delta sum, a pan input and a
/// chosen controller.
pub open spec fn pan_event(cams: Seq<CameraRigV>, sum: V2, pan_held: bool) -> Option<V2> {
    match first_enabled(cams) {
        Some(c) => {
            if is_zero2(sum) || !pan_held {
                None
            } else {
                Some(scale2v(sum, cams[c].ctl.mouse_translate_sensitivity))
            }
        },
        None => None,
    }
}

/// Input map: sum the tick's pointer deltas and emit control events through
/// the first enabled controller — none when every controller is disabled,
/// none when the summed delta is zero.
pub fn camera_input_map(cameras: &Vec<CameraRig>, deltas: &Vec<Fx2>, pan_held: bool) -> (r:
    ControlEvents)
    requires
        forall|i: int|
            0 <= i < view_cameras(cameras@).len() ==> -SENS_LIMIT as int <= (#[trigger] view_cameras(
                cameras@,
            )[i]).ctl.mouse_rotate_sensitivity <= SENS_LIMIT as int && -SENS_LIMIT as int
                <= view_cameras(cameras@)[i].ctl.mouse_translate_sensitivity <= SENS_LIMIT as int,
        forall|i: int|
            0 <= i < deltas@.len() ==> bounded2((#[trigger] deltas@[i])@, DELTA_LIMIT as int),
        deltas@.len() <= DELTA_COUNT_LIMIT,
    ensures
        (match r.orbit {
            Some(v) => orbit_event(view_cameras(cameras@), deltas_sum(deltas@, deltas@.len() as int))
                == Some(v@),
            None => orbit_event(view_cameras(cameras@), deltas_sum(deltas@, deltas@.len() as int))
                is None,
        }),
        (match r.pan {
            Some(v) => pan_event(
                view_cameras(cameras@),
                deltas_sum(deltas@, deltas@.len() as int),
                pan_held,
            ) == Some(v@),
            None => pan_event(
                view_cameras(cameras@),
                deltas_sum(deltas@, deltas@.len() as int),
                pan_held,
            ) is None,
        }),
{
    let cv = Ghost(view_cameras(cameras@));
    let n = cameras.len();
    let mut c: usize = 0;
    while c < n && !cameras[c].ctl.enabled
        invariant
            0 <= c <= n,
            n == cameras@.len(),
            cv@ == view_cameras(cameras@),
            forall|i: int| 0 <= i < c ==> !(#[trigger] cv@[i]).ctl.enabled,
        decreases n - c,
    {
        proof {
            assert(cv@[c as int] == cameras@[c as int]@);
        }
        c = c + 1;
    }
    proof {
        if c < n {
            assert(cv@[c as int] == cameras@[c as int]@);
            lemma_first_enabled_scan(cv@, Some(c as int));
        } else {
            lemma_first_enabled_scan(cv@, None);
        }
    }
    if c >= n {
        return ControlEvents { orbit: None, pan: None };
    }
    let ctl_idx = c;
    let mut sum = Fx2 { x: 0, y: 0 };
    let mut i: usize = 0;
    while i < deltas.len()
        invariant
            0 <= i <= deltas@.len(),
            deltas@.len() <= DELTA_COUNT_LIMIT,
            forall|j: int|
                0 <= j < deltas@.len() ==> bounded2((#[trigger] deltas@[j])@, DELTA_LIMIT as int),
            sum@ == deltas_sum(deltas@, i as int),
            bounded2(sum@, i as int * DELTA_LIMIT as int),
        decreases deltas@.len() - i,
    {
        sum = add2(sum, deltas[i]);
        i = i + 1;
    }
    let rotate = cameras[ctl_idx].ctl.mouse_rotate_sensitivity;
    let translate = cameras[ctl_idx].ctl.mouse_translate_sensitivity;
    proof {
        assert(cv@[ctl_idx as int] == cameras@[ctl_idx as int]@);
    }
    if sum.x == 0 && sum.y == 0 {
        return ControlEvents { orbit: None, pan: None };
    }
    let orbit = scale2(sum, rotate);
    let pan = if pan_held {
        Some(scale2(sum, translate))
    } else {
        None
    };
    ControlEvents { orbit: Some(orbit), pan }
}

/// A prefix scan that stops at the first enabled controller matches
/// `first_enabled`.
proof fn lemma_first_enabled_scan(cams: Seq<CameraRigV>, hit: Option<int>)
    requires
        match hit {
            Some(c) => 0 <= c < cams.len() && cams[c].ctl.enabled && forall|i: int|
                0 <= i < c ==> !(#[trigger] cams[i]).ctl.enabled,
            None => forall|i: int| 0 <= i < cams.len() ==> !(#[trigger] cams[i]).ctl.enabled,
        },
    ensures
        first_enabled(cams) == hit,
    decreases cams.len(),
{
    if cams.len() > 0 {
        if cams[0].ctl.enabled {
        } else {
            match hit {
                Some(c) => {
                    assert forall|i: int|
                        0 <= i < c - 1 implies !(#[trigger] cams.drop_first()[i]).ctl.enabled by {
                        assert(cams.drop_first()[i] == cams[i + 1]);
                    }
                    assert(cams.drop_first()[c - 1] == cams[c]);
                    lemma_first_enabled_scan(cams.drop_first(), Some(c - 1));
                },
                None => {
                    assert forall|i: int|
                        0 <= i < cams.drop_first().len() implies !(#[trigger] cams.drop_first()[i]).ctl.enabled by {
                        assert(cams.drop_first()[i] == cams[i + 1]);
                    }
                    lemma_first_enabled_scan(cams.drop_first(), None);
                },
            }
        }
    }
}

/// Where the follow step leaves one camera: aim above the subject, and stand
/// at the following distance along the previous eye direction — unless the
/// eye coincides with the subject, in which case the distance step is
/// skipped for this tick.
pub open spec fn follow_cam(c: CameraRigV, pos: V3) -> CameraRigV {
    let tgt = add3v(pos, V3 { x: 0, y: TARGET_LIFT as int, z: 0 });
    let diff = sub3v(c.look.eye, pos);
    if is_zero3(diff) {
        CameraRigV { look: LookCamV { eye: c.look.eye, target: tgt }, ..c }
    } else {
        CameraRigV {
            look: LookCamV {
                eye: add3v(pos, scale3v(unit3v(diff), FOLLOW_RANGE as int)),
                target: tgt,
            },
            ..c
        }
    }
}

/// Follow step: when the subject moved last tick, retarget every camera at
/// it and re-assert the following distance, guarding the degenerate case.
pub fn look_at_character(
    cameras: &mut Vec<CameraRig>,
    subject_pos: Fx3,
    subject_present: bool,
    subject_changed: bool,
)
    requires
        bounded3(subject_pos@, POS_LIMIT as int),
        forall|i: int|
            0 <= i < view_cameras(old(cameras)@).len() ==> bounded3(
                (#[trigger] view_cameras(old(cameras)@)[i]).look.eye,
                CAM_LIMIT as int,
            ) && bounded3(view_cameras(old(cameras)@)[i].look.target, CAM_LIMIT as int),
    ensures
        view_cameras(final(cameras)@).len() == view_cameras(old(cameras)@).len(),
        subject_present && subject_changed ==> forall|i: int|
            0 <= i < view_cameras(old(cameras)@).len() ==> #[trigger] view_cameras(
                final(cameras)@,
            )[i] == follow_cam(view_cameras(old(cameras)@)[i], subject_pos@),
        !(subject_present && subject_changed) ==> view_cameras(final(cameras)@) == view_cameras(
            old(cameras)@,
        ),
        forall|i: int|
            0 <= i < view_cameras(final(cameras)@).len() ==> bounded3(
                (#[trigger] view_cameras(final(cameras)@)[i]).look.eye,
                CAM_LIMIT as int,
            ) && bounded3(view_cameras(final(cameras)@)[i].look.target, CAM_LIMIT as int),
{
    if !(subject_present && subject_changed) {
        proof {
            assert(view_cameras(cameras@) =~= view_cameras(old(cameras)@));
        }
        return ;
    }
    let n = cameras.len();
    let mut i: usize = 0;
    while i < n
        invariant
            0 <= i <= n,
            n == cameras@.len(),
            cameras@.len() == old(cameras)@.len(),
            bounded3(subject_pos@, POS_LIMIT as int),
            forall|x: int|
                0 <= x < n ==> bounded3(
                    (#[trigger] view_cameras(old(cameras)@)[x]).look.eye,
                    CAM_LIMIT as int,
                ) && bounded3(view_cameras(old(cameras)@)[x].look.target, CAM_LIMIT as int),
            forall|x: int|
                0 <= x < i ==> #[trigger] view_cameras(cameras@)[x] == follow_cam(
                    view_cameras(old(cameras)@)[x],
                    subject_pos@,
                ),
            forall|x: int|
                i <= x < n ==> #[trigger] view_cameras(cameras@)[x] == view_cameras(
                    old(cameras)@,
                )[x],
        decreases n - i,
    {
        let ghost snap = cameras@;
        proof {
            assert(view_cameras(cameras@)[i as int] == cameras@[i as int]@);
        }
        let eye = cameras[i].look.eye;
        let target = add3(
            subject_pos,
            Fx3 { x: 0, y: TARGET_LIFT, z: 0 },
        );
        let diff = sub3(eye, subject_pos);
        match normalize3(diff) {
            Some(line) => {
                let new_eye = add3(subject_pos, scale3(line, FOLLOW_RANGE));
                cameras[i].look = LookCam { eye: new_eye, target };
            },
            None => {
                cameras[i].look = LookCam { eye, target };
            },
        }
        proof {
            assert(view_cameras(cameras@)[i as int] == cameras@[i as int]@);
            assert(view_cameras(cameras@)[i as int] =~= follow_cam(
                view_cameras(old(cameras)@)[i as int],
                subject_pos@,
            ));
            assert forall|x: int|
                0 <= x < n as int && x != i as int implies #[trigger] view_cameras(cameras@)[x]
                == view_cameras(snap)[x] by {
                assert(cameras@[x] == snap[x]);
            }
        }
        i = i + 1;
    }
    proof {
        assert forall|x: int|
            0 <= x < view_cameras(cameras@).len() implies bounded3(
            (#[trigger] view_cameras(cameras@)[x]).look.eye,
            CAM_LIMIT as int,
        ) && bounded3(view_cameras(cameras@)[x].look.target, CAM_LIMIT as int) by {
            assert(view_cameras(cameras@)[x] == follow_cam(
                view_cameras(old(cameras)@)[x],
                subject_pos@,
            ));
            let c0 = view_cameras(old(cameras)@)[x];
            let diff = sub3v(c0.look.eye, subject_pos@);
            if !is_zero3(diff) {
                lemma_unit_scale_bounded(diff, FOLLOW_RANGE as int);
            }
        }
    }
}

} // verus!
