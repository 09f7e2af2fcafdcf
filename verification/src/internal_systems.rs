//! The systems that a world's content implies; none of them is declared as an asset.

use crate::camera_controller::CameraController;
use vstd::prelude::*;

verus! {

/// A system that is constructed because the world holds what it works on.
#[derive(Debug, Clone, Copy)]
pub enum InternalSystem {
    /// The renderer driver, for a declared graphics configuration.
    Graphics,
    /// The controller of the first camera that asks for one, with its settings.
    Camera3D { controller: CameraController },
    /// Playback, for any declared animation.
    Animation,
}

impl InternalSystem {
    /// The system's name.
    pub fn name(&self) -> (r: &'static str)
        ensures
            r@ == match *self {
                InternalSystem::Graphics => "GraphicsSystem"@,
                InternalSystem::Camera3D { .. } => "Camera3DSystem"@,
                InternalSystem::Animation => "AnimationSystem"@,
            },
    {
        match self {
            InternalSystem::Graphics => "GraphicsSystem",
            InternalSystem::Camera3D { .. } => "Camera3DSystem",
            InternalSystem::Animation => "AnimationSystem",
        }
    }
}

/// The first camera with a controller is the one at a place.
pub open spec fn is_controlled(cameras: Seq<Option<CameraController>>, i: int) -> bool {
    &&& 0 <= i < cameras.len()
    &&& cameras[i] is Some
    &&& forall|j: int| 0 <= j < i ==> #[trigger] cameras[j] is None
}

/// The camera controller that the cameras imply.
pub open spec fn camera_systems(cameras: Seq<Option<CameraController>>) -> Seq<InternalSystem> {
    if exists|i: int| is_controlled(cameras, i) {
        let i = choose|i: int| is_controlled(cameras, i);
        seq![InternalSystem::Camera3D { controller: cameras[i]->0 }]
    } else {
        Seq::empty()
    }
}

/// The renderer driver that a configuration implies.
pub open spec fn graphics_systems(declared: bool) -> Seq<InternalSystem> {
    if declared {
        seq![InternalSystem::Graphics]
    } else {
        Seq::empty()
    }
}

/// The playback that animations imply.
pub open spec fn animation_systems(animations: nat) -> Seq<InternalSystem> {
    if animations > 0 {
        seq![InternalSystem::Animation]
    } else {
        Seq::empty()
    }
}

/// The systems that a world implies. The renderer driver runs before all others, since
/// they read the input that it publishes. A camera whose controller is none has none.
pub fn internal_systems(
    declares_graphics: bool,
    cameras: &Vec<Option<CameraController>>,
    animations: usize,
) -> (r: Vec<InternalSystem>)
    ensures
        r@ == graphics_systems(declares_graphics) + camera_systems(cameras@) + animation_systems(
            animations as nat,
        ),
{
    let mut out: Vec<InternalSystem> = Vec::new();
    if declares_graphics {
        out.push(InternalSystem::Graphics);
    }
    assert(out@ =~= graphics_systems(declares_graphics));
    let ghost graphics = out@;
    match first_controller(cameras) {
        Some(controller) => {
            out.push(InternalSystem::Camera3D { controller });
        },
        None => {},
    }
    assert(out@ =~= graphics + camera_systems(cameras@));
    if animations > 0 {
        out.push(InternalSystem::Animation);
    }
    assert(out@ =~= graphics + camera_systems(cameras@) + animation_systems(animations as nat));
    out
}

fn first_controller(cameras: &Vec<Option<CameraController>>) -> (r: Option<CameraController>)
    ensures
        match r {
            Some(c) => camera_systems(cameras@) == seq![
                InternalSystem::Camera3D { controller: c },
            ],
            None => camera_systems(cameras@) == Seq::<InternalSystem>::empty(),
        },
{
    let mut i: usize = 0;
    while i < cameras.len()
        invariant
            i <= cameras@.len(),
            forall|j: int| 0 <= j < i ==> #[trigger] cameras@[j] is None,
        decreases cameras@.len() - i,
    {
        match cameras[i] {
            Some(c) => {
                proof {
                    assert(is_controlled(cameras@, i as int));
                    let first = choose|k: int| is_controlled(cameras@, k);
                    assert(first == i) by {
                        if first < i {
                            assert(cameras@[first] is None);
                        }
                        if first > i {
                            assert(cameras@[i as int] is None);
                        }
                    }
                }
                return Some(c);
            },
            None => {},
        }
        i = i + 1;
    }
    proof {
        assert forall|k: int| !is_controlled(cameras@, k) by {
            if 0 <= k < cameras@.len() {
                assert(cameras@[k] is None);
            }
        }
    }
    None
}

/// The systems are those that the content implies, in order: the renderer driver exactly where
/// graphics are declared, then the first camera controller there is, then playback exactly
/// where there is an animation.
pub proof fn law_content_implies_its_systems(
    declared: bool,
    cameras: Seq<Option<CameraController>>,
    animations: nat,
    i: int,
)
    ensures
        ({
            let all = graphics_systems(declared) + camera_systems(cameras) + animation_systems(
                animations,
            );
            let first: int = if declared {
                1
            } else {
                0
            };
            &&& declared ==> all[0] is Graphics
            &&& 0 <= i < cameras.len() && cameras[i] is Some && (forall|j: int|
                0 <= j < i ==> #[trigger] cameras[j] is None) ==> all[first] == (
            InternalSystem::Camera3D { controller: cameras[i]->0 })
            &&& (forall|j: int| 0 <= j < cameras.len() ==> #[trigger] cameras[j] is None)
                ==> all.len() == first + (if animations > 0 {
                1int
            } else {
                0
            })
            &&& animations > 0 ==> all.last() is Animation
            &&& animations == 0 && all.len() > 0 ==> !(all.last() is Animation)
        }),
{
    if 0 <= i < cameras.len() && cameras[i] is Some && (forall|j: int|
        0 <= j < i ==> #[trigger] cameras[j] is None) {
        assert(is_controlled(cameras, i));
        let c = choose|c: int| is_controlled(cameras, c);
        assert(c == i) by {
            if c < i {
                assert(cameras[c] is None);
            }
            if c > i {
                assert(cameras[i] is None);
            }
        }
    }
    if forall|j: int| 0 <= j < cameras.len() ==> #[trigger] cameras[j] is None {
        assert forall|c: int| !is_controlled(cameras, c) by {
            if 0 <= c < cameras.len() {
                assert(cameras[c] is None);
            }
        }
    }
}

} // verus!
