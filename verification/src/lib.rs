//! Conversion of sampled skeletal animation data into a hierarchical,
//! time-indexed keyframe sequence for the Roblox engine.
//!
//! The pipeline classifies which scene nodes are animated bones, merges
//! per-bone time-keyed tracks into unified cross-bone keyframes expressed
//! relative to each bone's rest pose, optionally prunes bones whose pose
//! never changes, and arranges the result into an instance tree that an
//! external serializer can emit.
use vstd::prelude::*;

pub mod converter;
pub mod rigid;
pub mod types;
pub mod utils;

pub use converter::create_keyframe_sequence_dom;
pub use converter::extract_keyframes_from_scene;
pub use converter::filter_identical_bone_poses;
pub use converter::Instance;
pub use converter::InstanceKind;
pub use converter::InstanceTree;
pub use types::BoneTable;
pub use types::CFrame;
pub use types::Clip;
pub use types::ConversionConfig;
pub use types::Keyframe;
pub use types::NodeInfo;
pub use types::Pose;
pub use types::PositionKey;
pub use types::RotationKey;
pub use types::SceneData;
pub use types::SceneNode;
pub use types::Tolerance;
pub use types::Track;
pub use utils::approx_equal_cframe;
pub use utils::approx_equal_matrix3;
pub use utils::approx_equal_vec3;
pub use utils::get_bone_infos;

use vstd::prelude::*;

verus! {

/// What a whole conversion yields: some keyframe list extracted from the
/// scene's channels against its resolved bone table, simplified with the
/// given tolerance where filtering is on.
pub open spec fn converted(r: Seq<types::Keyframe>, scene: types::SceneData, filter: bool, eps: u32) -> bool {
    exists|mid: Seq<types::Keyframe>|
        #[trigger] converter::keyframes_of(mid, converter::scene_channels(scene), utils::scene_bones(scene))
            && types::keyframes_model(r) == (if filter {
            converter::simplified(types::keyframes_model(mid), eps)
        } else {
            types::keyframes_model(mid)
        })
}

/// Main library API for converting scene animation data to keyframes.
pub struct AnimationConverter {
    /// Whether to filter out bones with identical poses across all keyframes.
    pub filter_identical_bones: bool,
    /// Tolerance for pose comparisons.
    pub epsilon: types::Tolerance,
}

impl Default for AnimationConverter {
    /// The default converter: filtering on, with the default tolerance.
    fn default() -> (r: AnimationConverter)
        ensures
            r.filter_identical_bones,
            r.epsilon.bits() == rigid::TOLERANCE_DEFAULT_BITS,
    {
        AnimationConverter {
            filter_identical_bones: true,
            epsilon: types::Tolerance::default_value(),
        }
    }
}

impl AnimationConverter {
    /// Create a converter with custom settings.
    pub fn new(filter_identical_bones: bool, epsilon: types::Tolerance) -> (r: AnimationConverter)
        ensures
            r.filter_identical_bones == filter_identical_bones,
            r.epsilon == epsilon,
    {
        AnimationConverter { filter_identical_bones, epsilon }
    }

    /// Builder method to set whether to filter identical bones.
    pub fn with_filter_identical_bones(self, enabled: bool) -> (r: AnimationConverter)
        ensures
            r.filter_identical_bones == enabled,
            r.epsilon == self.epsilon,
    {
        AnimationConverter { filter_identical_bones: enabled, epsilon: self.epsilon }
    }

    /// Builder method to set the comparison tolerance.
    pub fn with_epsilon(self, epsilon: types::Tolerance) -> (r: AnimationConverter)
        ensures
            r.filter_identical_bones == self.filter_identical_bones,
            r.epsilon == epsilon,
    {
        AnimationConverter { filter_identical_bones: self.filter_identical_bones, epsilon }
    }

    /// Convert a scene to keyframes: resolve the bone hierarchy, extract the
    /// keyframes, and prune identical bones where configured.
    pub fn convert_scene_to_keyframes(&self, scene: &types::SceneData) -> (r: Vec<types::Keyframe>)
        ensures
            converted(r@, *scene, self.filter_identical_bones, self.epsilon.bits()),
    {
        let bone_infos = utils::get_bone_infos(scene);
        let mut keyframes = self.extract_keyframes(scene, &bone_infos);
        let ghost mid = keyframes@;
        if self.filter_identical_bones {
            self.filter_identical_poses(&mut keyframes);
        }
        proof {
            assert(converter::keyframes_of(
                mid,
                converter::scene_channels(*scene),
                utils::scene_bones(*scene),
            ));
        }
        keyframes
    }

    fn extract_keyframes(&self, scene: &types::SceneData, bone_infos: &types::BoneTable) -> (r:
        Vec<types::Keyframe>)
        ensures
            converter::keyframes_of(
                r@,
                converter::scene_channels(*scene),
                bone_infos.map_model(),
            ),
    {
        converter::extract_keyframes_from_scene(scene, bone_infos)
    }

    fn filter_identical_poses(&self, keyframes: &mut Vec<types::Keyframe>)
        ensures
            types::keyframes_model(final(keyframes)@) == converter::simplified(
                types::keyframes_model(old(keyframes)@),
                self.epsilon.bits(),
            ),
    {
        converter::filter_identical_bone_poses(keyframes, &self.epsilon);
    }
}

} // verus!
