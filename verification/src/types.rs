//! Data model of the conversion pipeline.
//!
//! The input side mirrors what a scene-import collaborator hands over: a tree
//! of named nodes with local rest transforms, and a list of animation clips
//! whose tracks carry tick-stamped position and rotation keys. The output
//! side is the keyframe list itself. IEEE-754 values ride opaquely in `glam`
//! types and are modelled by the bit patterns of their lanes (see
//! `crate::rigid`); timestamps in seconds are held directly as bit patterns,
//! which verified code can compare and order.
use vstd::prelude::*;

use crate::rigid::{
    dscalar_bits, mat3_bits, mat4_bits, rate_default, scalar_bits, tolerance_default_raw,
    vec3_bits, M3Bits, M4Bits, V3Bits, RATE_DEFAULT_BITS, TOLERANCE_DEFAULT_BITS,
};

verus! {

/// Model of a rigid transform: translation and rotation-basis bit patterns.
pub type CFBits = (V3Bits, M3Bits);

/// Model of a pose: the bone name and the transform's bit patterns.
pub type PoseM = (Seq<char>, CFBits);

/// Model of a bone-table entry: rest-transform bit patterns and parent name.
pub type NodeInfoM = (M4Bits, Option<Seq<char>>);

/// A tolerance for componentwise comparison of rigid transforms.
///
/// The IEEE single-precision value rides in the x lane of `raw`; the y lane
/// is ignored.
pub struct Tolerance {
    pub raw: glam::Vec2,
}

impl Tolerance {
    /// Bit pattern of the tolerance value.
    pub open spec fn bits(self) -> u32 {
        scalar_bits(self.raw)
    }

    /// The default tolerance of one hundred-thousandth.
    pub fn default_value() -> (r: Tolerance)
        ensures
            r.bits() == TOLERANCE_DEFAULT_BITS,
    {
        Tolerance { raw: tolerance_default_raw() }
    }
}

/// A position key of a track: a tick count and a 3-vector, as authored in
/// the source animation.
pub struct PositionKey {
    /// Tick count, in the x lane.
    pub time: glam::DVec2,
    /// The keyed position.
    pub value: glam::Vec3,
}

/// A rotation key of a track: a tick count and a unit quaternion.
pub struct RotationKey {
    /// Tick count, in the x lane.
    pub time: glam::DVec2,
    /// The keyed rotation.
    pub value: glam::Quat,
}

/// The raw per-bone time-keyed data of one animation channel.
pub struct Track {
    /// Name of the node this track animates.
    pub name: String,
    pub position_keys: Vec<PositionKey>,
    pub rotation_keys: Vec<RotationKey>,
}

/// One animation clip: a tick rate and its tracks.
pub struct Clip {
    /// Declared ticks per second, in the x lane; a non-positive value means
    /// "unspecified" and falls back to the default of 24.
    pub ticks_per_second: glam::DVec2,
    pub tracks: Vec<Track>,
}

/// A node of the scene's rest-pose hierarchy.
pub struct SceneNode {
    pub name: String,
    /// Local rest transform of this node.
    pub transform: glam::Mat4,
    pub children: Vec<SceneNode>,
}

/// Everything the pipeline reads from an imported scene.
pub struct SceneData {
    pub root: Option<SceneNode>,
    pub clips: Vec<Clip>,
}

/// Information about a node classified as a bone.
pub struct NodeInfo {
    /// The rest/bind pose transformation matrix for this node.
    pub rest_transform: glam::Mat4,
    /// The name of the nearest bone ancestor, if any.
    pub parent: Option<String>,
}

impl NodeInfo {
    /// Mathematical model: the rest transform's bit patterns and the parent
    /// name.
    pub open spec fn model(self) -> NodeInfoM {
        (mat4_bits(self.rest_transform), opt_name(self.parent))
    }
}

/// View of an optional name.
pub open spec fn opt_name(n: Option<String>) -> Option<Seq<char>> {
    match n {
        Option::Some(s) => Option::Some(s@),
        Option::None => Option::None,
    }
}

/// A rigid transform: a translation and an orthonormal 3x3 rotation basis.
pub struct CFrame {
    pub position: glam::Vec3,
    pub orientation: glam::Mat3,
}

impl CFrame {
    /// Mathematical model: the bit patterns of the translation and of the
    /// three basis columns.
    pub open spec fn bits(self) -> CFBits {
        (vec3_bits(self.position), mat3_bits(self.orientation))
    }
}

/// A pose for a specific bone at a specific time, relative to its rest pose.
pub struct Pose {
    /// The name of the bone this pose applies to.
    pub name: String,
    /// The rigid transform of this pose.
    pub cframe: CFrame,
}

impl Pose {
    /// Mathematical model: the bone name and the transform's bit patterns.
    pub open spec fn model(self) -> PoseM {
        (self.name@, self.cframe.bits())
    }
}

/// A keyframe: the poses of all bones with data at one timestamp.
pub struct Keyframe {
    /// The time of this keyframe in seconds, as an IEEE double-precision bit
    /// pattern.
    pub time: u64,
    /// The poses for all animated bones at this time.
    pub poses: Vec<Pose>,
}

impl Keyframe {
    /// Mathematical model: the time and the models of the poses, in order.
    pub open spec fn model(self) -> (u64, Seq<PoseM>) {
        (self.time, self.poses@.map_values(|p: Pose| p.model()))
    }
}

/// Model of a keyframe list: each keyframe's time and pose models, in order.
pub open spec fn keyframes_model(kfs: Seq<Keyframe>) -> Seq<(u64, Seq<PoseM>)> {
    kfs.map_values(|kf: Keyframe| kf.model())
}

/// Configuration options for animation conversion.
pub struct ConversionConfig {
    /// Whether to filter out bones with identical poses across all keyframes.
    pub filter_identical_bones: bool,
    /// Tolerance for the identical-pose comparison.
    pub epsilon: Tolerance,
    /// Ticks per second assumed when a clip declares a non-positive rate, in
    /// the x lane.
    pub default_ticks_per_second: glam::DVec2,
}

impl Default for ConversionConfig {
    /// The default configuration: filtering on, tolerance of one
    /// hundred-thousandth, 24 ticks per second.
    fn default() -> (r: ConversionConfig)
        ensures
            r.filter_identical_bones,
            r.epsilon.bits() == TOLERANCE_DEFAULT_BITS,
            dscalar_bits(r.default_ticks_per_second) == RATE_DEFAULT_BITS,
    {
        ConversionConfig {
            filter_identical_bones: true,
            epsilon: Tolerance::default_value(),
            default_ticks_per_second: rate_default(),
        }
    }
}

/// The table of bones found by the hierarchy resolver.
///
/// Entries are appended in traversal order; where a name occurs twice, the
/// later entry wins, so the table denotes the map built by inserting the
/// entries left to right.
pub struct BoneTable {
    pub entries: Vec<(String, NodeInfo)>,
}

/// The map denoted by a sequence of name/info entries, later entries
/// overriding earlier ones.
pub open spec fn entries_map(s: Seq<(String, NodeInfo)>) -> Map<Seq<char>, NodeInfoM>
    decreases s.len(),
{
    if s.len() == 0 {
        Map::empty()
    } else {
        entries_map(s.drop_last()).insert(s.last().0@, s.last().1.model())
    }
}

impl BoneTable {
    /// Mathematical model: a map from bone name to rest transform and parent.
    pub open spec fn map_model(self) -> Map<Seq<char>, NodeInfoM> {
        entries_map(self.entries@)
    }

    /// An empty table.
    pub fn new() -> (r: BoneTable)
        ensures
            r.map_model() == Map::<Seq<char>, NodeInfoM>::empty(),
    {
        BoneTable { entries: Vec::new() }
    }

    /// Record `info` under `name`, overriding any earlier entry of that name.
    pub fn insert(&mut self, name: &String, info: NodeInfo)
        ensures
            final(self).map_model() == old(self).map_model().insert(name@, info.model()),
    {
        let entry = (name.clone(), info);
        self.entries.push(entry);
        proof {
            assert(self.entries@.drop_last() =~= old(self).entries@);
        }
    }

    /// Look up the entry recorded under `name`, if any.
    pub fn get(&self, name: &String) -> (r: Option<&NodeInfo>)
        ensures
            match r {
                Option::Some(info) => self.map_model().dom().contains(name@)
                    && info.model() == self.map_model()[name@],
                Option::None => !self.map_model().dom().contains(name@),
            },
    {
        let mut i: usize = self.entries.len();
        while i > 0
            invariant
                i <= self.entries@.len(),
                forall|j: int| i <= j < self.entries@.len() ==> self.entries@[j].0@ != name@,
            decreases i,
        {
            i = i - 1;
            if self.entries[i].0 == *name {
                proof {
                    lemma_entries_map_found(self.entries@, i as int, name@);
                }
                return Option::Some(&self.entries[i].1);
            }
        }
        proof {
            lemma_entries_map_absent(self.entries@, name@);
        }
        Option::None
    }
}

/// Where every entry at or after `i` misses `k` and entry `i` carries `k`,
/// the denoted map holds entry `i`'s info at `k`.
proof fn lemma_entries_map_found(s: Seq<(String, NodeInfo)>, i: int, k: Seq<char>)
    requires
        0 <= i < s.len(),
        s[i].0@ == k,
        forall|j: int| i < j < s.len() ==> s[j].0@ != k,
    ensures
        entries_map(s).dom().contains(k),
        entries_map(s)[k] == s[i].1.model(),
    decreases s.len(),
{
    if i == s.len() - 1 {
    } else {
        lemma_entries_map_found(s.drop_last(), i, k);
    }
}

/// Where no entry carries `k`, the denoted map misses `k`.
proof fn lemma_entries_map_absent(s: Seq<(String, NodeInfo)>, k: Seq<char>)
    requires
        forall|j: int| 0 <= j < s.len() ==> s[j].0@ != k,
    ensures
        !entries_map(s).dom().contains(k),
    decreases s.len(),
{
    if s.len() > 0 {
        lemma_entries_map_absent(s.drop_last(), k);
    }
}

} // verus!
