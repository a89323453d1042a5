//! Core conversion logic: merging per-bone tracks into cross-bone keyframes.
use vstd::prelude::*;

use crate::rigid::{
    dscalar_bits, mat3_from_quat, mat3_of_quat, mat4_bits, mat4_translation, mat4_upper3,
    quat_bits, quat_from_mat3, quat_identity, quat_inv, quat_inverse, quat_mul, quat_multiply,
    quat_of_mat3, rate_or_default, secs_of, sub_v3, ticks_to_secs, vec3_bits, vec3_sub, vec3_zero,
    eff_rate, F32_ONE_BITS, M4Bits, QBits, V3Bits,
};
use crate::types::{
    keyframes_model, BoneTable, CFBits, CFrame, Clip, Keyframe, NodeInfoM, Pose, PoseM,
    PositionKey, RotationKey, SceneData, Tolerance, Track,
};
use crate::utils::{approx_equal_cframe, contains_name, lemma_name_set_push, name_set, within_cf};
use crate::rigid::F32_INFINITY_BITS;
use vstd::pervasive::VecAdditionalExecFns;

verus! {

/// Model of one animation channel after tick-to-second conversion: the bone
/// name, the position keys and the rotation keys, each key a time bit
/// pattern and its opaque payload.
pub type ChanM = (Seq<char>, Seq<(u64, glam::Vec3)>, Seq<(u64, glam::Quat)>);

/// Internal structure for looking up one channel's animation data, with key
/// times already converted to seconds.
struct BoneTrack {
    name: String,
    position_keys: Vec<(u64, glam::Vec3)>,
    rotation_keys: Vec<(u64, glam::Quat)>,
}

impl BoneTrack {
    spec fn model(self) -> ChanM {
        (self.name@, self.position_keys@, self.rotation_keys@)
    }
}

/// Position keys converted to seconds at a given rate.
pub open spec fn conv_pos_keys(keys: Seq<PositionKey>, rate: u64) -> Seq<(u64, glam::Vec3)> {
    keys.map_values(|k: PositionKey| (secs_of(dscalar_bits(k.time), rate), k.value))
}

/// Rotation keys converted to seconds at a given rate.
pub open spec fn conv_rot_keys(keys: Seq<RotationKey>, rate: u64) -> Seq<(u64, glam::Quat)> {
    keys.map_values(|k: RotationKey| (secs_of(dscalar_bits(k.time), rate), k.value))
}

/// The rate a clip converts with: its declared rate if positive, else 24.
pub open spec fn clip_rate(c: Clip) -> u64 {
    eff_rate(dscalar_bits(c.ticks_per_second))
}

/// The channels contributed by one clip, in track order.
pub open spec fn clip_channels(c: Clip) -> Seq<ChanM> {
    c.tracks@.map_values(
        |t: Track|
            (
                t.name@,
                conv_pos_keys(t.position_keys@, clip_rate(c)),
                conv_rot_keys(t.rotation_keys@, clip_rate(c)),
            ),
    )
}

/// The channels contributed by a list of clips, in clip order.
pub open spec fn clips_channels(clips: Seq<Clip>) -> Seq<ChanM>
    decreases clips.len(),
{
    if clips.len() == 0 {
        Seq::empty()
    } else {
        clips_channels(clips.drop_last()) + clip_channels(clips.last())
    }
}

/// All channels of a scene.
pub open spec fn scene_channels(s: SceneData) -> Seq<ChanM> {
    clips_channels(s.clips@)
}

/// Whether some key of the sequence is stamped with time `t`.
pub open spec fn pos_keys_have(keys: Seq<(u64, glam::Vec3)>, t: u64) -> bool {
    exists|k: int| 0 <= k < keys.len() && keys[k].0 == t
}

/// Whether some key of the sequence is stamped with time `t`.
pub open spec fn rot_keys_have(keys: Seq<(u64, glam::Quat)>, t: u64) -> bool {
    exists|k: int| 0 <= k < keys.len() && keys[k].0 == t
}

/// Whether a channel has any data at time `t`.
pub open spec fn channel_has_time(ch: ChanM, t: u64) -> bool {
    pos_keys_have(ch.1, t) || rot_keys_have(ch.2, t)
}

/// The global time set: every time stamped on any key of any channel.
pub open spec fn times_set(chs: Seq<ChanM>) -> Set<u64> {
    Set::new(|t: u64| exists|i: int| 0 <= i < chs.len() && channel_has_time(chs[i], t))
}

/// The value of the last position key stamped `t`, if any. Where a track
/// carries two keys with one stamp, the later key wins, as an ordered map
/// built by insertion would record it.
pub open spec fn last_pos_key(keys: Seq<(u64, glam::Vec3)>, t: u64) -> Option<glam::Vec3>
    decreases keys.len(),
{
    if keys.len() == 0 {
        Option::None
    } else if keys.last().0 == t {
        Option::Some(keys.last().1)
    } else {
        last_pos_key(keys.drop_last(), t)
    }
}

/// The value of the last rotation key stamped `t`, if any.
pub open spec fn last_rot_key(keys: Seq<(u64, glam::Quat)>, t: u64) -> Option<glam::Quat>
    decreases keys.len(),
{
    if keys.len() == 0 {
        Option::None
    } else if keys.last().0 == t {
        Option::Some(keys.last().1)
    } else {
        last_rot_key(keys.drop_last(), t)
    }
}

/// The translation column of a rest transform's model.
pub open spec fn m4_translation_bits(m: M4Bits) -> V3Bits {
    (m.3.0, m.3.1, m.3.2)
}

/// The upper-left 3x3 block of a rest transform's model.
pub open spec fn m4_upper_bits(m: M4Bits) -> ((u32, u32, u32), (u32, u32, u32), (u32, u32, u32)) {
    ((m.0.0, m.0.1, m.0.2), (m.1.0, m.1.1, m.1.2), (m.2.0, m.2.1, m.2.2))
}

/// The identity quaternion's bit patterns.
pub open spec fn identity_quat_bits() -> QBits {
    (0u32, 0u32, 0u32, F32_ONE_BITS)
}

/// The rigid transform of the pose a channel emits at time `t`, relative to
/// the rest pose recorded for its bone.
///
/// The translation is the keyed position minus the rest translation, and the
/// rotation is the inverse rest rotation composed with the keyed rotation;
/// either part defaults to zero or identity where the channel has no key of
/// that kind at `t` or where no bone is recorded under the channel's name.
pub open spec fn pose_cf_bits(ch: ChanM, t: u64, bones: Map<Seq<char>, NodeInfoM>) -> CFBits {
    let pos = match last_pos_key(ch.1, t) {
        Option::Some(v) => if bones.dom().contains(ch.0) {
            sub_v3(vec3_bits(v), m4_translation_bits(bones[ch.0].0))
        } else {
            (0u32, 0u32, 0u32)
        },
        Option::None => (0u32, 0u32, 0u32),
    };
    let rot = match last_rot_key(ch.2, t) {
        Option::Some(q) => if bones.dom().contains(ch.0) {
            quat_mul(
                quat_inv(quat_of_mat3(m4_upper_bits(bones[ch.0].0))),
                quat_bits(q),
            )
        } else {
            identity_quat_bits()
        },
        Option::None => identity_quat_bits(),
    };
    (pos, mat3_of_quat(rot))
}

/// The poses of the keyframe at time `t`: one pose per channel with data at
/// `t`, in channel order.
pub open spec fn kf_poses(chs: Seq<ChanM>, t: u64, bones: Map<Seq<char>, NodeInfoM>) -> Seq<PoseM>
    decreases chs.len(),
{
    if chs.len() == 0 {
        Seq::empty()
    } else {
        let prefix = kf_poses(chs.drop_last(), t, bones);
        let ch = chs.last();
        if channel_has_time(ch, t) {
            prefix.push((ch.0, pose_cf_bits(ch, t, bones)))
        } else {
            prefix
        }
    }
}

/// Whether times strictly increase along the sequence.
pub open spec fn sorted_strict(s: Seq<u64>) -> bool {
    forall|i: int, j: int| 0 <= i < j < s.len() ==> s[i] < s[j]
}

/// What the keyframe extractor guarantees: the keyframe times are exactly
/// the global time set, strictly ascending, and each keyframe holds exactly
/// the poses of the channels with data at its time, in channel order.
pub open spec fn keyframes_of(
    kfs: Seq<Keyframe>,
    chs: Seq<ChanM>,
    bones: Map<Seq<char>, NodeInfoM>,
) -> bool {
    &&& sorted_strict(kfs.map_values(|kf: Keyframe| kf.time))
    &&& (forall|t: u64|
        times_set(chs).contains(t) <==> exists|i: int| 0 <= i < kfs.len() && kfs[i].time == t)
    &&& (forall|i: int|
        0 <= i < kfs.len() ==> (#[trigger] kfs[i]).poses@.map_values(|p: Pose| p.model())
            == kf_poses(chs, kfs[i].time, bones))
}

/// A channel with data at `t` guarantees the keyframe at `t` a pose.
proof fn lemma_kf_poses_nonempty(chs: Seq<ChanM>, t: u64, bones: Map<Seq<char>, NodeInfoM>, i: int)
    requires
        0 <= i < chs.len(),
        channel_has_time(chs[i], t),
    ensures
        kf_poses(chs, t, bones).len() > 0,
    decreases chs.len(),
{
    if i == chs.len() - 1 {
    } else {
        assert(chs.drop_last()[i] == chs[i]);
        lemma_kf_poses_nonempty(chs.drop_last(), t, bones, i);
    }
}

/// Look up the last position key stamped `t`.
fn lookup_pos(keys: &Vec<(u64, glam::Vec3)>, t: u64) -> (r: Option<glam::Vec3>)
    ensures
        r == last_pos_key(keys@, t),
{
    let mut i: usize = keys.len();
    proof {
        assert(keys@.take(keys@.len() as int) =~= keys@);
    }
    while i > 0
        invariant
            i <= keys@.len(),
            last_pos_key(keys@, t) == last_pos_key(keys@.take(i as int), t),
        decreases i,
    {
        i = i - 1;
        proof {
            assert(keys@.take(i as int + 1).drop_last() =~= keys@.take(i as int));
            assert(keys@.take(i as int + 1).last() == keys@[i as int]);
        }
        if keys[i].0 == t {
            return Option::Some(keys[i].1);
        }
    }
    Option::None
}

/// Look up the last rotation key stamped `t`.
fn lookup_rot(keys: &Vec<(u64, glam::Quat)>, t: u64) -> (r: Option<glam::Quat>)
    ensures
        r == last_rot_key(keys@, t),
{
    let mut i: usize = keys.len();
    proof {
        assert(keys@.take(keys@.len() as int) =~= keys@);
    }
    while i > 0
        invariant
            i <= keys@.len(),
            last_rot_key(keys@, t) == last_rot_key(keys@.take(i as int), t),
        decreases i,
    {
        i = i - 1;
        proof {
            assert(keys@.take(i as int + 1).drop_last() =~= keys@.take(i as int));
            assert(keys@.take(i as int + 1).last() == keys@[i as int]);
        }
        if keys[i].0 == t {
            return Option::Some(keys[i].1);
        }
    }
    Option::None
}

/// A position key list with a key stamped `t` yields a lookup result, and
/// one without yields none.
proof fn lemma_last_pos_key_some(keys: Seq<(u64, glam::Vec3)>, t: u64)
    ensures
        pos_keys_have(keys, t) <==> last_pos_key(keys, t).is_some(),
    decreases keys.len(),
{
    if keys.len() > 0 {
        lemma_last_pos_key_some(keys.drop_last(), t);
        if pos_keys_have(keys, t) && keys.last().0 != t {
            let k = choose|k: int| 0 <= k < keys.len() && keys[k].0 == t;
            assert(keys.drop_last()[k] == keys[k]);
        }
        if pos_keys_have(keys.drop_last(), t) {
            let k = choose|k: int| 0 <= k < keys.drop_last().len() && keys.drop_last()[k].0 == t;
            assert(keys[k].0 == t);
        }
    }
}

/// A rotation key list with a key stamped `t` yields a lookup result, and
/// one without yields none.
proof fn lemma_last_rot_key_some(keys: Seq<(u64, glam::Quat)>, t: u64)
    ensures
        rot_keys_have(keys, t) <==> last_rot_key(keys, t).is_some(),
    decreases keys.len(),
{
    if keys.len() > 0 {
        lemma_last_rot_key_some(keys.drop_last(), t);
        if rot_keys_have(keys, t) && keys.last().0 != t {
            let k = choose|k: int| 0 <= k < keys.len() && keys[k].0 == t;
            assert(keys.drop_last()[k] == keys[k]);
        }
        if rot_keys_have(keys.drop_last(), t) {
            let k = choose|k: int| 0 <= k < keys.drop_last().len() && keys.drop_last()[k].0 == t;
            assert(keys[k].0 == t);
        }
    }
}

/// Extending the channel prefix by channel `i` extends the time set by that
/// channel's key times.
proof fn lemma_times_set_take_step(chs: Seq<ChanM>, i: int)
    requires
        0 <= i < chs.len(),
    ensures
        forall|x: u64|
            times_set(chs.take(i + 1)).contains(x) <==> (times_set(chs.take(i)).contains(x)
                || channel_has_time(chs[i], x)),
{
    let s1 = chs.take(i + 1);
    let s0 = chs.take(i);
    assert forall|x: u64|
        times_set(s1).contains(x) implies (times_set(s0).contains(x) || channel_has_time(
        chs[i],
        x,
    )) by {
        let j = choose|j: int| 0 <= j < s1.len() && #[trigger] channel_has_time(s1[j], x);
        if j < i {
            assert(s0[j] == chs[j]);
            assert(channel_has_time(s0[j], x));
        }
    }
    assert forall|x: u64|
        times_set(s0).contains(x) || channel_has_time(chs[i], x) implies times_set(s1).contains(
        x,
    ) by {
        if times_set(s0).contains(x) {
            let j = choose|j: int| 0 <= j < s0.len() && #[trigger] channel_has_time(s0[j], x);
            assert(channel_has_time(s1[j], x));
        } else {
            assert(channel_has_time(s1[i], x));
        }
    }
}

/// Extending a position-key prefix by key `k` extends the stamped times by
/// that key's time.
proof fn lemma_pos_keys_have_step(keys: Seq<(u64, glam::Vec3)>, k: int)
    requires
        0 <= k < keys.len(),
    ensures
        forall|x: u64|
            pos_keys_have(keys.take(k + 1), x) <==> (pos_keys_have(keys.take(k), x) || keys[k].0
                == x),
{
    let s1 = keys.take(k + 1);
    let s0 = keys.take(k);
    assert forall|x: u64|
        pos_keys_have(s1, x) implies (pos_keys_have(s0, x) || keys[k].0 == x) by {
        let j = choose|j: int| 0 <= j < s1.len() && (#[trigger] s1[j]).0 == x;
        if j < k {
            assert(s0[j].0 == x);
        }
    }
    assert forall|x: u64|
        pos_keys_have(s0, x) || keys[k].0 == x implies pos_keys_have(s1, x) by {
        if pos_keys_have(s0, x) {
            let j = choose|j: int| 0 <= j < s0.len() && (#[trigger] s0[j]).0 == x;
            assert(s1[j].0 == x);
        } else {
            assert(s1[k].0 == x);
        }
    }
}

/// Extending a rotation-key prefix by key `k` extends the stamped times by
/// that key's time.
proof fn lemma_rot_keys_have_step(keys: Seq<(u64, glam::Quat)>, k: int)
    requires
        0 <= k < keys.len(),
    ensures
        forall|x: u64|
            rot_keys_have(keys.take(k + 1), x) <==> (rot_keys_have(keys.take(k), x) || keys[k].0
                == x),
{
    let s1 = keys.take(k + 1);
    let s0 = keys.take(k);
    assert forall|x: u64|
        rot_keys_have(s1, x) implies (rot_keys_have(s0, x) || keys[k].0 == x) by {
        let j = choose|j: int| 0 <= j < s1.len() && (#[trigger] s1[j]).0 == x;
        if j < k {
            assert(s0[j].0 == x);
        }
    }
    assert forall|x: u64|
        rot_keys_have(s0, x) || keys[k].0 == x implies rot_keys_have(s1, x) by {
        if rot_keys_have(s0, x) {
            let j = choose|j: int| 0 <= j < s0.len() && (#[trigger] s0[j]).0 == x;
            assert(s1[j].0 == x);
        } else {
            assert(s1[k].0 == x);
        }
    }
}

/// Insert `t` into a strictly ascending list, keeping it ascending and
/// duplicate free.
fn insert_time(times: &mut Vec<u64>, t: u64)
    requires
        sorted_strict(old(times)@),
    ensures
        sorted_strict(final(times)@),
        forall|x: u64| final(times)@.contains(x) <==> (old(times)@.contains(x) || x == t),
{
    let mut i: usize = 0;
    while i < times.len() && times[i] < t
        invariant
            i <= times@.len(),
            sorted_strict(times@),
            times@ == old(times)@,
            forall|j: int| 0 <= j < i ==> times@[j] < t,
        decreases times@.len() - i,
    {
        i = i + 1;
    }
    if i < times.len() && times[i] == t {
        proof {
            assert(times@.contains(t)) by {
                assert(times@[i as int] == t);
            }
        }
        return;
    }
    let ghost before = times@;
    times.insert(i, t);
    proof {
        assert(forall|j: int| 0 <= j < i ==> times@[j] == before[j]);
        assert(times@[i as int] == t);
        assert(forall|j: int| i < j < times@.len() ==> times@[j] == before[j - 1]);
        assert(sorted_strict(times@)) by {
            assert forall|j: int| i < j < times@.len() implies times@[j] > t by {
                assert(times@[j] == before[j - 1]);
                assert(before[j - 1] >= t) by {
                    if before[j - 1] < t {
                        assert(i < before.len() && before[i as int] >= t);
                        assert(i as int <= j - 1);
                    }
                }
            }
        }
        assert forall|x: u64| times@.contains(x) implies (before.contains(x) || x == t) by {
            let j = choose|j: int| 0 <= j < times@.len() && times@[j] == x;
            if j < i {
                assert(before[j] == x);
            } else if j > i {
                assert(before[j - 1] == x);
            }
        }
        assert forall|x: u64| before.contains(x) || x == t implies times@.contains(x) by {
            if x == t {
                assert(times@[i as int] == x);
            } else {
                let j = choose|j: int| 0 <= j < before.len() && before[j] == x;
                if j < i {
                    assert(times@[j] == x);
                } else {
                    assert(times@[j + 1] == x);
                }
            }
        }
    }
}

/// Extract keyframes from a scene's animation clips.
///
/// Every key of every track is stamped with its time in seconds (the tick
/// count divided by the clip's rate, 24 where the declared rate is not
/// positive). The keyframe times are exactly the union of all stamped times,
/// strictly ascending; each keyframe holds one pose per channel with a key
/// at its time, in channel order, expressed relative to the channel's
/// recorded rest pose.
pub fn extract_keyframes_from_scene(scene: &SceneData, node_infos: &BoneTable) -> (r: Vec<
    Keyframe,
>)
    ensures
        keyframes_of(r@, scene_channels(*scene), node_infos.map_model()),
{
    let ghost bones = node_infos.map_model();
    // Build lookup structures for all channels, converting ticks to seconds.
    let mut channels: Vec<BoneTrack> = Vec::new();
    let mut ci: usize = 0;
    while ci < scene.clips.len()
        invariant
            ci <= scene.clips@.len(),
            channels@.map_values(|c: BoneTrack| c.model()) == clips_channels(
                scene.clips@.take(ci as int),
            ),
        decreases scene.clips@.len() - ci,
    {
        let clip = &scene.clips[ci];
        let rate = rate_or_default(&clip.ticks_per_second);
        let mut ti: usize = 0;
        while ti < clip.tracks.len()
            invariant
                ci < scene.clips@.len(),
                *clip == scene.clips@[ci as int],
                dscalar_bits(rate) == clip_rate(*clip),
                ti <= clip.tracks@.len(),
                channels@.map_values(|c: BoneTrack| c.model()) == clips_channels(
                    scene.clips@.take(ci as int),
                ) + clip_channels(*clip).take(ti as int),
            decreases clip.tracks@.len() - ti,
        {
            let track = &clip.tracks[ti];
            let mut pos_keys: Vec<(u64, glam::Vec3)> = Vec::new();
            let mut ki: usize = 0;
            while ki < track.position_keys.len()
                invariant
                    ti < clip.tracks@.len(),
                    *track == clip.tracks@[ti as int],
                    dscalar_bits(rate) == clip_rate(*clip),
                    ki <= track.position_keys@.len(),
                    pos_keys@ == conv_pos_keys(
                        track.position_keys@.take(ki as int),
                        clip_rate(*clip),
                    ),
                decreases track.position_keys@.len() - ki,
            {
                let k = &track.position_keys[ki];
                let secs = ticks_to_secs(&k.time, &rate);
                pos_keys.push((secs, k.value));
                proof {
                    assert(pos_keys@ =~~= conv_pos_keys(
                        track.position_keys@.take(ki as int + 1),
                        clip_rate(*clip),
                    ));
                }
                ki = ki + 1;
            }
            let mut rot_keys: Vec<(u64, glam::Quat)> = Vec::new();
            let mut kj: usize = 0;
            while kj < track.rotation_keys.len()
                invariant
                    ti < clip.tracks@.len(),
                    *track == clip.tracks@[ti as int],
                    dscalar_bits(rate) == clip_rate(*clip),
                    kj <= track.rotation_keys@.len(),
                    rot_keys@ == conv_rot_keys(
                        track.rotation_keys@.take(kj as int),
                        clip_rate(*clip),
                    ),
                decreases track.rotation_keys@.len() - kj,
            {
                let k = &track.rotation_keys[kj];
                let secs = ticks_to_secs(&k.time, &rate);
                rot_keys.push((secs, k.value));
                proof {
                    assert(rot_keys@ =~~= conv_rot_keys(
                        track.rotation_keys@.take(kj as int + 1),
                        clip_rate(*clip),
                    ));
                }
                kj = kj + 1;
            }
            let ghost chans_before = channels@.map_values(|c: BoneTrack| c.model());
            let ghost old_channels = channels@;
            let bt = BoneTrack {
                name: track.name.clone(),
                position_keys: pos_keys,
                rotation_keys: rot_keys,
            };
            proof {
                assert(track.position_keys@.take(track.position_keys@.len() as int)
                    =~= track.position_keys@);
                assert(track.rotation_keys@.take(track.rotation_keys@.len() as int)
                    =~= track.rotation_keys@);
                assert(bt.model() == clip_channels(*clip)[ti as int]);
            }
            let ghost bt_snap = bt;
            channels.push(bt);
            proof {
                let lhs = channels@.map_values(|c: BoneTrack| c.model());
                let rhs = clips_channels(scene.clips@.take(ci as int)) + clip_channels(
                    *clip,
                ).take(ti as int + 1);
                assert(channels@ == channels@.drop_last().push(bt_snap));
                assert(channels@.drop_last() =~= old_channels);
                assert(chans_before == clips_channels(scene.clips@.take(ci as int))
                    + clip_channels(*clip).take(ti as int));
                assert(chans_before.len() == old_channels.len());
                assert(clip_channels(*clip).len() == clip.tracks@.len());
                assert(clip_channels(*clip).take(ti as int + 1).len() == ti + 1);
                assert(lhs.len() == rhs.len());
                assert forall|j: int| 0 <= j < lhs.len() implies lhs[j] == rhs[j] by {
                    if j < chans_before.len() {
                        assert(lhs[j] == channels@[j].model());
                        assert(channels@[j] == old_channels[j]);
                        assert(chans_before[j] == old_channels[j].model());
                        assert(chans_before[j] == (clips_channels(scene.clips@.take(ci as int))
                            + clip_channels(*clip).take(ti as int))[j]);
                    } else {
                        assert(channels@[j] == bt_snap);
                        assert(lhs[j] == bt_snap.model());
                        assert(rhs[j] == clip_channels(*clip).take(ti as int + 1)[ti as int]);
                        assert(rhs[j] == clip_channels(*clip)[ti as int]);
                    }
                }
                assert(lhs =~~= rhs);
            }
            ti = ti + 1;
        }
        proof {
            assert(clip_channels(*clip).take(clip_channels(*clip).len() as int) =~= clip_channels(
                *clip,
            ));
            assert(scene.clips@.take(ci as int + 1).drop_last() =~= scene.clips@.take(ci as int));
            assert(scene.clips@.take(ci as int + 1).last() == scene.clips@[ci as int]);
            assert(channels@.map_values(|c: BoneTrack| c.model()) =~~= clips_channels(
                scene.clips@.take(ci as int + 1),
            ));
        }
        ci = ci + 1;
    }
    proof {
        assert(scene.clips@.take(scene.clips@.len() as int) =~= scene.clips@);
    }
    let ghost chans = channels@.map_values(|c: BoneTrack| c.model());
    // Merge all stamped times into one ascending, duplicate-free list.
    let mut times: Vec<u64> = Vec::new();
    let mut c2: usize = 0;
    proof {
        assert(forall|x: u64| !times_set(chans.take(0)).contains(x));
    }
    while c2 < channels.len()
        invariant
            c2 <= channels@.len(),
            chans == channels@.map_values(|c: BoneTrack| c.model()),
            sorted_strict(times@),
            forall|x: u64| times@.contains(x) <==> times_set(chans.take(c2 as int)).contains(x),
        decreases channels@.len() - c2,
    {
        let ch = &channels[c2];
        proof {
            assert(chans[c2 as int] == channels@[c2 as int].model());
        }
        let mut ki: usize = 0;
        while ki < ch.position_keys.len()
            invariant
                c2 < channels@.len(),
                *ch == channels@[c2 as int],
                chans == channels@.map_values(|c: BoneTrack| c.model()),
                chans[c2 as int] == channels@[c2 as int].model(),
                ki <= ch.position_keys@.len(),
                sorted_strict(times@),
                forall|x: u64|
                    times@.contains(x) <==> (times_set(chans.take(c2 as int)).contains(x)
                        || pos_keys_have(ch.position_keys@.take(ki as int), x)),
            decreases ch.position_keys@.len() - ki,
        {
            insert_time(&mut times, ch.position_keys[ki].0);
            proof {
                lemma_pos_keys_have_step(ch.position_keys@, ki as int);
            }
            ki = ki + 1;
        }
        proof {
            assert(ch.position_keys@.take(ch.position_keys@.len() as int) =~= ch.position_keys@);
        }
        let mut kj: usize = 0;
        while kj < ch.rotation_keys.len()
            invariant
                c2 < channels@.len(),
                *ch == channels@[c2 as int],
                chans == channels@.map_values(|c: BoneTrack| c.model()),
                chans[c2 as int] == channels@[c2 as int].model(),
                kj <= ch.rotation_keys@.len(),
                sorted_strict(times@),
                forall|x: u64|
                    times@.contains(x) <==> (times_set(chans.take(c2 as int)).contains(x)
                        || pos_keys_have(ch.position_keys@, x)
                        || rot_keys_have(ch.rotation_keys@.take(kj as int), x)),
            decreases ch.rotation_keys@.len() - kj,
        {
            insert_time(&mut times, ch.rotation_keys[kj].0);
            proof {
                lemma_rot_keys_have_step(ch.rotation_keys@, kj as int);
            }
            kj = kj + 1;
        }
        proof {
            assert(ch.rotation_keys@.take(ch.rotation_keys@.len() as int) =~= ch.rotation_keys@);
            lemma_times_set_take_step(chans, c2 as int);
            assert forall|x: u64|
                times@.contains(x) <==> times_set(chans.take(c2 as int + 1)).contains(x) by {
                assert(channel_has_time(chans[c2 as int], x) == (pos_keys_have(
                    ch.position_keys@,
                    x,
                ) || rot_keys_have(ch.rotation_keys@, x)));
            }
        }
        c2 = c2 + 1;
    }
    proof {
        assert(chans.take(chans.len() as int) =~= chans);
    }
    // Build one keyframe per merged time.
    let mut keyframes: Vec<Keyframe> = Vec::new();
    let mut vi: usize = 0;
    while vi < times.len()
        invariant
            vi <= times@.len(),
            chans == channels@.map_values(|c: BoneTrack| c.model()),
            bones == node_infos.map_model(),
            sorted_strict(times@),
            forall|x: u64| times@.contains(x) <==> times_set(chans).contains(x),
            keyframes@.len() == vi,
            forall|k: int| 0 <= k < vi ==> (#[trigger] keyframes@[k]).time == times@[k],
            forall|k: int|
                0 <= k < vi ==> (#[trigger] keyframes@[k]).poses@.map_values(|p: Pose| p.model())
                    == kf_poses(chans, times@[k], bones),
        decreases times@.len() - vi,
    {
        let t = times[vi];
        let mut poses: Vec<Pose> = Vec::new();
        let mut c3: usize = 0;
        while c3 < channels.len()
            invariant
                c3 <= channels@.len(),
                chans == channels@.map_values(|c: BoneTrack| c.model()),
                bones == node_infos.map_model(),
                poses@.map_values(|p: Pose| p.model()) == kf_poses(
                    chans.take(c3 as int),
                    t,
                    bones,
                ),
            decreases channels@.len() - c3,
        {
            let ch = &channels[c3];
            let p = lookup_pos(&ch.position_keys, t);
            let q = lookup_rot(&ch.rotation_keys, t);
            proof {
                lemma_last_pos_key_some(ch.position_keys@, t);
                lemma_last_rot_key_some(ch.rotation_keys@, t);
                assert(chans[c3 as int] == channels@[c3 as int].model());
                assert(chans.take(c3 as int + 1).drop_last() =~= chans.take(c3 as int));
                assert(chans.take(c3 as int + 1).last() == chans[c3 as int]);
            }
            if p.is_some() || q.is_some() {
                let pos_v: glam::Vec3 = match &p {
                    Option::Some(v) => match node_infos.get(&ch.name) {
                        Option::Some(info) => {
                            let rest_t = mat4_translation(&info.rest_transform);
                            vec3_sub(v, &rest_t)
                        },
                        Option::None => vec3_zero(),
                    },
                    Option::None => vec3_zero(),
                };
                let rot_q: glam::Quat = match &q {
                    Option::Some(kq) => match node_infos.get(&ch.name) {
                        Option::Some(info) => {
                            let upper = mat4_upper3(&info.rest_transform);
                            let rest_q = quat_from_mat3(&upper);
                            let inv_q = quat_inverse(&rest_q);
                            quat_multiply(&inv_q, kq)
                        },
                        Option::None => quat_identity(),
                    },
                    Option::None => quat_identity(),
                };
                proof {
                    assert((vec3_bits(pos_v), mat3_of_quat(quat_bits(rot_q))) == pose_cf_bits(
                        chans[c3 as int],
                        t,
                        bones,
                    ));
                }
                let cf = CFrame { position: pos_v, orientation: mat3_from_quat(&rot_q) };
                poses.push(Pose { name: ch.name.clone(), cframe: cf });
                proof {
                    assert(poses@.map_values(|pp: Pose| pp.model()) =~~= kf_poses(
                        chans.take(c3 as int + 1),
                        t,
                        bones,
                    ));
                }
            } else {
                proof {
                    assert(!channel_has_time(chans[c3 as int], t));
                    assert(poses@.map_values(|pp: Pose| pp.model()) =~~= kf_poses(
                        chans.take(c3 as int + 1),
                        t,
                        bones,
                    ));
                }
            }
            c3 = c3 + 1;
        }
        proof {
            assert(chans.take(chans.len() as int) =~= chans);
        }
        if poses.len() > 0 {
            keyframes.push(Keyframe { time: t, poses });
        } else {
            proof {
                assert(times@.contains(t)) by {
                    assert(times@[vi as int] == t);
                }
                assert(times_set(chans).contains(t));
                let w = choose|w: int| 0 <= w < chans.len() && channel_has_time(chans[w], t);
                lemma_kf_poses_nonempty(chans, t, bones, w);
                assert(false);
            }
        }
        vi = vi + 1;
    }
    proof {
        let kts = keyframes@.map_values(|kf: Keyframe| kf.time);
        assert(kts =~= times@);
        assert forall|t2: u64| times_set(chans).contains(t2) implies exists|i: int|
            0 <= i < keyframes@.len() && keyframes@[i].time == t2 by {
            let j = choose|j: int| 0 <= j < times@.len() && times@[j] == t2;
            assert(keyframes@[j].time == t2);
        }
        assert forall|t2: u64|
            (exists|i: int| 0 <= i < keyframes@.len() && keyframes@[i].time == t2) implies times_set(
            chans,
        ).contains(t2) by {
            let i = choose|i: int| 0 <= i < keyframes@.len() && keyframes@[i].time == t2;
            assert(times@[i] == t2);
            assert(times@.contains(t2));
        }
    }
    keyframes
}


/// Model of a keyframe list: each keyframe's time and pose models.
pub type KeyframesM = Seq<(u64, Seq<PoseM>)>;

/// The transform of the first pose named `n` in a pose list, if any.
pub open spec fn kf_first_pose(poses: Seq<PoseM>, n: Seq<char>) -> Option<CFBits>
    decreases poses.len(),
{
    if poses.len() == 0 {
        Option::None
    } else if poses.first().0 == n {
        Option::Some(poses.first().1)
    } else {
        kf_first_pose(poses.drop_first(), n)
    }
}

/// The transform of bone `n`'s pose in each keyframe it appears in, in
/// keyframe order; where a keyframe lists `n` twice, its first pose stands.
pub open spec fn bone_occ(km: KeyframesM, n: Seq<char>) -> Seq<CFBits>
    decreases km.len(),
{
    if km.len() == 0 {
        Seq::empty()
    } else {
        let prefix = bone_occ(km.drop_last(), n);
        match kf_first_pose(km.last().1, n) {
            Option::Some(cf) => prefix.push(cf),
            Option::None => prefix,
        }
    }
}

/// Whether every later occurrence stays within `eps` of the first.
pub open spec fn all_occ_within(occ: Seq<CFBits>, eps: u32) -> bool {
    forall|i: int| 0 < i < occ.len() ==> within_cf(occ[0], occ[i], eps)
}

/// Whether the simplifier removes bone `n`: it appears in more than one
/// keyframe and its pose never strays beyond `eps` from its first
/// occurrence. A bone appearing in exactly one keyframe is never removed.
pub open spec fn bone_removed(km: KeyframesM, n: Seq<char>, eps: u32) -> bool {
    bone_occ(km, n).len() > 1 && all_occ_within(bone_occ(km, n), eps)
}

/// A pose list with every removed bone's poses dropped.
pub open spec fn drop_removed_poses(poses: Seq<PoseM>, km: KeyframesM, eps: u32) -> Seq<PoseM>
    decreases poses.len(),
{
    if poses.len() == 0 {
        Seq::empty()
    } else {
        let prefix = drop_removed_poses(poses.drop_last(), km, eps);
        if bone_removed(km, poses.last().0, eps) {
            prefix
        } else {
            prefix.push(poses.last())
        }
    }
}

/// The simplification of the keyframes in `part`, judging removal against
/// the whole list `km`.
pub open spec fn simplified_rec(part: KeyframesM, km: KeyframesM, eps: u32) -> KeyframesM
    decreases part.len(),
{
    if part.len() == 0 {
        Seq::empty()
    } else {
        let prefix = simplified_rec(part.drop_last(), km, eps);
        let kept = drop_removed_poses(part.last().1, km, eps);
        if kept.len() > 0 {
            prefix.push((part.last().0, kept))
        } else {
            prefix
        }
    }
}

/// The simplified keyframe list: every removed bone's poses dropped from
/// every keyframe, and every keyframe left with no poses dropped entirely.
pub open spec fn simplified(km: KeyframesM, eps: u32) -> KeyframesM {
    simplified_rec(km, km, eps)
}

/// A pose list whose first `n`-pose exists holds an `n`-pose.
proof fn lemma_first_pose_occurs(poses: Seq<PoseM>, n: Seq<char>)
    requires
        kf_first_pose(poses, n).is_some(),
    ensures
        exists|b: int| 0 <= b < poses.len() && (#[trigger] poses[b]).0 == n,
    decreases poses.len(),
{
    if poses.len() > 0 {
        if poses.first().0 == n {
            assert(poses[0].0 == n);
        } else {
            lemma_first_pose_occurs(poses.drop_first(), n);
            let b = choose|b: int|
                0 <= b < poses.drop_first().len() && (#[trigger] poses.drop_first()[b]).0 == n;
            assert(poses[b + 1].0 == n);
        }
    }
}

/// A bone with an occurrence appears as some pose of some keyframe.
proof fn lemma_bone_occ_occurs(km: KeyframesM, n: Seq<char>)
    requires
        bone_occ(km, n).len() > 0,
    ensures
        exists|a: int, b: int|
            0 <= a < km.len() && 0 <= b < km[a].1.len() && (#[trigger] km[a].1[b]).0 == n,
    decreases km.len(),
{
    if km.len() > 0 {
        if kf_first_pose(km.last().1, n).is_some() {
            lemma_first_pose_occurs(km.last().1, n);
            let b = choose|b: int|
                0 <= b < km.last().1.len() && (#[trigger] km.last().1[b]).0 == n;
            assert(km[km.len() - 1].1[b].0 == n);
        } else {
            lemma_bone_occ_occurs(km.drop_last(), n);
            let (a, b) = choose|a: int, b: int|
                0 <= a < km.drop_last().len() && 0 <= b < km.drop_last()[a].1.len() && (
                #[trigger] km.drop_last()[a].1[b]).0 == n;
            assert(km[a].1[b].0 == n);
        }
    }
}

/// The transform of the first pose of bone `name` in `kf`, if any.
fn find_first_pose(kf: &Keyframe, name: &String) -> (r: Option<CFrame>)
    ensures
        match r {
            Option::Some(cf) => kf_first_pose(kf.model().1, name@) == Option::Some(cf.bits()),
            Option::None => kf_first_pose(kf.model().1, name@).is_none(),
        },
{
    let ghost pm = kf.model().1;
    proof {
        assert(pm.skip(0) =~= pm);
    }
    let mut j: usize = 0;
    while j < kf.poses.len()
        invariant
            j <= kf.poses@.len(),
            pm == kf.model().1,
            kf_first_pose(pm, name@) == kf_first_pose(pm.skip(j as int), name@),
        decreases kf.poses@.len() - j,
    {
        proof {
            assert(pm.skip(j as int).first() == pm[j as int]);
            assert(pm[j as int] == kf.poses@[j as int].model());
            assert(pm.skip(j as int).drop_first() =~= pm.skip(j as int + 1));
        }
        if kf.poses[j].name == *name {
            let cf = CFrame {
                position: kf.poses[j].cframe.position,
                orientation: kf.poses[j].cframe.orientation,
            };
            return Option::Some(cf);
        }
        j = j + 1;
    }
    proof {
        assert(pm.skip(pm.len() as int) =~= Seq::<PoseM>::empty());
    }
    Option::None
}

/// Collect the transforms of bone `name`'s poses across all keyframes.
fn collect_occurrences(keyframes: &Vec<Keyframe>, name: &String) -> (r: Vec<CFrame>)
    ensures
        r@.map_values(|c: CFrame| c.bits()) == bone_occ(keyframes_model(keyframes@), name@),
{
    let ghost km = keyframes_model(keyframes@);
    let mut occ: Vec<CFrame> = Vec::new();
    let mut ki: usize = 0;
    while ki < keyframes.len()
        invariant
            ki <= keyframes@.len(),
            km == keyframes_model(keyframes@),
            occ@.map_values(|c: CFrame| c.bits()) == bone_occ(km.take(ki as int), name@),
        decreases keyframes@.len() - ki,
    {
        proof {
            assert(km.take(ki as int + 1).drop_last() =~= km.take(ki as int));
            assert(km[ki as int] == keyframes@[ki as int].model());
            assert(km.take(ki as int + 1).last() == km[ki as int]);
        }
        let found = find_first_pose(&keyframes[ki], name);
        match found {
            Option::Some(cf) => {
                occ.push(cf);
                proof {
                    assert(occ@.map_values(|c: CFrame| c.bits()) =~= bone_occ(
                        km.take(ki as int + 1),
                        name@,
                    ));
                }
            },
            Option::None => {
                proof {
                    assert(occ@.map_values(|c: CFrame| c.bits()) =~= bone_occ(
                        km.take(ki as int + 1),
                        name@,
                    ));
                }
            },
        }
        ki = ki + 1;
    }
    proof {
        assert(km.take(km.len() as int) =~= km);
    }
    occ
}

/// Filter out bones whose pose is identical, within the tolerance, across
/// every keyframe they appear in, then drop keyframes left with no poses.
///
/// The second clause records that widening the tolerance only ever enlarges
/// the set of removed bones, for any wider tolerance that is non-negative
/// and not NaN.
pub fn filter_identical_bone_poses(keyframes: &mut Vec<Keyframe>, epsilon: &Tolerance)
    ensures
        keyframes_model(final(keyframes)@) == simplified(
            keyframes_model(old(keyframes)@),
            epsilon.bits(),
        ),
        (forall|n: Seq<char>, e2: u32|
            #[trigger] bone_removed(keyframes_model(old(keyframes)@), n, e2) || !(bone_removed(
                keyframes_model(old(keyframes)@),
                n,
                epsilon.bits(),
            ) && epsilon.bits() <= e2 <= F32_INFINITY_BITS)),
{
    let ghost km = keyframes_model(old(keyframes)@);
    // Collect all bone names appearing in any keyframe.
    let mut all_names: Vec<String> = Vec::new();
    let mut ki: usize = 0;
    while ki < keyframes.len()
        invariant
            keyframes@ == old(keyframes)@,
            km == keyframes_model(keyframes@),
            ki <= keyframes@.len(),
            forall|a: int, b: int|
                0 <= a < ki && 0 <= b < km[a].1.len() ==> name_set(all_names@).contains(
                    (#[trigger] km[a].1[b]).0,
                ),
        decreases keyframes@.len() - ki,
    {
        let kf = &keyframes[ki];
        proof {
            assert(km[ki as int] == keyframes@[ki as int].model());
        }
        let mut pi: usize = 0;
        while pi < kf.poses.len()
            invariant
                keyframes@ == old(keyframes)@,
                km == keyframes_model(keyframes@),
                ki < keyframes@.len(),
                *kf == keyframes@[ki as int],
                km[ki as int] == keyframes@[ki as int].model(),
                pi <= kf.poses@.len(),
                forall|a: int, b: int|
                    0 <= a < ki && 0 <= b < km[a].1.len() ==> name_set(all_names@).contains(
                        (#[trigger] km[a].1[b]).0,
                    ),
                forall|b: int|
                    0 <= b < pi ==> name_set(all_names@).contains((#[trigger] km[ki as int].1[b]).0),
            decreases kf.poses@.len() - pi,
        {
            proof {
                assert(km[ki as int].1[pi as int] == kf.poses@[pi as int].model());
            }
            if !contains_name(&all_names, &kf.poses[pi].name) {
                let ghost pre = all_names@;
                all_names.push(kf.poses[pi].name.clone());
                proof {
                    lemma_name_set_push(pre, all_names@.last());
                }
            }
            pi = pi + 1;
        }
        ki = ki + 1;
    }
    // Decide which bones have identical poses across all their keyframes.
    let mut removed: Vec<String> = Vec::new();
    let mut ni: usize = 0;
    while ni < all_names.len()
        invariant
            keyframes@ == old(keyframes)@,
            km == keyframes_model(keyframes@),
            ni <= all_names@.len(),
            forall|k: int|
                0 <= k < removed@.len() ==> bone_removed(km, (#[trigger] removed@[k])@, epsilon.bits()),
            forall|k: int, e2: u32|
                0 <= k < removed@.len() && epsilon.bits() <= e2 <= F32_INFINITY_BITS
                    ==> #[trigger] bone_removed(km, removed@[k]@, e2),
            forall|a: int|
                0 <= a < ni && bone_removed(km, (#[trigger] all_names@[a])@, epsilon.bits())
                    ==> name_set(removed@).contains(all_names@[a]@),
        decreases all_names@.len() - ni,
    {
        let name = &all_names[ni];
        let occ = collect_occurrences(keyframes, name);
        let ghost ob = occ@.map_values(|c: CFrame| c.bits());
        proof {
            assert(ob == bone_occ(km, name@));
            assert(ob.len() == occ@.len());
        }
        if occ.len() > 1 {
            let mut all_identical = true;
            let mut oi: usize = 1;
            while oi < occ.len()
                invariant
                    1 <= oi <= occ@.len(),
                    ob == occ@.map_values(|c: CFrame| c.bits()),
                    all_identical ==> (forall|p: int|
                        0 < p < oi ==> within_cf(ob[0], #[trigger] ob[p], epsilon.bits())),
                    all_identical ==> (forall|p: int, e2: u32|
                        0 < p < oi && epsilon.bits() <= e2 <= F32_INFINITY_BITS
                            ==> #[trigger] within_cf(ob[0], ob[p], e2)),
                    !all_identical ==> (exists|p: int|
                        0 < p < occ@.len() && !within_cf(ob[0], #[trigger] ob[p], epsilon.bits())),
                decreases occ@.len() - oi,
            {
                proof {
                    assert(ob[0] == occ@[0].bits());
                    assert(ob[oi as int] == occ@[oi as int].bits());
                }
                if !approx_equal_cframe(&occ[0], &occ[oi], epsilon) {
                    all_identical = false;
                }
                oi = oi + 1;
            }
            if all_identical {
                proof {
                    assert(bone_removed(km, name@, epsilon.bits()));
                }
                let ghost rpre = removed@;
                removed.push(name.clone());
                proof {
                    lemma_name_set_push(rpre, removed@.last());
                    assert(forall|k: int| 0 <= k < rpre.len() ==> removed@[k] == rpre[k]);
                    assert(removed@.last()@ == name@);
                }
            } else {
                proof {
                    assert(!bone_removed(km, name@, epsilon.bits()));
                }
            }
        } else {
            proof {
                assert(bone_occ(km, name@).len() <= 1);
                assert(!bone_removed(km, name@, epsilon.bits()));
            }
        }
        ni = ni + 1;
    }
    // Every removed bone is listed, and everything listed is removed.
    proof {
        assert forall|n: Seq<char>|
            name_set(removed@).contains(n) implies bone_removed(km, n, epsilon.bits()) by {
            let k = choose|k: int| 0 <= k < removed@.len() && (#[trigger] removed@[k])@ == n;
            assert(bone_removed(km, removed@[k]@, epsilon.bits()));
        }
        assert forall|n: Seq<char>|
            bone_removed(km, n, epsilon.bits()) implies name_set(removed@).contains(n) by {
            lemma_bone_occ_occurs(km, n);
            let (a, b) = choose|a: int, b: int|
                0 <= a < km.len() && 0 <= b < km[a].1.len() && (#[trigger] km[a].1[b]).0 == n;
            assert(name_set(all_names@).contains(n));
            let idx = choose|idx: int| 0 <= idx < all_names@.len() && all_names@[idx]@ == n;
            assert(bone_removed(km, all_names@[idx]@, epsilon.bits()));
        }
        assert forall|n: Seq<char>, e2: u32|
            bone_removed(km, n, epsilon.bits()) && epsilon.bits() <= e2
                <= F32_INFINITY_BITS implies #[trigger] bone_removed(km, n, e2) by {
            let k = choose|k: int| 0 <= k < removed@.len() && (#[trigger] removed@[k])@ == n;
            assert(bone_removed(km, removed@[k]@, e2));
        }
    }
    // Remove the marked bones' poses and drop emptied keyframes.
    let mut out: Vec<Keyframe> = Vec::new();
    let mut k2: usize = 0;
    while k2 < keyframes.len()
        invariant
            keyframes@ == old(keyframes)@,
            km == keyframes_model(keyframes@),
            k2 <= keyframes@.len(),
            forall|n: Seq<char>|
                name_set(removed@).contains(n) <==> bone_removed(km, n, epsilon.bits()),
            keyframes_model(out@) == simplified_rec(km.take(k2 as int), km, epsilon.bits()),
        decreases keyframes@.len() - k2,
    {
        let kf = &keyframes[k2];
        proof {
            assert(km[k2 as int] == keyframes@[k2 as int].model());
        }
        let ghost pm = kf.model().1;
        let mut kept: Vec<Pose> = Vec::new();
        let mut pi: usize = 0;
        while pi < kf.poses.len()
            invariant
                keyframes@ == old(keyframes)@,
                km == keyframes_model(keyframes@),
                k2 < keyframes@.len(),
                *kf == keyframes@[k2 as int],
                pm == kf.model().1,
                pi <= kf.poses@.len(),
                forall|n: Seq<char>|
                    name_set(removed@).contains(n) <==> bone_removed(km, n, epsilon.bits()),
                kept@.map_values(|p: Pose| p.model()) == drop_removed_poses(
                    pm.take(pi as int),
                    km,
                    epsilon.bits(),
                ),
            decreases kf.poses@.len() - pi,
        {
            proof {
                assert(pm.take(pi as int + 1).drop_last() =~= pm.take(pi as int));
                assert(pm.take(pi as int + 1).last() == pm[pi as int]);
                assert(pm[pi as int] == kf.poses@[pi as int].model());
            }
            let pose = &kf.poses[pi];
            if !contains_name(&removed, &pose.name) {
                kept.push(
                    Pose {
                        name: pose.name.clone(),
                        cframe: CFrame {
                            position: pose.cframe.position,
                            orientation: pose.cframe.orientation,
                        },
                    },
                );
                proof {
                    assert(kept@.map_values(|p: Pose| p.model()) =~~= drop_removed_poses(
                        pm.take(pi as int + 1),
                        km,
                        epsilon.bits(),
                    ));
                }
            } else {
                proof {
                    assert(kept@.map_values(|p: Pose| p.model()) =~~= drop_removed_poses(
                        pm.take(pi as int + 1),
                        km,
                        epsilon.bits(),
                    ));
                }
            }
            pi = pi + 1;
        }
        proof {
            assert(pm.take(pm.len() as int) =~= pm);
            assert(km.take(k2 as int + 1).drop_last() =~= km.take(k2 as int));
            assert(km.take(k2 as int + 1).last() == km[k2 as int]);
            assert(kept@.map_values(|p: Pose| p.model()).len() == kept@.len());
        }
        if kept.len() > 0 {
            out.push(Keyframe { time: kf.time, poses: kept });
            proof {
                assert(keyframes_model(out@) =~~= simplified_rec(
                    km.take(k2 as int + 1),
                    km,
                    epsilon.bits(),
                ));
            }
        } else {
            proof {
                assert(keyframes_model(out@) =~~= simplified_rec(
                    km.take(k2 as int + 1),
                    km,
                    epsilon.bits(),
                ));
            }
        }
        k2 = k2 + 1;
    }
    proof {
        assert(km.take(km.len() as int) =~= km);
    }
    *keyframes = out;
}


/// Kinds of nodes in the output instance tree.
#[derive(PartialEq, Eq, Structural, Clone, Copy, Debug)]
pub enum InstanceKind {
    /// The root of the sequence.
    Sequence,
    /// One node per keyframe time.
    Keyframe,
    /// One node per bone pose within a keyframe.
    Pose,
}

/// The engine enum value of the sequence's priority property.
pub const SEQUENCE_PRIORITY: u32 = 2;

/// The engine enum value of the pose easing direction property: in.
pub const EASING_DIRECTION_IN: u32 = 0;

/// The engine enum value of the pose easing style property: linear.
pub const EASING_STYLE_LINEAR: u32 = 0;

/// One node of the output instance tree.
pub struct Instance {
    pub kind: InstanceKind,
    /// The bone name for pose nodes; the class name otherwise.
    pub name: String,
    /// Index of the parent node in the arena; the root has none.
    pub parent: Option<usize>,
    /// The keyframe time in seconds, as a bit pattern; zero except on
    /// keyframe nodes.
    pub time: u64,
    /// The pose transform; present exactly on pose nodes.
    pub cframe: Option<CFrame>,
    /// The priority property; meaningful on the root.
    pub priority: u32,
    /// The easing direction property; meaningful on pose nodes.
    pub easing_direction: u32,
    /// The easing style property; meaningful on pose nodes.
    pub easing_style: u32,
}

/// Model of an instance node: kind, name, parent index, time, transform,
/// and the three enum properties.
pub type InstanceM = (
    InstanceKind,
    Seq<char>,
    Option<int>,
    u64,
    Option<CFBits>,
    u32,
    u32,
    u32,
);

impl Instance {
    /// Mathematical model of the node.
    pub open spec fn model(self) -> InstanceM {
        (
            self.kind,
            self.name@,
            match self.parent {
                Option::Some(p) => Option::Some(p as int),
                Option::None => Option::None,
            },
            self.time,
            match self.cframe {
                Option::Some(cf) => Option::Some(cf.bits()),
                Option::None => Option::None,
            },
            self.priority,
            self.easing_direction,
            self.easing_style,
        )
    }
}

/// The output instance tree, as an arena of nodes. The root is node 0;
/// every other node names its parent by index.
pub struct InstanceTree {
    pub nodes: Vec<Instance>,
}

impl InstanceTree {
    /// Mathematical model: the node models, in arena order.
    pub open spec fn model(self) -> Seq<InstanceM> {
        self.nodes@.map_values(|n: Instance| n.model())
    }
}

/// The index of the last pose named `n` in a keyframe's pose list, if any.
pub open spec fn last_pose_idx(poses: Seq<PoseM>, n: Seq<char>) -> Option<int>
    decreases poses.len(),
{
    if poses.len() == 0 {
        Option::None
    } else if poses.last().0 == n {
        Option::Some(poses.len() - 1)
    } else {
        last_pose_idx(poses.drop_last(), n)
    }
}

/// The model of the root node.
pub open spec fn root_node_m() -> InstanceM {
    (
        InstanceKind::Sequence,
        "KeyframeSequence"@,
        Option::None,
        0u64,
        Option::None,
        SEQUENCE_PRIORITY,
        0u32,
        0u32,
    )
}

/// The model of a keyframe node at time `t` (a child of the root).
pub open spec fn keyframe_node_m(t: u64) -> InstanceM {
    (InstanceKind::Keyframe, "Keyframe"@, Option::Some(0int), t, Option::None, 0u32, 0u32, 0u32)
}

/// The arena index of the pose `j` of the keyframe whose node is `kf_node`:
/// pose nodes directly follow their keyframe node.
pub open spec fn pose_node_idx(kf_node: int, j: int) -> int {
    kf_node + 1 + j
}

/// The parent of pose `j` of a keyframe: the last pose of this keyframe
/// named as the bone's recorded parent, provided the bone has a recorded
/// parent with a pose in this keyframe and `j` is the last pose of its own
/// name; the keyframe node itself otherwise.
pub open spec fn pose_parent(
    poses: Seq<PoseM>,
    j: int,
    kf_node: int,
    bones: Map<Seq<char>, NodeInfoM>,
) -> int {
    let n = poses[j].0;
    if bones.dom().contains(n) {
        match bones[n].1 {
            Option::Some(pn) => match last_pose_idx(poses, pn) {
                Option::Some(pj) => if last_pose_idx(poses, n) == Option::Some(j) {
                    pose_node_idx(kf_node, pj)
                } else {
                    kf_node
                },
                Option::None => kf_node,
            },
            Option::None => kf_node,
        }
    } else {
        kf_node
    }
}

/// The model of pose `j` of a keyframe whose node is `kf_node`.
pub open spec fn pose_node_m(
    poses: Seq<PoseM>,
    j: int,
    kf_node: int,
    bones: Map<Seq<char>, NodeInfoM>,
) -> InstanceM {
    (
        InstanceKind::Pose,
        poses[j].0,
        Option::Some(pose_parent(poses, j, kf_node, bones)),
        0u64,
        Option::Some(poses[j].1),
        0u32,
        EASING_DIRECTION_IN,
        EASING_STYLE_LINEAR,
    )
}

/// The pose nodes of one keyframe, in pose order.
pub open spec fn pose_nodes_m(
    poses: Seq<PoseM>,
    upto: int,
    kf_node: int,
    bones: Map<Seq<char>, NodeInfoM>,
) -> Seq<InstanceM>
    decreases upto,
{
    if upto <= 0 {
        Seq::empty()
    } else {
        pose_nodes_m(poses, upto - 1, kf_node, bones).push(
            pose_node_m(poses, upto - 1, kf_node, bones),
        )
    }
}

/// The whole arena for a keyframe list: the root, then for each keyframe its
/// node followed by its pose nodes.
pub open spec fn tree_nodes_m(km: KeyframesM, bones: Map<Seq<char>, NodeInfoM>) -> Seq<InstanceM>
    decreases km.len(),
{
    if km.len() == 0 {
        seq![root_node_m()]
    } else {
        let prefix = tree_nodes_m(km.drop_last(), bones);
        let kf = km.last();
        prefix + seq![keyframe_node_m(kf.0)] + pose_nodes_m(kf.1, kf.1.len() as int, prefix.len() as int, bones)
    }
}

/// The model of pose `j` as first created, flat under its keyframe node.
pub open spec fn pose_node_flat_m(poses: Seq<PoseM>, j: int, kf_node: int) -> InstanceM {
    (
        InstanceKind::Pose,
        poses[j].0,
        Option::Some(kf_node),
        0u64,
        Option::Some(poses[j].1),
        0u32,
        EASING_DIRECTION_IN,
        EASING_STYLE_LINEAR,
    )
}

/// Length and contents of a keyframe's pose-node block.
proof fn lemma_pose_nodes_m_props(
    poses: Seq<PoseM>,
    upto: int,
    kf_node: int,
    bones: Map<Seq<char>, NodeInfoM>,
)
    requires
        upto >= 0,
    ensures
        pose_nodes_m(poses, upto, kf_node, bones).len() == upto,
        forall|x: int|
            0 <= x < upto ==> pose_nodes_m(poses, upto, kf_node, bones)[x] == pose_node_m(
                poses,
                x,
                kf_node,
                bones,
            ),
    decreases upto,
{
    if upto > 0 {
        lemma_pose_nodes_m_props(poses, upto - 1, kf_node, bones);
    }
}

/// A last-pose index lies within the pose list.
proof fn lemma_last_pose_idx_range(poses: Seq<PoseM>, n: Seq<char>)
    ensures
        match last_pose_idx(poses, n) {
            Option::Some(j) => 0 <= j < poses.len(),
            Option::None => true,
        },
    decreases poses.len(),
{
    if poses.len() > 0 && poses.last().0 != n {
        lemma_last_pose_idx_range(poses.drop_last(), n);
    }
}

/// The index of the last pose named `name` in `poses`, if any.
fn last_pose_index(poses: &Vec<Pose>, name: &String) -> (r: Option<usize>)
    ensures
        match r {
            Option::Some(j) => last_pose_idx(poses@.map_values(|p: Pose| p.model()), name@)
                == Option::Some(j as int),
            Option::None => last_pose_idx(poses@.map_values(|p: Pose| p.model()), name@).is_none(),
        },
{
    let ghost pm = poses@.map_values(|p: Pose| p.model());
    let mut i: usize = poses.len();
    proof {
        assert(pm.take(pm.len() as int) =~= pm);
    }
    while i > 0
        invariant
            i <= poses@.len(),
            pm == poses@.map_values(|p: Pose| p.model()),
            last_pose_idx(pm, name@) == last_pose_idx(pm.take(i as int), name@),
        decreases i,
    {
        i = i - 1;
        proof {
            assert(pm.take(i as int + 1).drop_last() =~= pm.take(i as int));
            assert(pm.take(i as int + 1).last() == pm[i as int]);
            assert(pm[i as int] == poses@[i as int].model());
        }
        if poses[i].name == *name {
            return Option::Some(i);
        }
    }
    Option::None
}

/// Arrange a keyframe list into the output instance tree.
///
/// The root sequence node carries the fixed priority; one keyframe node per
/// keyframe carries its time; one pose node per pose carries the bone name,
/// the transform and the fixed easing properties. A pose node hangs under
/// the pose node of its bone's recorded parent where that parent has a pose
/// in the same keyframe, and directly under its keyframe node otherwise.
pub fn create_keyframe_sequence_dom(keyframes: &Vec<Keyframe>, bone_infos: &BoneTable) -> (r:
    InstanceTree)
    ensures
        r.model() == tree_nodes_m(keyframes_model(keyframes@), bone_infos.map_model()),
{
    let ghost km = keyframes_model(keyframes@);
    let ghost bones = bone_infos.map_model();
    let mut nodes: Vec<Instance> = Vec::new();
    nodes.push(
        Instance {
            kind: InstanceKind::Sequence,
            name: "KeyframeSequence".to_owned(),
            parent: Option::None,
            time: 0,
            cframe: Option::None,
            priority: SEQUENCE_PRIORITY,
            easing_direction: 0,
            easing_style: 0,
        },
    );
    proof {
        assert(nodes@.map_values(|n: Instance| n.model()) =~~= tree_nodes_m(km.take(0), bones));
    }
    let mut ki: usize = 0;
    while ki < keyframes.len()
        invariant
            ki <= keyframes@.len(),
            km == keyframes_model(keyframes@),
            bones == bone_infos.map_model(),
            nodes@.map_values(|n: Instance| n.model()) == tree_nodes_m(km.take(ki as int), bones),
        decreases keyframes@.len() - ki,
    {
        let kf = &keyframes[ki];
        let ghost pm = kf.model().1;
        proof {
            assert(km[ki as int] == keyframes@[ki as int].model());
        }
        let kf_node: usize = nodes.len();
        nodes.push(
            Instance {
                kind: InstanceKind::Keyframe,
                name: "Keyframe".to_owned(),
                parent: Option::Some(0),
                time: kf.time,
                cframe: Option::None,
                priority: 0,
                easing_direction: 0,
                easing_style: 0,
            },
        );
        let ghost front = tree_nodes_m(km.take(ki as int), bones) + seq![
            keyframe_node_m(km[ki as int].0),
        ];
        proof {
            assert(nodes@.map_values(|n: Instance| n.model()) =~~= front);
        }
        // First pass: create all pose instances flat under the keyframe.
        let mut pj: usize = 0;
        while pj < kf.poses.len()
            invariant
                ki < keyframes@.len(),
                km == keyframes_model(keyframes@),
                bones == bone_infos.map_model(),
                *kf == keyframes@[ki as int],
                pm == kf.model().1,
                km[ki as int] == keyframes@[ki as int].model(),
                pj <= kf.poses@.len(),
                kf_node < nodes@.len(),
                nodes@.len() == kf_node + 1 + pj,
                front.len() == kf_node + 1,
                nodes@.map_values(|n: Instance| n.model()).take(kf_node as int + 1) == front,
                forall|x: int|
                    0 <= x < pj ==> nodes@[kf_node + 1 + x].model() == pose_node_flat_m(
                        pm,
                        x,
                        kf_node as int,
                    ),
            decreases kf.poses@.len() - pj,
        {
            let pose = &kf.poses[pj];
            proof {
                assert(pm[pj as int] == kf.poses@[pj as int].model());
            }
            nodes.push(
                Instance {
                    kind: InstanceKind::Pose,
                    name: pose.name.clone(),
                    parent: Option::Some(kf_node),
                    time: 0,
                    cframe: Option::Some(
                        CFrame {
                            position: pose.cframe.position,
                            orientation: pose.cframe.orientation,
                        },
                    ),
                    priority: 0,
                    easing_direction: EASING_DIRECTION_IN,
                    easing_style: EASING_STYLE_LINEAR,
                },
            );
            proof {
                assert(nodes@.map_values(|n: Instance| n.model()).take(kf_node as int + 1)
                    =~~= front);
            }
            pj = pj + 1;
        }
        // Second pass: hang each pose under its bone parent's pose where
        // that parent has a pose in this keyframe.
        let arena_len: usize = nodes.len();
        let mut rj: usize = 0;
        while rj < kf.poses.len()
            invariant
                arena_len == nodes@.len(),
                ki < keyframes@.len(),
                km == keyframes_model(keyframes@),
                bones == bone_infos.map_model(),
                *kf == keyframes@[ki as int],
                pm == kf.model().1,
                km[ki as int] == keyframes@[ki as int].model(),
                rj <= kf.poses@.len(),
                kf_node < nodes@.len(),
                nodes@.len() == kf_node + 1 + kf.poses@.len(),
                front.len() == kf_node + 1,
                nodes@.map_values(|n: Instance| n.model()).take(kf_node as int + 1) == front,
                forall|x: int|
                    rj <= x < kf.poses@.len() ==> nodes@[kf_node + 1 + x].model()
                        == pose_node_flat_m(pm, x, kf_node as int),
                forall|x: int|
                    0 <= x < rj ==> nodes@[kf_node + 1 + x].model() == pose_node_m(
                        pm,
                        x,
                        kf_node as int,
                        bones,
                    ),
            decreases kf.poses@.len() - rj,
        {
            let pose = &kf.poses[rj];
            proof {
                assert(pm[rj as int] == kf.poses@[rj as int].model());
                lemma_last_pose_idx_range(pm, pm[rj as int].0);
                if bones.dom().contains(pm[rj as int].0) {
                    match bones[pm[rj as int].0].1 {
                        Option::Some(pn) => lemma_last_pose_idx_range(pm, pn),
                        Option::None => {},
                    }
                }
            }
            let parent_idx: usize = match bone_infos.get(&pose.name) {
                Option::Some(info) => match &info.parent {
                    Option::Some(parent_name) => match last_pose_index(&kf.poses, parent_name) {
                        Option::Some(parent_j) => {
                            let own_last = last_pose_index(&kf.poses, &pose.name);
                            match own_last {
                                Option::Some(oj) => if oj == rj {
                                    kf_node + 1 + parent_j
                                } else {
                                    kf_node
                                },
                                Option::None => kf_node,
                            }
                        },
                        Option::None => kf_node,
                    },
                    Option::None => kf_node,
                },
                Option::None => kf_node,
            };
            proof {
                assert(parent_idx as int == pose_parent(pm, rj as int, kf_node as int, bones));
            }
            let ghost before_set = nodes@;
            nodes.set(
                kf_node + 1 + rj,
                Instance {
                    kind: InstanceKind::Pose,
                    name: pose.name.clone(),
                    parent: Option::Some(parent_idx),
                    time: 0,
                    cframe: Option::Some(
                        CFrame {
                            position: pose.cframe.position,
                            orientation: pose.cframe.orientation,
                        },
                    ),
                    priority: 0,
                    easing_direction: EASING_DIRECTION_IN,
                    easing_style: EASING_STYLE_LINEAR,
                },
            );
            proof {
                assert(forall|x: int|
                    0 <= x < nodes@.len() && x != kf_node + 1 + rj ==> nodes@[x]
                        == before_set[x]);
                assert(nodes@[kf_node + 1 + rj as int].model() == pose_node_m(
                    pm,
                    rj as int,
                    kf_node as int,
                    bones,
                ));
                assert(nodes@.map_values(|n: Instance| n.model()).take(kf_node as int + 1)
                    =~~= front);
            }
            rj = rj + 1;
        }
        proof {
            assert(km.take(ki as int + 1).drop_last() =~= km.take(ki as int));
            assert(km.take(ki as int + 1).last() == km[ki as int]);
            assert(km[ki as int].1 == pm);
            lemma_pose_nodes_m_props(pm, pm.len() as int, kf_node as int, bones);
            let lhs = nodes@.map_values(|n: Instance| n.model());
            let rhs = front + pose_nodes_m(pm, pm.len() as int, kf_node as int, bones);
            assert(lhs.len() == rhs.len());
            assert forall|x: int| 0 <= x < lhs.len() implies lhs[x] == rhs[x] by {
                if x < kf_node + 1 {
                    assert(lhs.take(kf_node as int + 1)[x] == front[x]);
                } else {
                    let d = x - (kf_node + 1);
                    assert(nodes@[kf_node + 1 + d].model() == pose_node_m(
                        pm,
                        d,
                        kf_node as int,
                        bones,
                    ));
                    assert(rhs[x] == pose_nodes_m(pm, pm.len() as int, kf_node as int, bones)[d]);
                }
            }
            assert(lhs =~~= rhs);
            assert(nodes@.map_values(|n: Instance| n.model()) =~~= tree_nodes_m(
                km.take(ki as int + 1),
                bones,
            ));
        }
        ki = ki + 1;
    }
    proof {
        assert(km.take(km.len() as int) =~= km);
    }
    InstanceTree { nodes }
}


/// A pose list whose first `n`-pose exists is non-empty.
proof fn lemma_first_pose_nonempty(poses: Seq<PoseM>, n: Seq<char>)
    requires
        kf_first_pose(poses, n).is_some(),
    ensures
        poses.len() > 0,
{
}

/// Dropping removed bones' poses, seen from the front: the first pose is
/// kept exactly when its bone is not removed, and the rest is filtered the
/// same way.
proof fn lemma_drop_removed_front(poses: Seq<PoseM>, km: KeyframesM, eps: u32)
    requires
        poses.len() > 0,
    ensures
        drop_removed_poses(poses, km, eps) == (if bone_removed(km, poses.first().0, eps) {
            drop_removed_poses(poses.drop_first(), km, eps)
        } else {
            seq![poses.first()] + drop_removed_poses(poses.drop_first(), km, eps)
        }),
    decreases poses.len(),
{
    if poses.len() == 1 {
        assert(poses.drop_last() =~= Seq::<PoseM>::empty());
        assert(poses.drop_first() =~= Seq::<PoseM>::empty());
        assert(poses.first() == poses.last());
        assert(drop_removed_poses(poses.drop_last(), km, eps) == Seq::<PoseM>::empty());
        assert(drop_removed_poses(poses.drop_first(), km, eps) == Seq::<PoseM>::empty());
        if !bone_removed(km, poses.first().0, eps) {
            assert(drop_removed_poses(poses, km, eps) =~= seq![poses.first()] + Seq::<
                PoseM,
            >::empty());
        }
    } else {
        let dl = poses.drop_last();
        let df = poses.drop_first();
        lemma_drop_removed_front(dl, km, eps);
        assert(dl.first() == poses.first());
        assert(dl.drop_first() =~= df.drop_last());
        assert(df.last() == poses.last());
        if bone_removed(km, poses.first().0, eps) {
            if bone_removed(km, poses.last().0, eps) {
                assert(drop_removed_poses(poses, km, eps) == drop_removed_poses(dl, km, eps));
                assert(drop_removed_poses(df, km, eps) == drop_removed_poses(
                    df.drop_last(),
                    km,
                    eps,
                ));
            } else {
                assert(drop_removed_poses(poses, km, eps) == drop_removed_poses(
                    dl,
                    km,
                    eps,
                ).push(poses.last()));
                assert(drop_removed_poses(df, km, eps) == drop_removed_poses(
                    df.drop_last(),
                    km,
                    eps,
                ).push(poses.last()));
            }
        } else {
            if bone_removed(km, poses.last().0, eps) {
                assert(drop_removed_poses(poses, km, eps) == drop_removed_poses(dl, km, eps));
                assert(drop_removed_poses(df, km, eps) == drop_removed_poses(
                    df.drop_last(),
                    km,
                    eps,
                ));
            } else {
                assert(drop_removed_poses(poses, km, eps) == drop_removed_poses(
                    dl,
                    km,
                    eps,
                ).push(poses.last()));
                assert(drop_removed_poses(df, km, eps) == drop_removed_poses(
                    df.drop_last(),
                    km,
                    eps,
                ).push(poses.last()));
                assert((seq![poses.first()] + drop_removed_poses(df.drop_last(), km, eps)).push(
                    poses.last(),
                ) =~= seq![poses.first()] + drop_removed_poses(df, km, eps));
            }
        }
    }
}

/// Filtering a pose list leaves the first pose of a surviving bone in
/// place, and leaves no pose of a removed bone.
proof fn lemma_first_pose_drop_removed(poses: Seq<PoseM>, km: KeyframesM, eps: u32, n: Seq<char>)
    ensures
        bone_removed(km, n, eps) ==> kf_first_pose(
            drop_removed_poses(poses, km, eps),
            n,
        ).is_none(),
        !bone_removed(km, n, eps) ==> kf_first_pose(drop_removed_poses(poses, km, eps), n)
            == kf_first_pose(poses, n),
    decreases poses.len(),
{
    if poses.len() > 0 {
        lemma_drop_removed_front(poses, km, eps);
        lemma_first_pose_drop_removed(poses.drop_first(), km, eps, n);
        let dr = drop_removed_poses(poses, km, eps);
        let first = poses.first();
        if bone_removed(km, first.0, eps) {
        } else {
            let rest = drop_removed_poses(poses.drop_first(), km, eps);
            assert((seq![first] + rest).len() == 1 + rest.len());
            assert((seq![first] + rest).first() == first);
            assert((seq![first] + rest).drop_first() =~= rest);
        }
    }
}

/// A bone not removed has the same occurrences in the simplified list as in
/// the list it was computed from; a removed bone has none.
proof fn lemma_bone_occ_simplified(part: KeyframesM, km: KeyframesM, eps: u32, n: Seq<char>)
    ensures
        !bone_removed(km, n, eps) ==> bone_occ(simplified_rec(part, km, eps), n) == bone_occ(
            part,
            n,
        ),
        bone_removed(km, n, eps) ==> bone_occ(simplified_rec(part, km, eps), n) == Seq::<
            CFBits,
        >::empty(),
    decreases part.len(),
{
    if part.len() == 0 {
    } else {
        lemma_bone_occ_simplified(part.drop_last(), km, eps, n);
        lemma_first_pose_drop_removed(part.last().1, km, eps, n);
        let kept = drop_removed_poses(part.last().1, km, eps);
        let prefix = simplified_rec(part.drop_last(), km, eps);
        if kept.len() > 0 {
            let whole = prefix.push((part.last().0, kept));
            assert(whole.drop_last() =~= prefix);
            assert(whole.last() == (part.last().0, kept));
        } else {
            if !bone_removed(km, n, eps) && kf_first_pose(part.last().1, n).is_some() {
                assert(kf_first_pose(kept, n).is_some());
                lemma_first_pose_nonempty(kept, n);
            }
        }
    }
}

/// Every keyframe of a simplified list still holds a pose.
proof fn lemma_simplified_nonempty(part: KeyframesM, km: KeyframesM, eps: u32)
    ensures
        forall|i: int|
            0 <= i < simplified_rec(part, km, eps).len() ==> (#[trigger] simplified_rec(
                part,
                km,
                eps,
            )[i]).1.len() > 0,
    decreases part.len(),
{
    if part.len() > 0 {
        lemma_simplified_nonempty(part.drop_last(), km, eps);
        let kept = drop_removed_poses(part.last().1, km, eps);
        let prefix = simplified_rec(part.drop_last(), km, eps);
        if kept.len() > 0 {
            assert(forall|i: int|
                0 <= i < prefix.len() ==> prefix.push((part.last().0, kept))[i] == prefix[i]);
        }
    }
}

/// Where no bone of `judge` is removed and no keyframe of `part` is empty,
/// simplification leaves `part` unchanged.
proof fn lemma_simplified_identity(part: KeyframesM, judge: KeyframesM, eps: u32)
    requires
        forall|n: Seq<char>| !bone_removed(judge, n, eps),
        forall|i: int| 0 <= i < part.len() ==> (#[trigger] part[i]).1.len() > 0,
    ensures
        simplified_rec(part, judge, eps) == part,
    decreases part.len(),
{
    if part.len() > 0 {
        assert(forall|i: int| 0 <= i < part.drop_last().len() ==> part.drop_last()[i] == part[i]);
        lemma_simplified_identity(part.drop_last(), judge, eps);
        lemma_drop_removed_identity(part.last().1, judge, eps);
        assert(part.last().1.len() > 0) by {
            assert(part[part.len() - 1].1.len() > 0);
        }
        assert(simplified_rec(part.drop_last(), judge, eps).push(part.last()) =~= part);
    }
}

/// Where no bone is removed, filtering a pose list keeps every pose.
proof fn lemma_drop_removed_identity(poses: Seq<PoseM>, judge: KeyframesM, eps: u32)
    requires
        forall|n: Seq<char>| !bone_removed(judge, n, eps),
    ensures
        drop_removed_poses(poses, judge, eps) == poses,
    decreases poses.len(),
{
    if poses.len() > 0 {
        lemma_drop_removed_identity(poses.drop_last(), judge, eps);
        assert(poses.drop_last().push(poses.last()) =~= poses);
    }
}

/// The simplifier is idempotent: simplifying an already simplified keyframe
/// list with the same tolerance changes nothing.
pub proof fn lemma_simplified_idempotent(km: KeyframesM, eps: u32)
    ensures
        simplified(simplified(km, eps), eps) == simplified(km, eps),
{
    let s = simplified(km, eps);
    assert forall|n: Seq<char>| !bone_removed(s, n, eps) by {
        lemma_bone_occ_simplified(km, km, eps, n);
        if !bone_removed(km, n, eps) {
            assert(bone_occ(s, n) == bone_occ(km, n));
        } else {
            assert(bone_occ(s, n).len() == 0);
        }
    }
    lemma_simplified_nonempty(km, km, eps);
    lemma_simplified_identity(s, s, eps);
}

/// A bone appearing in exactly one keyframe is never removed by the
/// simplifier, whatever the tolerance.
pub proof fn lemma_single_occurrence_never_removed(km: KeyframesM, n: Seq<char>, eps: u32)
    requires
        bone_occ(km, n).len() == 1,
    ensures
        !bone_removed(km, n, eps),
{
}

/// On an empty keyframe list the assembler still yields a single valid root
/// instance with no keyframe children.
pub proof fn lemma_empty_tree(bones: Map<Seq<char>, NodeInfoM>)
    ensures
        tree_nodes_m(Seq::empty(), bones) == seq![root_node_m()],
        tree_nodes_m(Seq::empty(), bones).len() == 1,
{
}


/// The arena index of keyframe `i`'s node: the root, plus a node and a pose
/// block for every earlier keyframe.
pub open spec fn kf_node_idx(km: KeyframesM, i: int) -> int
    decreases i,
{
    if i <= 0 {
        1
    } else {
        kf_node_idx(km, i - 1) + 1 + km[i - 1].1.len()
    }
}

/// Keyframe node indices only depend on the keyframes before them.
proof fn lemma_kf_node_idx_prefix(km: KeyframesM, i: int)
    requires
        km.len() > 0,
        0 <= i <= km.len() - 1,
    ensures
        kf_node_idx(km.drop_last(), i) == kf_node_idx(km, i),
    decreases i,
{
    if i > 0 {
        lemma_kf_node_idx_prefix(km, i - 1);
        assert(km.drop_last()[i - 1] == km[i - 1]);
    }
}

/// Keyframe node indices grow by at least a node per keyframe.
proof fn lemma_kf_node_idx_mono(km: KeyframesM, a: int, b: int)
    requires
        0 <= a <= b,
    ensures
        kf_node_idx(km, a) + (b - a) <= kf_node_idx(km, b),
    decreases b - a,
{
    if a < b {
        lemma_kf_node_idx_mono(km, a, b - 1);
    }
}

/// The arena of a keyframe list is as long as the index past its last block.
proof fn lemma_tree_len(km: KeyframesM, bones: Map<Seq<char>, NodeInfoM>)
    ensures
        tree_nodes_m(km, bones).len() == kf_node_idx(km, km.len() as int),
    decreases km.len(),
{
    if km.len() > 0 {
        lemma_tree_len(km.drop_last(), bones);
        lemma_kf_node_idx_prefix(km, km.len() - 1);
        lemma_pose_nodes_m_props(
            km.last().1,
            km.last().1.len() as int,
            tree_nodes_m(km.drop_last(), bones).len() as int,
            bones,
        );
    }
}

/// The hierarchy law of the assembled tree. For every keyframe and every
/// pose in it: the keyframe's node is a child of the root and carries its
/// time, and the pose's node carries the bone name and transform and hangs
/// under the pose node of its bone's recorded parent where that parent has
/// a pose in the same keyframe (and the pose is the last of its name),
/// directly under the keyframe node otherwise.
pub proof fn lemma_pose_reparenting(
    km: KeyframesM,
    bones: Map<Seq<char>, NodeInfoM>,
    i: int,
    j: int,
)
    requires
        0 <= i < km.len(),
        0 <= j < km[i].1.len(),
    ensures
        tree_nodes_m(km, bones)[kf_node_idx(km, i)] == keyframe_node_m(km[i].0),
        tree_nodes_m(km, bones)[kf_node_idx(km, i) + 1 + j] == pose_node_m(
            km[i].1,
            j,
            kf_node_idx(km, i),
            bones,
        ),
    decreases km.len(),
{
    let prefix = tree_nodes_m(km.drop_last(), bones);
    lemma_tree_len(km.drop_last(), bones);
    lemma_kf_node_idx_prefix(km, i);
    if i == km.len() - 1 {
        lemma_pose_nodes_m_props(km.last().1, km.last().1.len() as int, prefix.len() as int, bones);
        assert(kf_node_idx(km, i) == prefix.len());
    } else {
        lemma_pose_reparenting(km.drop_last(), bones, i, j);
        assert(km.drop_last()[i] == km[i]);
        lemma_kf_node_idx_prefix(km, i + 1);
        lemma_kf_node_idx_mono(km.drop_last(), i + 1, km.len() - 1);
        lemma_kf_node_idx_mono(km.drop_last(), 0, i);
        lemma_tree_len(km, bones);
        assert(kf_node_idx(km.drop_last(), i) + 1 + j < kf_node_idx(km.drop_last(), i + 1));
        assert(kf_node_idx(km.drop_last(), km.len() - 1) == prefix.len() as int);
        let whole = prefix + seq![keyframe_node_m(km.last().0)] + pose_nodes_m(
            km.last().1,
            km.last().1.len() as int,
            prefix.len() as int,
            bones,
        );
        assert(tree_nodes_m(km, bones) == whole);
        assert(kf_node_idx(km, i) + 1 + j < prefix.len());
        assert(prefix[kf_node_idx(km.drop_last(), i) + 1 + j] == pose_node_m(
            km.drop_last()[i].1,
            j,
            kf_node_idx(km.drop_last(), i),
            bones,
        ));
        assert(whole[kf_node_idx(km, i)] == prefix[kf_node_idx(km, i)]);
        assert(whole[kf_node_idx(km, i) + 1 + j] == prefix[kf_node_idx(km, i) + 1 + j]);
    }
}

} // verus!
