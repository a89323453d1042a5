//! End-to-end tests of the conversion pipeline: bone resolution, keyframe
//! extraction, simplification and assembly.

use anim2rbx::{
    create_keyframe_sequence_dom, extract_keyframes_from_scene, filter_identical_bone_poses,
    get_bone_infos, AnimationConverter, CFrame, Clip, InstanceKind, Keyframe, Pose, PositionKey,
    RotationKey, SceneData, SceneNode, Tolerance, Track,
};

fn tol(e: f32) -> Tolerance {
    Tolerance { raw: glam::Vec2::new(e, 0.0) }
}

fn pos_key(tick: f64, v: glam::Vec3) -> PositionKey {
    PositionKey { time: glam::DVec2::new(tick, 0.0), value: v }
}

fn rot_key(tick: f64, q: glam::Quat) -> RotationKey {
    RotationKey { time: glam::DVec2::new(tick, 0.0), value: q }
}

fn track(name: &str, position_keys: Vec<PositionKey>, rotation_keys: Vec<RotationKey>) -> Track {
    Track { name: name.to_string(), position_keys, rotation_keys }
}

fn clip(ticks_per_second: f64, tracks: Vec<Track>) -> Clip {
    Clip { ticks_per_second: glam::DVec2::new(ticks_per_second, 0.0), tracks }
}

fn node(name: &str, transform: glam::Mat4, children: Vec<SceneNode>) -> SceneNode {
    SceneNode { name: name.to_string(), transform, children }
}

fn static_pose(name: &str, x: f32) -> Pose {
    Pose {
        name: name.to_string(),
        cframe: CFrame { position: glam::Vec3::new(x, 0.0, 0.0), orientation: glam::Mat3::IDENTITY },
    }
}

#[test]
fn thirty_ticks_per_second_times() {
    // A clip at 30 ticks per second with keys at ticks 0, 15 and 30 yields
    // keyframes at 0, 0.5 and 1 seconds.
    let scene = SceneData {
        root: Some(node("Arm", glam::Mat4::IDENTITY, vec![])),
        clips: vec![clip(
            30.0,
            vec![track(
                "Arm",
                vec![
                    pos_key(0.0, glam::Vec3::ZERO),
                    pos_key(15.0, glam::Vec3::X),
                    pos_key(30.0, glam::Vec3::Y),
                ],
                vec![],
            )],
        )],
    };
    let bones = get_bone_infos(&scene);
    let kfs = extract_keyframes_from_scene(&scene, &bones);
    let times: Vec<u64> = kfs.iter().map(|k| k.time).collect();
    assert_eq!(times, vec![0.0f64.to_bits(), 0.5f64.to_bits(), 1.0f64.to_bits()]);
    for kf in &kfs {
        assert_eq!(kf.poses.len(), 1);
        assert_eq!(kf.poses[0].name, "Arm");
    }
}

#[test]
fn non_positive_rate_defaults_to_24() {
    // A clip declaring no rate converts at 24 ticks per second.
    let scene = SceneData {
        root: Some(node("Arm", glam::Mat4::IDENTITY, vec![])),
        clips: vec![clip(
            0.0,
            vec![track(
                "Arm",
                vec![pos_key(24.0, glam::Vec3::X), pos_key(48.0, glam::Vec3::Y)],
                vec![],
            )],
        )],
    };
    let bones = get_bone_infos(&scene);
    let kfs = extract_keyframes_from_scene(&scene, &bones);
    let times: Vec<u64> = kfs.iter().map(|k| k.time).collect();
    assert_eq!(times, vec![1.0f64.to_bits(), 2.0f64.to_bits()]);
}

#[test]
fn times_merged_sorted_deduplicated() {
    // Times from position and rotation keys of several tracks are merged
    // into one ascending, duplicate-free list.
    let scene = SceneData {
        root: Some(node(
            "A",
            glam::Mat4::IDENTITY,
            vec![node("B", glam::Mat4::IDENTITY, vec![])],
        )),
        clips: vec![clip(
            1.0,
            vec![
                track(
                    "A",
                    vec![pos_key(3.0, glam::Vec3::X), pos_key(1.0, glam::Vec3::Y)],
                    vec![rot_key(1.0, glam::Quat::IDENTITY)],
                ),
                track("B", vec![pos_key(2.0, glam::Vec3::Z)], vec![]),
            ],
        )],
    };
    let bones = get_bone_infos(&scene);
    let kfs = extract_keyframes_from_scene(&scene, &bones);
    let times: Vec<u64> = kfs.iter().map(|k| k.time).collect();
    assert_eq!(times, vec![1.0f64.to_bits(), 2.0f64.to_bits(), 3.0f64.to_bits()]);
    // At time 1 only A has keys; at time 2 only B.
    assert_eq!(kfs[0].poses.len(), 1);
    assert_eq!(kfs[0].poses[0].name, "A");
    assert_eq!(kfs[1].poses.len(), 1);
    assert_eq!(kfs[1].poses[0].name, "B");
}

#[test]
fn emitted_translation_relative_to_rest() {
    // A bone with rest translation (0,0,0) and a position key (2,0,0) emits
    // translation (2,0,0); one with rest translation (1,0,0) and the same
    // key emits (1,0,0).
    let scene = SceneData {
        root: Some(node(
            "A",
            glam::Mat4::IDENTITY,
            vec![node(
                "B",
                glam::Mat4::from_translation(glam::Vec3::new(1.0, 0.0, 0.0)),
                vec![],
            )],
        )),
        clips: vec![clip(
            1.0,
            vec![
                track("A", vec![pos_key(0.0, glam::Vec3::new(2.0, 0.0, 0.0))], vec![]),
                track("B", vec![pos_key(0.0, glam::Vec3::new(2.0, 0.0, 0.0))], vec![]),
            ],
        )],
    };
    let bones = get_bone_infos(&scene);
    let kfs = extract_keyframes_from_scene(&scene, &bones);
    assert_eq!(kfs.len(), 1);
    assert_eq!(kfs[0].poses.len(), 2);
    assert_eq!(kfs[0].poses[0].name, "A");
    assert_eq!(kfs[0].poses[0].cframe.position, glam::Vec3::new(2.0, 0.0, 0.0));
    assert_eq!(kfs[0].poses[1].name, "B");
    assert_eq!(kfs[0].poses[1].cframe.position, glam::Vec3::new(1.0, 0.0, 0.0));
    // No rotation key: the orientation defaults to the identity basis.
    assert_eq!(kfs[0].poses[0].cframe.orientation, glam::Mat3::IDENTITY);
}

#[test]
fn emitted_rotation_relative_to_rest() {
    // With an identity rest rotation, the emitted basis is exactly the keyed
    // rotation's.
    let q = glam::Quat::from_rotation_z(std::f32::consts::FRAC_PI_2);
    let scene = SceneData {
        root: Some(node("A", glam::Mat4::IDENTITY, vec![])),
        clips: vec![clip(1.0, vec![track("A", vec![], vec![rot_key(0.0, q)])])],
    };
    let bones = get_bone_infos(&scene);
    let kfs = extract_keyframes_from_scene(&scene, &bones);
    assert_eq!(kfs.len(), 1);
    let orientation = kfs[0].poses[0].cframe.orientation;
    let expected = glam::Mat3::from_quat(q);
    assert!(orientation.abs_diff_eq(expected, 1e-6));
    // A quarter turn about z sends the x axis near (0,1,0).
    assert!((orientation.x_axis - glam::Vec3::new(0.0, 1.0, 0.0)).length() < 1e-6);
    // The position defaults to zero without a position key.
    assert_eq!(kfs[0].poses[0].cframe.position, glam::Vec3::ZERO);
}

#[test]
fn unmatched_track_gets_default_pose() {
    // A track whose name matches no scene node still emits poses, with zero
    // translation and identity rotation.
    let scene = SceneData {
        root: Some(node("Elsewhere", glam::Mat4::IDENTITY, vec![])),
        clips: vec![clip(
            1.0,
            vec![track("Ghostly", vec![pos_key(0.0, glam::Vec3::new(5.0, 6.0, 7.0))], vec![])],
        )],
    };
    let bones = get_bone_infos(&scene);
    let kfs = extract_keyframes_from_scene(&scene, &bones);
    assert_eq!(kfs.len(), 1);
    assert_eq!(kfs[0].poses[0].name, "Ghostly");
    assert_eq!(kfs[0].poses[0].cframe.position, glam::Vec3::ZERO);
    assert_eq!(kfs[0].poses[0].cframe.orientation, glam::Mat3::IDENTITY);
}

#[test]
fn resolver_skips_non_bone_ancestors() {
    // Non-bone nodes neither appear in the table nor break the ancestor
    // chain.
    let scene = SceneData {
        root: Some(node(
            "SceneRoot",
            glam::Mat4::IDENTITY,
            vec![node(
                "A",
                glam::Mat4::IDENTITY,
                vec![node(
                    "Helper",
                    glam::Mat4::IDENTITY,
                    vec![node("B", glam::Mat4::IDENTITY, vec![])],
                )],
            )],
        )),
        clips: vec![clip(
            1.0,
            vec![
                track("A", vec![pos_key(0.0, glam::Vec3::X)], vec![]),
                track("B", vec![pos_key(0.0, glam::Vec3::Y)], vec![]),
            ],
        )],
    };
    let bones = get_bone_infos(&scene);
    let a = bones.get(&"A".to_string()).expect("A is a bone");
    assert!(a.parent.is_none());
    let b = bones.get(&"B".to_string()).expect("B is a bone");
    assert_eq!(b.parent.as_ref().unwrap(), "A");
    assert!(bones.get(&"Helper".to_string()).is_none());
    assert!(bones.get(&"SceneRoot".to_string()).is_none());
}

#[test]
fn simplifier_removes_static_bones() {
    let mut kfs = vec![
        Keyframe {
            time: 0.0f64.to_bits(),
            poses: vec![static_pose("Static", 1.0), static_pose("Moving", 0.0)],
        },
        Keyframe {
            time: 1.0f64.to_bits(),
            poses: vec![static_pose("Static", 1.0), static_pose("Moving", 3.0)],
        },
    ];
    filter_identical_bone_poses(&mut kfs, &tol(1e-5));
    assert_eq!(kfs.len(), 2);
    for kf in &kfs {
        assert_eq!(kf.poses.len(), 1);
        assert_eq!(kf.poses[0].name, "Moving");
    }
}

#[test]
fn simplifier_drops_emptied_keyframes() {
    let mut kfs = vec![
        Keyframe { time: 0.0f64.to_bits(), poses: vec![static_pose("Static", 1.0)] },
        Keyframe { time: 1.0f64.to_bits(), poses: vec![static_pose("Static", 1.0)] },
    ];
    filter_identical_bone_poses(&mut kfs, &tol(1e-5));
    assert_eq!(kfs.len(), 0);
}

#[test]
fn single_occurrence_bone_never_removed() {
    // A bone present in exactly one keyframe survives any tolerance.
    let mut kfs = vec![
        Keyframe {
            time: 0.0f64.to_bits(),
            poses: vec![static_pose("Once", 1.0), static_pose("Static", 2.0)],
        },
        Keyframe { time: 1.0f64.to_bits(), poses: vec![static_pose("Static", 2.0)] },
    ];
    filter_identical_bone_poses(&mut kfs, &tol(f32::INFINITY));
    assert_eq!(kfs.len(), 1);
    assert_eq!(kfs[0].poses.len(), 1);
    assert_eq!(kfs[0].poses[0].name, "Once");
}

fn assert_same_keyframes(a: &[Keyframe], b: &[Keyframe]) {
    assert_eq!(a.len(), b.len());
    for (ka, kb) in a.iter().zip(b.iter()) {
        assert_eq!(ka.time, kb.time);
        assert_eq!(ka.poses.len(), kb.poses.len());
        for (pa, pb) in ka.poses.iter().zip(kb.poses.iter()) {
            assert_eq!(pa.name, pb.name);
            assert_eq!(pa.cframe.position, pb.cframe.position);
            assert_eq!(pa.cframe.orientation, pb.cframe.orientation);
        }
    }
}

#[test]
fn simplifier_idempotent_on_sample() {
    let build = || {
        vec![
            Keyframe {
                time: 0.0f64.to_bits(),
                poses: vec![static_pose("Static", 1.0), static_pose("Moving", 0.0)],
            },
            Keyframe {
                time: 1.0f64.to_bits(),
                poses: vec![static_pose("Static", 1.0), static_pose("Moving", 4.0)],
            },
        ]
    };
    let mut once = build();
    filter_identical_bone_poses(&mut once, &tol(1e-5));
    let mut twice = build();
    filter_identical_bone_poses(&mut twice, &tol(1e-5));
    filter_identical_bone_poses(&mut twice, &tol(1e-5));
    assert_same_keyframes(&once, &twice);
}

#[test]
fn wider_tolerance_removes_superset() {
    // Jitter of one part in ten thousand: kept at a tight tolerance,
    // removed at a loose one; an exactly static bone is removed at both.
    let build = || {
        vec![
            Keyframe {
                time: 0.0f64.to_bits(),
                poses: vec![static_pose("Still", 1.0), static_pose("Jitter", 0.0)],
            },
            Keyframe {
                time: 1.0f64.to_bits(),
                poses: vec![static_pose("Still", 1.0), static_pose("Jitter", 1e-4)],
            },
        ]
    };
    let mut tight = build();
    filter_identical_bone_poses(&mut tight, &tol(1e-6));
    assert_eq!(tight.len(), 2);
    for kf in &tight {
        assert_eq!(kf.poses.len(), 1);
        assert_eq!(kf.poses[0].name, "Jitter");
    }
    let mut loose = build();
    filter_identical_bone_poses(&mut loose, &tol(1e-3));
    assert_eq!(loose.len(), 0);
}

#[test]
fn assembler_parents_child_pose_under_root_pose() {
    // Root and Child are bones, Child parented to Root; both animated at
    // ticks 0 and 1, Child alone at tick 2. In the first two keyframes the
    // Child pose hangs under the Root pose; in the last it hangs directly
    // under its keyframe.
    let scene = SceneData {
        root: Some(node(
            "Root",
            glam::Mat4::IDENTITY,
            vec![node("Child", glam::Mat4::IDENTITY, vec![])],
        )),
        clips: vec![clip(
            1.0,
            vec![
                track(
                    "Root",
                    vec![pos_key(0.0, glam::Vec3::X), pos_key(1.0, glam::Vec3::Y)],
                    vec![],
                ),
                track(
                    "Child",
                    vec![
                        pos_key(0.0, glam::Vec3::X),
                        pos_key(1.0, glam::Vec3::Y),
                        pos_key(2.0, glam::Vec3::Z),
                    ],
                    vec![],
                ),
            ],
        )],
    };
    let bones = get_bone_infos(&scene);
    let kfs = extract_keyframes_from_scene(&scene, &bones);
    assert_eq!(kfs.len(), 3);
    let tree = create_keyframe_sequence_dom(&kfs, &bones);

    // Arena layout: root; then per keyframe its node followed by its poses.
    assert_eq!(tree.nodes.len(), 1 + (1 + 2) + (1 + 2) + (1 + 1));
    assert_eq!(tree.nodes[0].kind, InstanceKind::Sequence);
    assert_eq!(tree.nodes[0].priority, 2);

    for base in [1usize, 4] {
        assert_eq!(tree.nodes[base].kind, InstanceKind::Keyframe);
        assert_eq!(tree.nodes[base].parent, Some(0));
        assert_eq!(tree.nodes[base + 1].name, "Root");
        assert_eq!(tree.nodes[base + 1].parent, Some(base));
        assert_eq!(tree.nodes[base + 2].name, "Child");
        // The child's pose hangs under the root's pose of the same keyframe.
        assert_eq!(tree.nodes[base + 2].parent, Some(base + 1));
        assert_eq!(tree.nodes[base + 2].easing_direction, 0);
        assert_eq!(tree.nodes[base + 2].easing_style, 0);
    }

    // Keyframe at tick 2: Root has no pose, so Child stays under the
    // keyframe node.
    assert_eq!(tree.nodes[7].kind, InstanceKind::Keyframe);
    assert_eq!(tree.nodes[7].time, 2.0f64.to_bits());
    assert_eq!(tree.nodes[8].name, "Child");
    assert_eq!(tree.nodes[8].parent, Some(7));
}

#[test]
fn converter_pipeline_end_to_end() {
    // The converter removes the static bone and keeps the moving one.
    let scene = SceneData {
        root: Some(node(
            "Root",
            glam::Mat4::IDENTITY,
            vec![node("Arm", glam::Mat4::IDENTITY, vec![])],
        )),
        clips: vec![clip(
            2.0,
            vec![
                track(
                    "Root",
                    vec![pos_key(0.0, glam::Vec3::X), pos_key(1.0, glam::Vec3::X)],
                    vec![],
                ),
                track(
                    "Arm",
                    vec![pos_key(0.0, glam::Vec3::X), pos_key(1.0, glam::Vec3::Y)],
                    vec![],
                ),
            ],
        )],
    };
    let converter = AnimationConverter::new(true, tol(1e-5));
    let kfs = converter.convert_scene_to_keyframes(&scene);
    assert_eq!(kfs.len(), 2);
    assert_eq!(kfs[0].time, 0.0f64.to_bits());
    assert_eq!(kfs[1].time, 0.5f64.to_bits());
    for kf in &kfs {
        assert_eq!(kf.poses.len(), 1);
        assert_eq!(kf.poses[0].name, "Arm");
    }

    // Without filtering, both bones stay.
    let plain = AnimationConverter::new(false, tol(1e-5)).convert_scene_to_keyframes(&scene);
    assert_eq!(plain.len(), 2);
    assert_eq!(plain[0].poses.len(), 2);
}

#[test]
fn duplicate_key_times_use_last_key() {
    // Two keys on one tick: the later key wins, as an ordered map built by
    // insertion records it.
    let scene = SceneData {
        root: Some(node("A", glam::Mat4::IDENTITY, vec![])),
        clips: vec![clip(
            1.0,
            vec![track(
                "A",
                vec![
                    pos_key(0.0, glam::Vec3::new(1.0, 0.0, 0.0)),
                    pos_key(0.0, glam::Vec3::new(2.0, 0.0, 0.0)),
                ],
                vec![],
            )],
        )],
    };
    let bones = get_bone_infos(&scene);
    let kfs = extract_keyframes_from_scene(&scene, &bones);
    assert_eq!(kfs.len(), 1);
    assert_eq!(kfs[0].poses[0].cframe.position, glam::Vec3::new(2.0, 0.0, 0.0));
}
