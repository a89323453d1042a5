//! Integration tests for anim2rbx.

use std::collections::HashSet;

use anim2rbx::AnimationConverter;
use anim2rbx::NodeInfo;
use anim2rbx::{create_keyframe_sequence_dom, BoneTable, InstanceKind};
use anim2rbx::{CFrame, Keyframe, Pose, Tolerance};

fn tol(e: f32) -> Tolerance {
    Tolerance { raw: glam::Vec2::new(e, 0.0) }
}

fn identity_cframe_at(position: glam::Vec3) -> CFrame {
    CFrame { position, orientation: glam::Mat3::IDENTITY }
}

#[test]
fn test_convert_animation_file() {
    let converter = AnimationConverter::new(true, tol(1e-5));

    // For now, just test that the converter can be created
    assert!(converter.filter_identical_bones);
    assert_eq!(converter.epsilon.raw.x, 1e-5);
}

#[test]
fn test_default_settings() {
    let converter = AnimationConverter::default();

    // Test default values
    assert!(converter.filter_identical_bones);
    assert_eq!(converter.epsilon.raw.x, 1e-5);
}

#[test]
fn test_custom_settings() {
    let converter = AnimationConverter::new(false, tol(0.001));

    // Test custom values
    assert!(!converter.filter_identical_bones);
    assert_eq!(converter.epsilon.raw.x, 0.001);
}

#[test]
fn test_builder_pattern() {
    let converter = AnimationConverter::default()
        .with_filter_identical_bones(false)
        .with_epsilon(tol(0.01));

    // Test builder pattern values
    assert!(!converter.filter_identical_bones);
    assert_eq!(converter.epsilon.raw.x, 0.01);
}

#[test]
fn test_keyframe_creation() {
    let pose = Pose {
        name: "TestBone".to_string(),
        cframe: identity_cframe_at(glam::Vec3::new(0.0, 0.0, 0.0)),
    };

    let keyframe = Keyframe { time: 0.5f64.to_bits(), poses: vec![pose] };

    assert_eq!(keyframe.time, 0.5f64.to_bits());
    assert_eq!(keyframe.poses.len(), 1);
    assert_eq!(keyframe.poses[0].name, "TestBone");
}

#[test]
fn test_cframe_components() {
    let position = glam::Vec3::new(1.0, 2.0, 3.0);
    let orientation = glam::Mat3::IDENTITY;

    let cframe = CFrame { position, orientation };
    let pose = Pose { name: "TestBone".to_string(), cframe };

    assert_eq!(pose.cframe.position.x, 1.0);
    assert_eq!(pose.cframe.position.y, 2.0);
    assert_eq!(pose.cframe.position.z, 3.0);
    assert_eq!(pose.cframe.orientation.x_axis.x, 1.0);
    assert_eq!(pose.cframe.orientation.y_axis.y, 1.0);
    assert_eq!(pose.cframe.orientation.z_axis.z, 1.0);
}

#[test]
fn test_keyframe_sorting_and_validation() {
    let mut keyframes = vec![
        Keyframe {
            time: 1.0f64.to_bits(),
            poses: vec![Pose {
                name: "Bone1".to_string(),
                cframe: identity_cframe_at(glam::Vec3::new(1.0, 0.0, 0.0)),
            }],
        },
        Keyframe {
            time: 0.5f64.to_bits(),
            poses: vec![Pose {
                name: "Bone1".to_string(),
                cframe: identity_cframe_at(glam::Vec3::new(0.5, 0.0, 0.0)),
            }],
        },
        Keyframe {
            time: 0.0f64.to_bits(),
            poses: vec![Pose {
                name: "Bone1".to_string(),
                cframe: identity_cframe_at(glam::Vec3::new(0.0, 0.0, 0.0)),
            }],
        },
    ];

    // Test that keyframes can be sorted by time (bit order is numeric order
    // for the non-negative times used here)
    keyframes.sort_by(|a, b| a.time.cmp(&b.time));

    assert_eq!(keyframes[0].time, 0.0f64.to_bits());
    assert_eq!(keyframes[1].time, 0.5f64.to_bits());
    assert_eq!(keyframes[2].time, 1.0f64.to_bits());

    // Test that poses have valid data
    for keyframe in &keyframes {
        assert!(!keyframe.poses.is_empty(), "Keyframe should have at least one pose");
        for pose in &keyframe.poses {
            assert!(!pose.name.is_empty(), "Pose name should not be empty");
            // Validate that position components are finite
            assert!(pose.cframe.position.x.is_finite());
            assert!(pose.cframe.position.y.is_finite());
            assert!(pose.cframe.position.z.is_finite());
        }
    }
}

#[test]
fn test_converter_epsilon_precision() {
    let epsilon_high = 0.1;
    let epsilon_low = 0.001;

    let converter_high = AnimationConverter::new(true, tol(epsilon_high));
    let converter_low = AnimationConverter::new(true, tol(epsilon_low));

    assert_eq!(converter_high.epsilon.raw.x, epsilon_high);
    assert_eq!(converter_low.epsilon.raw.x, epsilon_low);

    // Test that different epsilon values are preserved
    assert_ne!(converter_high.epsilon.raw.x, converter_low.epsilon.raw.x);
}

#[test]
fn test_builder_pattern_chaining() {
    let converter = AnimationConverter::default()
        .with_filter_identical_bones(false)
        .with_epsilon(tol(0.001))
        .with_filter_identical_bones(true) // Should overwrite previous value
        .with_epsilon(tol(0.002)); // Should overwrite previous value

    assert!(converter.filter_identical_bones);
    assert_eq!(converter.epsilon.raw.x, 0.002);
}

#[test]
fn test_extreme_epsilon_values() {
    // Test very small epsilon
    let converter_tiny = AnimationConverter::new(true, tol(f32::EPSILON));
    assert_eq!(converter_tiny.epsilon.raw.x, f32::EPSILON);

    // Test larger epsilon
    let converter_large = AnimationConverter::new(false, tol(1.0));
    assert_eq!(converter_large.epsilon.raw.x, 1.0);
    assert!(!converter_large.filter_identical_bones);
}

#[test]
fn test_multiple_poses_per_keyframe() {
    let poses = vec![
        Pose {
            name: "LeftArm".to_string(),
            cframe: identity_cframe_at(glam::Vec3::new(-1.0, 0.0, 0.0)),
        },
        Pose {
            name: "RightArm".to_string(),
            cframe: identity_cframe_at(glam::Vec3::new(1.0, 0.0, 0.0)),
        },
        Pose {
            name: "Head".to_string(),
            cframe: identity_cframe_at(glam::Vec3::new(0.0, 1.0, 0.0)),
        },
    ];

    let keyframe = Keyframe { time: 0.0f64.to_bits(), poses };

    assert_eq!(keyframe.poses.len(), 3);
    assert_eq!(keyframe.poses[0].name, "LeftArm");
    assert_eq!(keyframe.poses[1].name, "RightArm");
    assert_eq!(keyframe.poses[2].name, "Head");

    // Verify unique bone names
    let bone_names: HashSet<_> = keyframe.poses.iter().map(|p| &p.name).collect();
    assert_eq!(bone_names.len(), 3, "All bone names should be unique");
}

#[test]
fn test_bone_info_hierarchy() {
    let root_bone = NodeInfo { rest_transform: glam::Mat4::IDENTITY, parent: None };

    let child_bone = NodeInfo {
        // Translated by 1 unit in X
        rest_transform: glam::Mat4::from_translation(glam::Vec3::new(1.0, 0.0, 0.0)),
        parent: Some("RootBone".to_string()),
    };

    assert!(root_bone.parent.is_none());
    assert!(child_bone.parent.is_some());
    assert_eq!(child_bone.parent.as_ref().unwrap(), "RootBone");

    // Test that transformation matrices are different
    assert_ne!(root_bone.rest_transform.w_axis.x, child_bone.rest_transform.w_axis.x);
}

#[test]
fn test_empty_keyframe_sequence() {
    let empty_keyframes: Vec<Keyframe> = vec![];
    let bone_infos = BoneTable::new();

    let tree = create_keyframe_sequence_dom(&empty_keyframes, &bone_infos);

    // Should create a valid tree even with empty data: a root and nothing else
    assert_eq!(tree.nodes.len(), 1);
    assert_eq!(tree.nodes[0].kind, InstanceKind::Sequence);
    assert!(tree.nodes[0].parent.is_none());
    assert_eq!(tree.nodes[0].priority, 2);
}

#[test]
fn test_floating_point_precision() {
    // Test with high precision floating point values
    let precise_position =
        glam::Vec3::new(1.23456789012345, -9.87654321098765, 0.000000123456789);

    let pose = Pose { name: "PrecisionBone".to_string(), cframe: identity_cframe_at(precise_position) };

    let keyframe = Keyframe { time: 0.123456789f64.to_bits(), poses: vec![pose] };

    // Verify precision is maintained
    assert!((f64::from_bits(keyframe.time) - 0.123456789).abs() < f64::EPSILON);
    assert!((keyframe.poses[0].cframe.position.x - 1.23456789012345).abs() < f32::EPSILON);
    assert!((keyframe.poses[0].cframe.position.y + 9.87654321098765).abs() < f32::EPSILON);
}

#[test]
fn test_api_consistency() {
    // Ensure all three API patterns produce equivalent results
    let default_converter = AnimationConverter::default();
    let param_converter = AnimationConverter::new(true, tol(1e-5));
    let builder_converter = AnimationConverter::default()
        .with_filter_identical_bones(true)
        .with_epsilon(tol(1e-5));

    // All should have identical settings
    assert_eq!(
        default_converter.filter_identical_bones,
        param_converter.filter_identical_bones
    );
    assert_eq!(default_converter.epsilon.raw.x, param_converter.epsilon.raw.x);
    assert_eq!(
        param_converter.filter_identical_bones,
        builder_converter.filter_identical_bones
    );
    assert_eq!(param_converter.epsilon.raw.x, builder_converter.epsilon.raw.x);
}

#[test]
fn test_approx_equal_vec3_exact() {
    let v1 = glam::Vec3::new(1.0, 2.0, 3.0);
    let v2 = glam::Vec3::new(1.0, 2.0, 3.0);

    assert!(anim2rbx::utils::approx_equal_vec3(&v1, &v2, &tol(1e-6)));
    assert!(anim2rbx::utils::approx_equal_vec3(&v1, &v2, &tol(0.0))); // Exact match should work with zero epsilon
}

#[test]
fn test_approx_equal_vec3_within_epsilon() {
    let v1 = glam::Vec3::new(1.0, 2.0, 3.0);
    let v2 = glam::Vec3::new(1.0001, 2.0001, 3.0001);

    assert!(anim2rbx::utils::approx_equal_vec3(&v1, &v2, &tol(0.001)));
    assert!(!anim2rbx::utils::approx_equal_vec3(&v1, &v2, &tol(0.00001)));
}

#[test]
fn test_approx_equal_vec3_outside_epsilon() {
    let v1 = glam::Vec3::new(1.0, 2.0, 3.0);
    let v2 = glam::Vec3::new(1.1, 2.1, 3.1);

    assert!(!anim2rbx::utils::approx_equal_vec3(&v1, &v2, &tol(0.05)));
    assert!(anim2rbx::utils::approx_equal_vec3(&v1, &v2, &tol(0.15)));
}

#[test]
fn test_approx_equal_matrix3() {
    let m1 = glam::Mat3::IDENTITY;

    let m2 = glam::Mat3::from_cols(
        glam::Vec3::new(1.0001, 0.0001, 0.0001),
        glam::Vec3::new(0.0001, 1.0001, 0.0001),
        glam::Vec3::new(0.0001, 0.0001, 1.0001),
    );

    assert!(anim2rbx::utils::approx_equal_matrix3(&m1, &m2, &tol(0.001)));
    assert!(!anim2rbx::utils::approx_equal_matrix3(&m1, &m2, &tol(0.00001)));
}

#[test]
fn test_approx_equal_cframe() {
    let cframe1 = CFrame {
        position: glam::Vec3::new(1.0, 2.0, 3.0),
        orientation: glam::Mat3::IDENTITY,
    };

    let cframe2 = CFrame {
        position: glam::Vec3::new(1.0001, 2.0001, 3.0001),
        orientation: glam::Mat3::from_cols(
            glam::Vec3::new(1.0001, 0.0001, 0.0001),
            glam::Vec3::new(0.0001, 1.0001, 0.0001),
            glam::Vec3::new(0.0001, 0.0001, 1.0001),
        ),
    };

    assert!(anim2rbx::utils::approx_equal_cframe(&cframe1, &cframe2, &tol(0.001)));
    assert!(!anim2rbx::utils::approx_equal_cframe(&cframe1, &cframe2, &tol(0.00001)));
}

#[test]
fn test_approx_equal_edge_cases() {
    // Test with negative values
    let v1 = glam::Vec3::new(-1.0, -2.0, -3.0);
    let v2 = glam::Vec3::new(-1.0001, -2.0001, -3.0001);
    assert!(anim2rbx::utils::approx_equal_vec3(&v1, &v2, &tol(0.001)));

    // Test with very small values
    let v3 = glam::Vec3::new(1e-10, 1e-10, 1e-10);
    let v4 = glam::Vec3::new(2e-10, 2e-10, 2e-10);
    assert!(anim2rbx::utils::approx_equal_vec3(&v3, &v4, &tol(1e-9)));

    // Test with mixed large and small values
    let v5 = glam::Vec3::new(1000.0, 0.001, -1000.0);
    let v6 = glam::Vec3::new(1000.1, 0.002, -1000.1);
    assert!(anim2rbx::utils::approx_equal_vec3(&v5, &v6, &tol(0.15)));
}

#[test]
fn test_zero_epsilon_strict_equality() {
    let v1 = glam::Vec3::new(1.0, 2.0, 3.0);
    let v2 = glam::Vec3::new(1.0, 2.0, 3.0);
    let v3 = glam::Vec3::new(1.0000001, 2.0, 3.0); // Tiny difference

    assert!(anim2rbx::utils::approx_equal_vec3(&v1, &v2, &tol(0.0)));
    assert!(!anim2rbx::utils::approx_equal_vec3(&v1, &v3, &tol(0.0)));
}
