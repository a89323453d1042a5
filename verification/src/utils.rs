//! Approximate equality of rigid transforms, and the bone hierarchy
//! resolver.
use vstd::prelude::*;

use crate::rigid::{
    mat3_col_x, mat3_col_y, mat3_col_z, mat3_bits, mat4_bits, vec3_bits, vec3_within, within_v3,
    F32_INFINITY_BITS, M3Bits,
};
use crate::types::{
    opt_name, BoneTable, CFBits, CFrame, NodeInfo, NodeInfoM, SceneData, SceneNode, Tolerance,
};

verus! {

/// Whether every component of all three columns of `a` differs from the
/// corresponding component of `b` by at most `eps` (absolute difference,
/// inclusive).
pub open spec fn within_m3(a: M3Bits, b: M3Bits, eps: u32) -> bool {
    within_v3(a.0, b.0, eps) && within_v3(a.1, b.1, eps) && within_v3(a.2, b.2, eps)
}

/// Whether every component of the translation and of all three rotation
/// basis columns of `a` differs from `b`'s by at most `eps`.
pub open spec fn within_cf(a: CFBits, b: CFBits, eps: u32) -> bool {
    within_v3(a.0, b.0, eps) && within_m3(a.1, b.1, eps)
}

/// Whether two 3-vectors are approximately equal: every component differs by
/// at most the tolerance.
pub fn approx_equal_vec3(a: &glam::Vec3, b: &glam::Vec3, epsilon: &Tolerance) -> (r: bool)
    ensures
        r == within_v3(vec3_bits(*a), vec3_bits(*b), epsilon.bits()),
        (forall|e2: u32|
            r && epsilon.bits() <= e2 <= F32_INFINITY_BITS ==> within_v3(
                vec3_bits(*a),
                vec3_bits(*b),
                e2,
            )),
{
    vec3_within(a, b, &epsilon.raw)
}

/// Whether two 3x3 matrices are approximately equal: every column is
/// approximately equal.
pub fn approx_equal_matrix3(a: &glam::Mat3, b: &glam::Mat3, epsilon: &Tolerance) -> (r: bool)
    ensures
        r == within_m3(mat3_bits(*a), mat3_bits(*b), epsilon.bits()),
        (forall|e2: u32|
            r && epsilon.bits() <= e2 <= F32_INFINITY_BITS ==> within_m3(
                mat3_bits(*a),
                mat3_bits(*b),
                e2,
            )),
{
    let ax = mat3_col_x(a);
    let bx = mat3_col_x(b);
    let ay = mat3_col_y(a);
    let by = mat3_col_y(b);
    let az = mat3_col_z(a);
    let bz = mat3_col_z(b);
    approx_equal_vec3(&ax, &bx, epsilon) && approx_equal_vec3(&ay, &by, epsilon)
        && approx_equal_vec3(&az, &bz, epsilon)
}

/// Whether two rigid transforms are approximately equal: the translations
/// and the rotation bases are approximately equal.
pub fn approx_equal_cframe(a: &CFrame, b: &CFrame, epsilon: &Tolerance) -> (r: bool)
    ensures
        r == within_cf(a.bits(), b.bits(), epsilon.bits()),
        (forall|e2: u32|
            r && epsilon.bits() <= e2 <= F32_INFINITY_BITS ==> within_cf(a.bits(), b.bits(), e2)),
{
    approx_equal_vec3(&a.position, &b.position, epsilon)
        && approx_equal_matrix3(&a.orientation, &b.orientation, epsilon)
}

/// The set of names viewed from a list of strings.
pub open spec fn name_set(names: Seq<String>) -> Set<Seq<char>> {
    Set::new(|n: Seq<char>| exists|k: int| 0 <= k < names.len() && names[k]@ == n)
}

/// The set of track names declared by any clip of the scene, pooled across
/// all clips.
pub open spec fn track_names(scene: SceneData) -> Set<Seq<char>> {
    Set::new(
        |n: Seq<char>|
            exists|i: int, j: int|
                0 <= i < scene.clips@.len() && 0 <= j < scene.clips@[i].tracks@.len()
                    && scene.clips@[i].tracks@[j].name@ == n,
    )
}

/// The bone table denoted by a depth-first traversal of a forest of nodes,
/// left to right, carrying the nearest bone ancestor.
///
/// A node is a bone exactly when its name is in `names`. A bone is recorded
/// under its name with its rest transform and the carried ancestor, and
/// becomes the ancestor carried to its children; a non-bone node is skipped
/// and passes the ancestor through. Later records override earlier ones.
pub open spec fn forest_bones(
    nodes: Seq<SceneNode>,
    parent: Option<Seq<char>>,
    names: Set<Seq<char>>,
) -> Map<Seq<char>, NodeInfoM>
    decreases nodes,
{
    if nodes.len() == 0 {
        Map::empty()
    } else {
        let n = nodes.last();
        let here: Map<Seq<char>, NodeInfoM> = if names.contains(n.name@) {
            Map::empty().insert(n.name@, (mat4_bits(n.transform), parent))
        } else {
            Map::empty()
        };
        let next: Option<Seq<char>> = if names.contains(n.name@) {
            Option::Some(n.name@)
        } else {
            parent
        };
        forest_bones(nodes.drop_last(), parent, names).union_prefer_right(here).union_prefer_right(
            forest_bones(n.children@, next, names),
        )
    }
}

/// The bone table of a whole scene: the depth-first traversal of its root,
/// with no initial ancestor, classifying by the pooled track names.
pub open spec fn scene_bones(scene: SceneData) -> Map<Seq<char>, NodeInfoM> {
    match scene.root {
        Option::Some(root) => forest_bones(seq![root], Option::None, track_names(scene)),
        Option::None => Map::empty(),
    }
}

/// Whether `n`'s view is one of the names in `names`.
pub(crate) fn contains_name(names: &Vec<String>, n: &String) -> (r: bool)
    ensures
        r == name_set(names@).contains(n@),
{
    let mut k: usize = 0;
    while k < names.len()
        invariant
            k <= names@.len(),
            forall|j: int| 0 <= j < k ==> names@[j]@ != n@,
        decreases names@.len() - k,
    {
        if names[k] == *n {
            proof {
                assert(exists|j: int| 0 <= j < names@.len() && names@[j]@ == n@) by {
                    assert(names@[k as int]@ == n@);
                }
            }
            return true;
        }
        k = k + 1;
    }
    proof {
        if name_set(names@).contains(n@) {
            let j = choose|j: int| 0 <= j < names@.len() && names@[j]@ == n@;
            assert(false);
        }
    }
    false
}

/// A copy of an optional bone name.
fn clone_opt_name(n: &Option<String>) -> (r: Option<String>)
    ensures
        r == *n,
{
    match n {
        Option::Some(s) => Option::Some(s.clone()),
        Option::None => Option::None,
    }
}

/// Walk `node`'s subtree depth first, recording every node whose name is in
/// `names` together with its rest transform and nearest bone ancestor.
fn collect_node_bone_infos(
    node: &SceneNode,
    parent: &Option<String>,
    table: &mut BoneTable,
    names: &Vec<String>,
)
    ensures
        final(table).map_model() == old(table).map_model().union_prefer_right(
            forest_bones(seq![*node], opt_name(*parent), name_set(names@)),
        ),
    decreases *node,
{
    let ghost nset = name_set(names@);
    let is_bone = contains_name(names, &node.name);
    let next_parent: Option<String> = if is_bone {
        table.insert(
            &node.name,
            NodeInfo { rest_transform: node.transform, parent: clone_opt_name(parent) },
        );
        Option::Some(node.name.clone())
    } else {
        clone_opt_name(parent)
    };
    let ghost here: Map<Seq<char>, NodeInfoM> = if nset.contains(node.name@) {
        Map::empty().insert(node.name@, (mat4_bits(node.transform), opt_name(*parent)))
    } else {
        Map::empty()
    };
    let ghost base = old(table).map_model().union_prefer_right(here);
    proof {
        assert(table.map_model() =~= base);
    }
    let mut i: usize = 0;
    while i < node.children.len()
        invariant
            i <= node.children@.len(),
            opt_name(next_parent) == (if nset.contains(node.name@) {
                Option::Some(node.name@)
            } else {
                opt_name(*parent)
            }),
            name_set(names@) == nset,
            table.map_model() == base.union_prefer_right(
                forest_bones(node.children@.take(i as int), opt_name(next_parent), nset),
            ),
        decreases node.children@.len() - i,
    {
        let ghost pre = table.map_model();
        collect_node_bone_infos(&node.children[i], &next_parent, table, names);
        proof {
            lemma_forest_take_step(node.children@, i as int, opt_name(next_parent), nset);
            assert(table.map_model() =~= base.union_prefer_right(
                forest_bones(node.children@.take(i as int + 1), opt_name(next_parent), nset),
            ));
        }
        i = i + 1;
    }
    proof {
        assert(node.children@.take(node.children@.len() as int) =~= node.children@);
        let single = seq![*node];
        assert(single.drop_last() =~= Seq::<SceneNode>::empty());
        assert(single.last() == *node);
        assert(forest_bones(single.drop_last(), opt_name(*parent), nset) == Map::<
            Seq<char>,
            NodeInfoM,
        >::empty());
        assert(forest_bones(single, opt_name(*parent), nset) == Map::<
            Seq<char>,
            NodeInfoM,
        >::empty().union_prefer_right(here).union_prefer_right(
            forest_bones(node.children@, opt_name(next_parent), nset),
        ));
        assert(final(table).map_model() =~= old(table).map_model().union_prefer_right(
            forest_bones(single, opt_name(*parent), nset),
        ));
    }
}

/// Appending node `i` to a processed prefix extends the forest map by that
/// node's subtree.
proof fn lemma_forest_take_step(
    nodes: Seq<SceneNode>,
    i: int,
    parent: Option<Seq<char>>,
    names: Set<Seq<char>>,
)
    requires
        0 <= i < nodes.len(),
    ensures
        forest_bones(nodes.take(i + 1), parent, names) == forest_bones(
            nodes.take(i),
            parent,
            names,
        ).union_prefer_right(forest_bones(seq![nodes[i]], parent, names)),
{
    let s1 = nodes.take(i + 1);
    let single = seq![nodes[i]];
    assert(s1.drop_last() =~= nodes.take(i));
    assert(s1.last() == nodes[i]);
    assert(single.drop_last() =~= Seq::<SceneNode>::empty());
    assert(single.last() == nodes[i]);
    assert(forest_bones(single.drop_last(), parent, names) == Map::<Seq<char>, NodeInfoM>::empty());
    let n = nodes[i];
    let here: Map<Seq<char>, NodeInfoM> = if names.contains(n.name@) {
        Map::empty().insert(n.name@, (mat4_bits(n.transform), parent))
    } else {
        Map::empty()
    };
    let next: Option<Seq<char>> = if names.contains(n.name@) {
        Option::Some(n.name@)
    } else {
        parent
    };
    assert(forest_bones(single, parent, names) == Map::<Seq<char>, NodeInfoM>::empty()
        .union_prefer_right(here).union_prefer_right(forest_bones(n.children@, next, names)));
    assert(forest_bones(s1, parent, names) == forest_bones(nodes.take(i), parent, names)
        .union_prefer_right(here).union_prefer_right(forest_bones(n.children@, next, names)));
    assert(forest_bones(s1, parent, names) =~= forest_bones(nodes.take(i), parent, names)
        .union_prefer_right(forest_bones(single, parent, names)));
}

/// Resolve the bone hierarchy of a scene.
///
/// A node is a bone exactly when some clip has a track of its name. Every
/// bone is recorded with its rest transform and its nearest bone ancestor;
/// non-bone ancestors neither appear in the table nor break the ancestor
/// chain.
pub fn get_bone_infos(scene: &SceneData) -> (r: BoneTable)
    ensures
        r.map_model() == scene_bones(*scene),
{
    let mut names: Vec<String> = Vec::new();
    let mut i: usize = 0;
    while i < scene.clips.len()
        invariant
            i <= scene.clips@.len(),
            forall|k: int| 0 <= k < names@.len() ==> track_names(*scene).contains(#[trigger] names@[k]@),
            forall|ci: int, tj: int|
                0 <= ci < i && 0 <= tj < scene.clips@[ci].tracks@.len() ==> name_set(
                    names@,
                ).contains(#[trigger] scene.clips@[ci].tracks@[tj].name@),
        decreases scene.clips@.len() - i,
    {
        let clip = &scene.clips[i];
        let mut j: usize = 0;
        while j < clip.tracks.len()
            invariant
                i < scene.clips@.len(),
                j <= clip.tracks@.len(),
                *clip == scene.clips@[i as int],
                forall|k: int|
                    0 <= k < names@.len() ==> track_names(*scene).contains(#[trigger] names@[k]@),
                forall|ci: int, tj: int|
                    0 <= ci < i && 0 <= tj < scene.clips@[ci].tracks@.len() ==> name_set(
                        names@,
                    ).contains(#[trigger] scene.clips@[ci].tracks@[tj].name@),
                forall|tj: int|
                    0 <= tj < j ==> name_set(names@).contains(
                        #[trigger] scene.clips@[i as int].tracks@[tj].name@,
                    ),
            decreases clip.tracks@.len() - j,
        {
            let ghost names_before = names@;
            names.push(clip.tracks[j].name.clone());
            proof {
                lemma_name_set_push(names_before, names@.last());
                assert(track_names(*scene).contains(names@.last()@)) by {
                    assert(scene.clips@[i as int].tracks@[j as int].name@ == names@.last()@);
                }
                assert(forall|k: int|
                    0 <= k < names@.len() ==> track_names(*scene).contains(#[trigger] names@[k]@))
                    by {
                    assert(forall|k: int|
                        0 <= k < names_before.len() ==> names@[k] == names_before[k]);
                }
            }
            j = j + 1;
        }
        i = i + 1;
    }
    proof {
        assert(name_set(names@) =~= track_names(*scene)) by {
            assert forall|n: Seq<char>| name_set(names@).contains(n) implies track_names(
                *scene,
            ).contains(n) by {
                let k = choose|k: int| 0 <= k < names@.len() && names@[k]@ == n;
                assert(track_names(*scene).contains(names@[k]@));
            }
        }
    }
    let mut table = BoneTable::new();
    match &scene.root {
        Option::Some(root) => {
            let no_parent: Option<String> = Option::None;
            collect_node_bone_infos(root, &no_parent, &mut table, &names);
            proof {
                assert(table.map_model() =~= scene_bones(*scene));
            }
        },
        Option::None => {},
    }
    table
}

/// Pushing a name onto a list adds exactly that name to the denoted set.
pub(crate) proof fn lemma_name_set_push(s: Seq<String>, x: String)
    ensures
        name_set(s.push(x)) == name_set(s).insert(x@),
{
    assert forall|n: Seq<char>| name_set(s.push(x)).contains(n) implies name_set(s).insert(
        x@,
    ).contains(n) by {
        let k = choose|k: int| 0 <= k < s.push(x).len() && s.push(x)[k]@ == n;
        if k < s.len() {
            assert(s[k]@ == n);
        }
    }
    assert forall|n: Seq<char>| name_set(s).insert(x@).contains(n) implies name_set(
        s.push(x),
    ).contains(n) by {
        if n == x@ {
            assert(s.push(x)[s.len() as int]@ == n);
        } else {
            let k = choose|k: int| 0 <= k < s.len() && s[k]@ == n;
            assert(s.push(x)[k]@ == n);
        }
    }
    assert(name_set(s.push(x)) =~= name_set(s).insert(x@));
}

} // verus!
