//! Who uses which mesh and which material.
//!
//! Meshes and materials count their users. A used asset stays live, so every
//! object always finds its mesh and its material.
use vstd::prelude::*;

use crate::counting::{
    lemma_occurrences_bounded, lemma_occurrences_positive, lemma_occurrences_push,
    lemma_occurrences_swap_removed, lemma_occurrences_update, occurrences,
};
use crate::draws::MeshSlice;
use crate::foliage::FoliageTypeRecord;
use crate::handles::{MaterialId, MeshId, MultiMeshId};
use crate::materials::MaterialRecord;
use crate::objects::ObjectRecord;
use crate::sparse_set::swap_removed;
use crate::virtual_geometry::VirtualObjectRecord;

verus! {

#[derive(Clone, Copy, Debug)]
pub struct MeshRecord {
    pub slice: MeshSlice,
    /// Number of objects that use the mesh, and one for an owning asset.
    pub ref_count: u32,
    /// The sectioned mesh that the mesh is a section of.
    pub owner: Option<MultiMeshId>,
}

pub open spec fn object_meshes(objects: Seq<ObjectRecord>) -> Seq<MeshId> {
    objects.map_values(|o: ObjectRecord| o.mesh)
}

pub open spec fn object_materials(objects: Seq<ObjectRecord>) -> Seq<MaterialId> {
    objects.map_values(|o: ObjectRecord| o.material)
}

pub open spec fn virtual_materials(objects: Seq<VirtualObjectRecord>) -> Seq<MaterialId> {
    objects.map_values(|o: VirtualObjectRecord| o.material)
}

pub open spec fn foliage_materials(types: Seq<FoliageTypeRecord>) -> Seq<MaterialId> {
    types.map_values(|t: FoliageTypeRecord| t.material)
}

/// Number of objects that use a mesh.
pub open spec fn mesh_uses(objects: Seq<ObjectRecord>, mesh: MeshId) -> nat {
    occurrences(object_meshes(objects), mesh)
}

/// Number of objects, virtual objects and foliage types that use a material.
pub open spec fn material_uses(
    objects: Seq<ObjectRecord>,
    virtuals: Seq<VirtualObjectRecord>,
    types: Seq<FoliageTypeRecord>,
    material: MaterialId,
) -> nat {
    occurrences(object_materials(objects), material) + occurrences(
        virtual_materials(virtuals),
        material,
    ) + occurrences(foliage_materials(types), material)
}

/// References that an owning asset adds to a mesh's own users.
pub open spec fn owner_uses(record: MeshRecord) -> nat {
    match record.owner {
        Some(_) => 1,
        None => 0,
    }
}

/// Meshes count their users, used meshes are live, and objects name them by their slot.
pub open spec fn meshes_linked(meshes: Map<MeshId, MeshRecord>, objects: Seq<ObjectRecord>) -> bool {
    &&& forall|m: MeshId| #[trigger]
        meshes.contains_key(m) ==> meshes[m].ref_count == mesh_uses(objects, m) + owner_uses(
            meshes[m],
        )
    &&& forall|m: MeshId| #[trigger] mesh_uses(objects, m) > 0 ==> meshes.contains_key(m)
    &&& forall|i: int|
        0 <= i < objects.len() ==> (#[trigger] objects[i]).mesh_row == objects[i].mesh.0.index
}

/// Materials count their users, used materials are live, and objects name them by their
/// rows.
pub open spec fn materials_linked(
    materials: Map<MaterialId, MaterialRecord>,
    objects: Seq<ObjectRecord>,
    virtuals: Seq<VirtualObjectRecord>,
    types: Seq<FoliageTypeRecord>,
) -> bool {
    &&& forall|m: MaterialId| #[trigger]
        materials.contains_key(m) ==> materials[m].ref_count == material_uses(
            objects,
            virtuals,
            types,
            m,
        )
    &&& forall|m: MaterialId| #[trigger]
        material_uses(objects, virtuals, types, m) > 0 ==> materials.contains_key(m)
    &&& forall|i: int|
        0 <= i < objects.len() ==> (#[trigger] objects[i]).material_row
            == materials[objects[i].material].gpu_row
}

/// An object's mesh is live.
pub proof fn lemma_object_mesh_live(
    meshes: Map<MeshId, MeshRecord>,
    objects: Seq<ObjectRecord>,
    i: int,
)
    requires
        meshes_linked(meshes, objects),
        0 <= i < objects.len(),
    ensures
        meshes.contains_key(objects[i].mesh),
        meshes[objects[i].mesh].ref_count > 0,
        mesh_uses(objects, objects[i].mesh) > 0,
{
    let m = objects[i].mesh;
    assert(object_meshes(objects)[i] == m);
    assert(object_meshes(objects).contains(m));
    lemma_occurrences_positive(object_meshes(objects), m);
    assert(mesh_uses(objects, m) > 0);
}

/// An object's material is live.
pub proof fn lemma_object_material_live(
    materials: Map<MaterialId, MaterialRecord>,
    objects: Seq<ObjectRecord>,
    virtuals: Seq<VirtualObjectRecord>,
    types: Seq<FoliageTypeRecord>,
    i: int,
)
    requires
        materials_linked(materials, objects, virtuals, types),
        0 <= i < objects.len(),
    ensures
        materials.contains_key(objects[i].material),
        materials[objects[i].material].ref_count > 0,
{
    let m = objects[i].material;
    assert(object_materials(objects)[i] == m);
    assert(object_materials(objects).contains(m));
    lemma_occurrences_positive(object_materials(objects), m);
    assert(material_uses(objects, virtuals, types, m) > 0);
}

/// A virtual object's material is live.
pub proof fn lemma_virtual_material_live(
    materials: Map<MaterialId, MaterialRecord>,
    objects: Seq<ObjectRecord>,
    virtuals: Seq<VirtualObjectRecord>,
    types: Seq<FoliageTypeRecord>,
    i: int,
)
    requires
        materials_linked(materials, objects, virtuals, types),
        0 <= i < virtuals.len(),
    ensures
        materials.contains_key(virtuals[i].material),
        materials[virtuals[i].material].ref_count > 0,
{
    let m = virtuals[i].material;
    assert(virtual_materials(virtuals)[i] == m);
    assert(virtual_materials(virtuals).contains(m));
    lemma_occurrences_positive(virtual_materials(virtuals), m);
    assert(material_uses(objects, virtuals, types, m) > 0);
}

/// A foliage type's material is live.
pub proof fn lemma_foliage_material_live(
    materials: Map<MaterialId, MaterialRecord>,
    objects: Seq<ObjectRecord>,
    virtuals: Seq<VirtualObjectRecord>,
    types: Seq<FoliageTypeRecord>,
    i: int,
)
    requires
        materials_linked(materials, objects, virtuals, types),
        0 <= i < types.len(),
    ensures
        materials.contains_key(types[i].material),
        materials[types[i].material].ref_count > 0,
{
    let m = types[i].material;
    assert(foliage_materials(types)[i] == m);
    assert(foliage_materials(types).contains(m));
    lemma_occurrences_positive(foliage_materials(types), m);
    assert(material_uses(objects, virtuals, types, m) > 0);
}

/// A material never has more users than there are.
pub proof fn lemma_material_uses_bounded(
    objects: Seq<ObjectRecord>,
    virtuals: Seq<VirtualObjectRecord>,
    types: Seq<FoliageTypeRecord>,
    material: MaterialId,
)
    ensures
        material_uses(objects, virtuals, types, material) <= objects.len() + virtuals.len()
            + types.len(),
{
    lemma_occurrences_bounded(object_materials(objects), material);
    lemma_occurrences_bounded(virtual_materials(virtuals), material);
    lemma_occurrences_bounded(foliage_materials(types), material);
}

pub proof fn lemma_mesh_uses_bounded(objects: Seq<ObjectRecord>, mesh: MeshId)
    ensures
        mesh_uses(objects, mesh) <= objects.len(),
{
    lemma_occurrences_bounded(object_meshes(objects), mesh);
}

/// One more object: one more user of its mesh and of its material.
pub proof fn lemma_uses_push(objects: Seq<ObjectRecord>, record: ObjectRecord)
    ensures
        forall|m: MeshId| #[trigger]
            mesh_uses(objects.push(record), m) == mesh_uses(objects, m) + (if record.mesh == m {
                1nat
            } else {
                0
            }),
        forall|m: MaterialId| #[trigger]
            occurrences(object_materials(objects.push(record)), m) == occurrences(
                object_materials(objects),
                m,
            ) + (if record.material == m {
                1nat
            } else {
                0
            }),
{
    assert(object_meshes(objects.push(record)) =~= object_meshes(objects).push(record.mesh));
    assert(object_materials(objects.push(record)) =~= object_materials(objects).push(
        record.material,
    ));
    assert forall|m: MeshId| #[trigger] mesh_uses(objects.push(record), m) == mesh_uses(objects, m)
        + (if record.mesh == m {
        1nat
    } else {
        0
    }) by {
        lemma_occurrences_push(object_meshes(objects), record.mesh, m);
    }
    assert forall|m: MaterialId| #[trigger] occurrences(
        object_materials(objects.push(record)),
        m,
    ) == occurrences(object_materials(objects), m) + (if record.material == m {
        1nat
    } else {
        0
    }) by {
        lemma_occurrences_push(object_materials(objects), record.material, m);
    }
}

/// One object less: one user less of its mesh and of its material.
pub proof fn lemma_uses_swap_removed(objects: Seq<ObjectRecord>, i: int)
    requires
        0 <= i < objects.len(),
    ensures
        forall|m: MeshId| #[trigger]
            mesh_uses(swap_removed(objects, i), m) == mesh_uses(objects, m) - (if objects[i].mesh
                == m {
                1int
            } else {
                0
            }),
        forall|m: MaterialId| #[trigger]
            occurrences(object_materials(swap_removed(objects, i)), m) == occurrences(
                object_materials(objects),
                m,
            ) - (if objects[i].material == m {
                1int
            } else {
                0
            }),
{
    let after = swap_removed(objects, i);
    assert(object_meshes(after) =~= swap_removed(object_meshes(objects), i));
    assert(object_materials(after) =~= swap_removed(object_materials(objects), i));
    assert forall|m: MeshId| #[trigger] mesh_uses(after, m) == mesh_uses(objects, m) - (
    if objects[i].mesh == m {
        1int
    } else {
        0
    }) by {
        lemma_occurrences_swap_removed(object_meshes(objects), i, m);
    }
    assert forall|m: MaterialId| #[trigger] occurrences(object_materials(after), m) == occurrences(
        object_materials(objects),
        m,
    ) - (if objects[i].material == m {
        1int
    } else {
        0
    }) by {
        lemma_occurrences_swap_removed(object_materials(objects), i, m);
    }
}

/// A replaced object moves its uses from the old assets to the new ones.
pub proof fn lemma_uses_update(objects: Seq<ObjectRecord>, i: int, record: ObjectRecord)
    requires
        0 <= i < objects.len(),
    ensures
        forall|m: MeshId| #[trigger]
            mesh_uses(objects.update(i, record), m) == mesh_uses(objects, m) - (
            if objects[i].mesh == m {
                1int
            } else {
                0
            }) + (if record.mesh == m {
                1int
            } else {
                0
            }),
        forall|m: MaterialId| #[trigger]
            occurrences(object_materials(objects.update(i, record)), m) == occurrences(
                object_materials(objects),
                m,
            ) - (if objects[i].material == m {
                1int
            } else {
                0
            }) + (if record.material == m {
                1int
            } else {
                0
            }),
{
    let after = objects.update(i, record);
    assert(object_meshes(after) =~= object_meshes(objects).update(i, record.mesh));
    assert(object_materials(after) =~= object_materials(objects).update(i, record.material));
    assert forall|m: MeshId| #[trigger] mesh_uses(after, m) == mesh_uses(objects, m) - (
    if objects[i].mesh == m {
        1int
    } else {
        0
    }) + (if record.mesh == m {
        1int
    } else {
        0
    }) by {
        lemma_occurrences_update(object_meshes(objects), i, record.mesh, m);
    }
    assert forall|m: MaterialId| #[trigger] occurrences(object_materials(after), m) == occurrences(
        object_materials(objects),
        m,
    ) - (if objects[i].material == m {
        1int
    } else {
        0
    }) + (if record.material == m {
        1int
    } else {
        0
    }) by {
        lemma_occurrences_update(object_materials(objects), i, record.material, m);
    }
}

} // verus!
