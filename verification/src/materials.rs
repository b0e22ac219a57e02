//! Materials and textures.
//!
//! A material pins the textures that it refers to, and objects pin materials:
//! what is pinned cannot be removed.
use vstd::prelude::*;

use crate::counting::{
    lemma_occurrences_bounded, lemma_occurrences_positive, lemma_occurrences_push,
    lemma_total_at_least, lemma_total_bounded, lemma_total_push, lemma_total_swap_removed,
    lemma_total_update, occurrences, total,
};
use crate::draws::MaterialFlagBits;
use crate::errors::{asset_error, invalid, scene_asset, Result, SceneAssetError, SceneError};
use crate::float_bits::F32;
use crate::handles::{Entity, MaterialId, TextureId};
use crate::rows::NewRow;
use crate::scene::Scene;
use crate::sparse_set::{swap_removed, SparseSet};

verus! {

/// Texture references of a material, in this order: base colour, normal,
/// roughness and metallic, emissive, occlusion, specular colour, specular weight.
pub type TextureSlots = [Option<TextureId>; 7];

/// Number of texture references of a material.
pub const TEXTURE_SLOTS: usize = 7;

/// Materials that can be live at once: all their references can be counted.
pub const MATERIAL_LIMIT: usize = 0x2492_4924;

/// Shader parameters of a material.
#[derive(Clone, Copy, Debug)]
pub struct GpuMaterial {
    /// Surface archetype; zero is the default one.
    pub material_class: u32,
    pub flags: u32,
    pub class_params: [F32; 4],
    pub surface: [u32; 16],
}

/// Shader parameters with the textures that they refer to.
#[derive(Clone, Copy, Debug)]
pub struct MaterialAsset {
    pub gpu: GpuMaterial,
    pub textures: TextureSlots,
}

#[derive(Clone, Copy, Debug)]
pub struct MaterialRecord {
    pub gpu: GpuMaterial,
    /// Identity of the compiled graph; zero means none.
    pub graph_hash: u64,
    pub textures: TextureSlots,
    pub gpu_row: u32,
    pub ref_count: u32,
}

#[derive(Clone, Copy, Debug)]
pub struct TextureRecord {
    /// Authored identity.
    pub asset_key: u128,
    pub ref_count: u32,
}

/// How often a material refers to `texture`.
pub open spec fn slot_uses(texture: TextureId) -> spec_fn(MaterialRecord) -> nat {
    |m: MaterialRecord| occurrences(m.textures@, Some(texture))
}

/// How often the materials refer to `texture`.
pub open spec fn texture_uses(materials: Seq<MaterialRecord>, texture: TextureId) -> nat {
    total(materials, slot_uses(texture))
}

/// Every reference among `slots` leads to a live texture.
pub open spec fn all_resident(
    textures: SparseSet<TextureId, TextureRecord>,
    slots: TextureSlots,
) -> bool {
    forall|k: int|
        0 <= k < TEXTURE_SLOTS ==> match #[trigger] slots@[k] {
            Some(t) => textures@.contains_key(t),
            None => true,
        }
}

/// Some live texture has this authored identity.
pub open spec fn key_in_use(textures: Map<TextureId, TextureRecord>, asset_key: u128) -> bool {
    exists|t: TextureId| #[trigger]
        textures.contains_key(t) && textures[t].asset_key == asset_key
}

/// No two live textures share an authored identity.
pub open spec fn keys_differ(textures: Map<TextureId, TextureRecord>) -> bool {
    forall|s: TextureId, t: TextureId| #[trigger]
        textures.contains_key(s) && #[trigger] textures.contains_key(t) && textures[s].asset_key
            == textures[t].asset_key ==> s == t
}

/// Textures count exactly the references that materials hold.
pub open spec fn textures_linked(
    textures: SparseSet<TextureId, TextureRecord>,
    materials: Seq<MaterialRecord>,
) -> bool {
    &&& forall|i: int|
        0 <= i < materials.len() ==> all_resident(textures, (#[trigger] materials[i]).textures)
    &&& forall|t: TextureId| #[trigger]
        textures@.contains_key(t) ==> textures@[t].ref_count == texture_uses(materials, t)
}

/// No two materials share a GPU row, and the flag cache holds each one's flags.
pub open spec fn flags_cached(materials: Seq<MaterialRecord>, flags: Seq<u32>) -> bool {
    &&& forall|i: int, j: int|
        0 <= i < materials.len() && 0 <= j < materials.len() && i != j ==> (
        #[trigger] materials[i]).gpu_row != (#[trigger] materials[j]).gpu_row
    &&& forall|i: int|
        0 <= i < materials.len() ==> (#[trigger] materials[i]).gpu_row < flags.len()
            && flags[materials[i].gpu_row as int] == materials[i].gpu.flags
}

/// No material has this GPU row.
pub open spec fn row_is_free(materials: Seq<MaterialRecord>, row: u32) -> bool {
    forall|i: int| 0 <= i < materials.len() ==> (#[trigger] materials[i]).gpu_row != row
}

/// `after` is `before` with the counts of the references in `slots` added.
pub open spec fn pinned(
    before: Map<TextureId, TextureRecord>,
    after: Map<TextureId, TextureRecord>,
    slots: Seq<Option<TextureId>>,
) -> bool {
    &&& after.dom() == before.dom()
    &&& forall|t: TextureId| #[trigger]
        after.contains_key(t) ==> after[t].asset_key == before[t].asset_key && after[t].ref_count
            == before[t].ref_count + occurrences(slots, Some(t))
}

proof fn lemma_texture_uses_bounded(materials: Seq<MaterialRecord>, t: TextureId)
    ensures
        texture_uses(materials, t) <= materials.len() * 7,
{
    assert forall|i: int| 0 <= i < materials.len() implies slot_uses(t)(#[trigger] materials[i])
        <= 7 by {
        lemma_occurrences_bounded(materials[i].textures@, Some(t));
    }
    lemma_total_bounded(materials, slot_uses(t), 7);
}

/// Counts every reference in `slots`.
fn pin_textures(textures: &mut SparseSet<TextureId, TextureRecord>, slots: &TextureSlots)
    requires
        old(textures).wf(),
        all_resident(*old(textures), *slots),
        forall|t: TextureId| #[trigger]
            old(textures)@.contains_key(t) ==> old(textures)@[t].ref_count <= u32::MAX - 7,
    ensures
        final(textures).wf(),
        final(textures).id_by_slot@ == old(textures).id_by_slot@,
        final(textures).slot_by_entity@ == old(textures).slot_by_entity@,
        pinned(old(textures)@, final(textures)@, slots@),
{
    let ghost before = *textures;
    let mut k: usize = 0;
    while k < 7
        invariant
            0 <= k <= 7,
            textures.wf(),
            all_resident(before, *slots),
            textures.id_by_slot@ == before.id_by_slot@,
            textures.slot_by_entity@ == before.slot_by_entity@,
            forall|t: TextureId| #[trigger]
                before@.contains_key(t) ==> before@[t].ref_count <= u32::MAX - 7,
            pinned(before@, textures@, slots@.take(k as int)),
        decreases 7 - k,
    {
        proof {
            assert(slots@.take(k + 1) =~= slots@.take(k as int).push(slots@[k as int]));
            assert forall|t: TextureId| #[trigger] before@.contains_key(t) implies occurrences(
                slots@.take(k + 1),
                Some(t),
            ) == occurrences(slots@.take(k as int), Some(t)) + (if slots@[k as int] == Some(t) {
                1nat
            } else {
                0
            }) && occurrences(slots@.take(k as int), Some(t)) <= k by {
                lemma_occurrences_push(slots@.take(k as int), slots@[k as int], Some(t));
                lemma_occurrences_bounded(slots@.take(k as int), Some(t));
            }
        }
        let ghost prior = *textures;
        match slots[k] {
            Some(t) => {
                assert(before@.contains_key(t));
                assert(prior@.contains_key(t));
                match textures.get(t) {
                    Some(record) => {
                        let raised = TextureRecord {
                            asset_key: record.asset_key,
                            ref_count: record.ref_count + 1,
                        };
                        textures.set(t, raised);
                        assert(textures@.dom() =~= before@.dom());
                    },
                    None => {
                        assert(false);
                    },
                }
            },
            None => {},
        }
        k = k + 1;
    }
    assert(slots@.take(7) =~= slots@);
}

/// Takes every reference in `slots` off the counts.
fn unpin_textures(textures: &mut SparseSet<TextureId, TextureRecord>, slots: &TextureSlots)
    requires
        old(textures).wf(),
        all_resident(*old(textures), *slots),
        forall|t: TextureId| #[trigger]
            old(textures)@.contains_key(t) ==> old(textures)@[t].ref_count >= occurrences(
                slots@,
                Some(t),
            ),
    ensures
        final(textures).wf(),
        final(textures).id_by_slot@ == old(textures).id_by_slot@,
        final(textures).slot_by_entity@ == old(textures).slot_by_entity@,
        pinned(final(textures)@, old(textures)@, slots@),
{
    let ghost before = *textures;
    let mut k: usize = 0;
    while k < 7
        invariant
            0 <= k <= 7,
            textures.wf(),
            all_resident(before, *slots),
            textures.id_by_slot@ == before.id_by_slot@,
            textures.slot_by_entity@ == before.slot_by_entity@,
            forall|t: TextureId| #[trigger]
                before@.contains_key(t) ==> before@[t].ref_count >= occurrences(slots@, Some(t)),
            pinned(textures@, before@, slots@.take(k as int)),
        decreases 7 - k,
    {
        proof {
            assert(slots@.take(k + 1) =~= slots@.take(k as int).push(slots@[k as int]));
            assert forall|t: TextureId| #[trigger] before@.contains_key(t) implies occurrences(
                slots@.take(k + 1),
                Some(t),
            ) == occurrences(slots@.take(k as int), Some(t)) + (if slots@[k as int] == Some(t) {
                1nat
            } else {
                0
            }) && occurrences(slots@.take(k + 1), Some(t)) <= occurrences(slots@, Some(t)) by {
                lemma_occurrences_push(slots@.take(k as int), slots@[k as int], Some(t));
                lemma_occurrences_take(slots@, k + 1, Some(t));
            }
        }
        let ghost prior = *textures;
        match slots[k] {
            Some(t) => {
                assert(before@.contains_key(t));
                assert(prior@.contains_key(t));
                match textures.get(t) {
                    Some(record) => {
                        let lowered = TextureRecord {
                            asset_key: record.asset_key,
                            ref_count: record.ref_count - 1,
                        };
                        textures.set(t, lowered);
                        assert(textures@.dom() =~= before@.dom());
                    },
                    None => {
                        assert(false);
                    },
                }
            },
            None => {},
        }
        k = k + 1;
    }
    assert(slots@.take(7) =~= slots@);
}

/// A prefix holds no more occurrences than the whole.
proof fn lemma_occurrences_take<T>(s: Seq<T>, n: int, x: T)
    requires
        0 <= n <= s.len(),
    ensures
        occurrences(s.take(n), x) <= occurrences(s, x),
    decreases s.len() - n,
{
    if n < s.len() {
        assert(s.take(n + 1) =~= s.take(n).push(s[n]));
        lemma_occurrences_push(s.take(n), s[n], x);
        lemma_occurrences_take(s, n + 1, x);
    } else {
        assert(s.take(n) =~= s);
    }
}

/// Whether every reference among `slots` leads to a live texture.
fn resident(textures: &SparseSet<TextureId, TextureRecord>, slots: &TextureSlots) -> (all: bool)
    requires
        textures.wf(),
    ensures
        all == all_resident(*textures, *slots),
{
    let mut k: usize = 0;
    while k < 7
        invariant
            0 <= k <= 7,
            textures.wf(),
            forall|j: int|
                0 <= j < k ==> match #[trigger] slots@[j] {
                    Some(t) => textures@.contains_key(t),
                    None => true,
                },
        decreases 7 - k,
    {
        match slots[k] {
            Some(t) => {
                if !textures.is_live(t) {
                    assert(slots@[k as int] == Some(t));
                    return false;
                }
            },
            None => {},
        }
        k = k + 1;
    }
    true
}

/// Textures of `slots` that nothing refers to any more leave.
pub open spec fn swept(
    before: Map<TextureId, TextureRecord>,
    after: Map<TextureId, TextureRecord>,
    slots: Seq<Option<TextureId>>,
) -> bool {
    &&& forall|t: TextureId|
        #[trigger] after.contains_key(t) <==> before.contains_key(t) && !(slots.contains(Some(t))
            && before[t].ref_count == 0)
    &&& forall|t: TextureId| #[trigger] after.contains_key(t) ==> after[t] == before[t]
}

fn sweep_textures(textures: &mut SparseSet<TextureId, TextureRecord>, slots: &TextureSlots)
    requires
        old(textures).wf(),
    ensures
        final(textures).wf(),
        swept(old(textures)@, final(textures)@, slots@),
        forall|index: u32| #[trigger]
            final(textures).occupies(index) ==> old(textures).occupies(index),
{
    let ghost before = *textures;
    let mut k: usize = 0;
    while k < 7
        invariant
            0 <= k <= 7,
            textures.wf(),
            swept(before@, textures@, slots@.take(k as int)),
            forall|index: u32| #[trigger] textures.occupies(index) ==> before.occupies(index),
        decreases 7 - k,
    {
        let ghost prior = *textures;
        let ghost seen = slots@.take(k as int);
        let ghost now = slots@.take(k + 1);
        proof {
            assert(now =~= seen.push(slots@[k as int]));
            assert forall|t: TextureId| now.contains(Some(t)) <==> seen.contains(Some(t))
                || slots@[k as int] == Some(t) by {
                lemma_contains_push(seen, slots@[k as int], Some(t));
            }
        }
        match slots[k] {
            Some(t) => {
                let unused: bool = match textures.get(t) {
                    Some(record) => record.ref_count == 0,
                    None => false,
                };
                if unused {
                    textures.remove(t);
                }
                assert forall|u: TextureId|
                    #[trigger] textures@.contains_key(u) <==> before@.contains_key(u) && !(
                    now.contains(Some(u)) && before@[u].ref_count == 0) by {
                    assert(prior@.contains_key(u) <==> before@.contains_key(u) && !(seen.contains(
                        Some(u),
                    ) && before@[u].ref_count == 0));
                }
                assert forall|u: TextureId| #[trigger] textures@.contains_key(u) implies textures@[u]
                    == before@[u] by {
                    assert(prior@.contains_key(u));
                }
            },
            None => {
                assert forall|u: TextureId|
                    #[trigger] textures@.contains_key(u) <==> before@.contains_key(u) && !(
                    now.contains(Some(u)) && before@[u].ref_count == 0) by {
                    assert(prior@.contains_key(u) <==> before@.contains_key(u) && !(seen.contains(
                        Some(u),
                    ) && before@[u].ref_count == 0));
                }
            },
        }
        k = k + 1;
    }
    assert(slots@.take(7) =~= slots@);
}

proof fn lemma_contains_push<T>(s: Seq<T>, v: T, x: T)
    ensures
        s.push(v).contains(x) <==> s.contains(x) || v == x,
{
    if s.contains(x) {
        assert(s.push(v)[s.index_of(x)] == x);
    }
    if v == x {
        assert(s.push(v)[s.len() as int] == x);
    }
    if s.push(v).contains(x) {
        let i = s.push(v).index_of(x);
        if i < s.len() {
            assert(s[i] == x);
        }
    }
}

/// What decides in which batch a material is drawn.
pub open spec fn batch_signature(gpu: GpuMaterial, graph_hash: u64, bits: MaterialFlagBits) -> (
    u32,
    u64,
    u32,
) {
    (gpu.material_class, graph_hash, gpu.flags & (bits.transparent_only | bits.forward_shading))
}

/// Counts one more user of a live material.
pub(crate) fn raise_material(materials: &mut SparseSet<MaterialId, MaterialRecord>, id: MaterialId)
    requires
        old(materials).wf(),
        old(materials)@.contains_key(id),
        old(materials)@[id].ref_count < u32::MAX,
    ensures
        final(materials).wf(),
        recounted(
            *old(materials),
            *final(materials),
            id,
            (old(materials)@[id].ref_count + 1) as u32,
        ),
{
    match materials.get(id) {
        Some(record) => {
            let raised = MaterialRecord { ref_count: record.ref_count + 1, ..*record };
            materials.set(id, raised);
        },
        None => {
            assert(false);
        },
    }
}

/// Counts one user less of a live material.
pub(crate) fn lower_material(materials: &mut SparseSet<MaterialId, MaterialRecord>, id: MaterialId)
    requires
        old(materials).wf(),
        old(materials)@.contains_key(id),
        old(materials)@[id].ref_count > 0,
    ensures
        final(materials).wf(),
        recounted(
            *old(materials),
            *final(materials),
            id,
            (old(materials)@[id].ref_count - 1) as u32,
        ),
{
    match materials.get(id) {
        Some(record) => {
            let lowered = MaterialRecord { ref_count: record.ref_count - 1, ..*record };
            materials.set(id, lowered);
        },
        None => {
            assert(false);
        },
    }
}

/// `after` is `before` with another count for `id`.
pub open spec fn recounted(
    before: SparseSet<MaterialId, MaterialRecord>,
    after: SparseSet<MaterialId, MaterialRecord>,
    id: MaterialId,
    ref_count: u32,
) -> bool {
    let record = MaterialRecord { ref_count, ..before@[id] };
    &&& after@ == before@.insert(id, record)
    &&& after.id_by_slot == before.id_by_slot
    &&& after.slot_by_entity == before.slot_by_entity
    &&& after.value_by_slot@ == before.value_by_slot@.update(before.place(id), record)
}

/// Counts do not touch what materials refer to, nor their flags.
pub(crate) proof fn lemma_recount_keeps_links(
    before: SparseSet<MaterialId, MaterialRecord>,
    after: SparseSet<MaterialId, MaterialRecord>,
    id: MaterialId,
    ref_count: u32,
    textures: SparseSet<TextureId, TextureRecord>,
    flags: Seq<u32>,
)
    requires
        before.wf(),
        before@.contains_key(id),
        recounted(before, after, id, ref_count),
        textures_linked(textures, before.value_by_slot@),
        flags_cached(before.value_by_slot@, flags),
    ensures
        textures_linked(textures, after.value_by_slot@),
        flags_cached(after.value_by_slot@, flags),
{
    before.lemma_contains(id);
    let i = before.place(id);
    let old_values = before.value_by_slot@;
    let new_values = after.value_by_slot@;
    lemma_edit_keeps_textures(textures, old_values, i, new_values[i]);
    assert forall|a: int, b: int|
        0 <= a < new_values.len() && 0 <= b < new_values.len() && a != b implies (
    #[trigger] new_values[a]).gpu_row != (#[trigger] new_values[b]).gpu_row by {
        assert(old_values[a].gpu_row != old_values[b].gpu_row);
    }
    assert forall|a: int| 0 <= a < new_values.len() implies (#[trigger] new_values[a]).gpu_row
        < flags.len() && flags[new_values[a].gpu_row as int] == new_values[a].gpu.flags by {
        assert(old_values[a].gpu_row < flags.len());
    }
}

/// An edit that keeps a material's references keeps textures linked.
proof fn lemma_edit_keeps_textures(
    textures: SparseSet<TextureId, TextureRecord>,
    values: Seq<MaterialRecord>,
    i: int,
    next: MaterialRecord,
)
    requires
        0 <= i < values.len(),
        textures_linked(textures, values),
        next.textures == values[i].textures,
    ensures
        textures_linked(textures, values.update(i, next)),
{
    let after = values.update(i, next);
    assert forall|a: int| 0 <= a < after.len() implies all_resident(
        textures,
        (#[trigger] after[a]).textures,
    ) by {
        assert(all_resident(textures, values[a].textures));
    }
    assert forall|t: TextureId| #[trigger] textures@.contains_key(t) implies textures@[t].ref_count
        == texture_uses(after, t) by {
        lemma_total_update(values, i, next, slot_uses(t));
    }
}

impl Scene {
    /// `after` is `self` with another record for a live material. A change of the
    /// batch makes a rebuild of the draw lists due; a change of alpha testing
    /// advances the cull signature of virtual geometry.
    pub open spec fn material_edited(
        &self,
        after: &Scene,
        id: MaterialId,
        next: MaterialRecord,
    ) -> bool {
        let prior = self.materials@[id];
        &&& after.materials@ == self.materials@.insert(id, next)
        &&& after.materials.id_by_slot == self.materials.id_by_slot
        &&& after.materials.slot_by_entity == self.materials.slot_by_entity
        &&& after.material_flags@ == self.material_flags@.update(
            prior.gpu_row as int,
            next.gpu.flags,
        )
        &&& after.objects == (crate::objects::Objects {
            dirty: self.objects.dirty || batch_signature(
                prior.gpu,
                prior.graph_hash,
                self.flag_bits,
            ) != batch_signature(next.gpu, next.graph_hash, self.flag_bits),
            ..self.objects
        })
        &&& after.virtual_geometry == (crate::virtual_geometry::VirtualGeometry {
            cull_signature_version: if prior.gpu.flags & self.flag_bits.alpha_test
                != next.gpu.flags & self.flag_bits.alpha_test {
                self.virtual_geometry.cull_signature_version.wrapping_add(1)
            } else {
                self.virtual_geometry.cull_signature_version
            },
            ..self.virtual_geometry
        })
        &&& *after == (Scene {
            materials: after.materials,
            material_flags: after.material_flags,
            objects: after.objects,
            virtual_geometry: after.virtual_geometry,
            textures: after.textures,
            ..*self
        })
    }

    fn write_material(&mut self, id: MaterialId, next: MaterialRecord)
        requires
            old(self).materials.wf(),
            old(self).materials@.contains_key(id),
            flags_cached(old(self).materials.value_by_slot@, old(self).material_flags@),
            next.gpu_row == old(self).materials@[id].gpu_row,
        ensures
            final(self).materials.wf(),
            final(self).textures == old(self).textures,
            old(self).material_edited(final(self), id, next),
            final(self).materials.value_by_slot@ == old(self).materials.value_by_slot@.update(
                old(self).materials.place(id),
                next,
            ),
            flags_cached(final(self).materials.value_by_slot@, final(self).material_flags@),
    {
        let prior: MaterialRecord = match self.materials.get(id) {
            Some(record) => *record,
            None => {
                assert(false);
                next
            },
        };
        proof {
            self.materials.lemma_contains(id);
        }
        let ghost values = self.materials.value_by_slot@;
        let ghost i = self.materials.place(id);
        assert(values[i].gpu_row < self.material_flags@.len());
        self.materials.set(id, next);
        self.material_flags.set(prior.gpu_row as usize, next.gpu.flags);
        if prior.gpu.flags & self.flag_bits.alpha_test != next.gpu.flags
            & self.flag_bits.alpha_test {
            self.virtual_geometry.cull_signature_version =
            self.virtual_geometry.cull_signature_version.wrapping_add(1);
        }
        let bucket_flags: u32 = self.flag_bits.transparent_only | self.flag_bits.forward_shading;
        if prior.gpu.material_class != next.gpu.material_class || prior.graph_hash
            != next.graph_hash || prior.gpu.flags & bucket_flags != next.gpu.flags & bucket_flags {
            self.objects.dirty = true;
        }
        proof {
            let after = self.materials.value_by_slot@;
            let flags = self.material_flags@;
            assert forall|a: int, b: int|
                0 <= a < after.len() && 0 <= b < after.len() && a != b implies (
            #[trigger] after[a]).gpu_row != (#[trigger] after[b]).gpu_row by {
                assert(values[a].gpu_row != values[b].gpu_row);
            }
            assert forall|a: int| 0 <= a < after.len() implies (#[trigger] after[a]).gpu_row
                < flags.len() && flags[after[a].gpu_row as int] == after[a].gpu.flags by {
                if a != i {
                    assert(values[a].gpu_row != values[i].gpu_row);
                }
            }
        }
    }

    /// Room for one more material in a fresh row.
    pub open spec fn material_fits(&self, new: NewRow) -> bool {
        &&& !self.materials.occupies(new.entity.index)
        &&& new.entity.index < usize::MAX
        &&& new.gpu_row < usize::MAX
        &&& row_is_free(self.materials.value_by_slot@, new.gpu_row)
        &&& self.materials.spec_len() < MATERIAL_LIMIT
    }

    /// `after` is `self` with a material that nothing uses yet.
    pub open spec fn material_inserted(
        &self,
        after: &Scene,
        new: NewRow,
        asset: MaterialAsset,
    ) -> bool {
        let id = MaterialId(new.entity);
        &&& after.materials@ == self.materials@.insert(
            id,
            MaterialRecord {
                gpu: asset.gpu,
                graph_hash: 0,
                textures: asset.textures,
                gpu_row: new.gpu_row,
                ref_count: 0,
            },
        )
        &&& after.materials.id_by_slot@ == self.materials.id_by_slot@.push(id)
        &&& pinned(self.textures@, after.textures@, asset.textures@)
        &&& after.textures.id_by_slot@ == self.textures.id_by_slot@
        &&& after.material_flags@.len() >= self.material_flags@.len()
        &&& new.gpu_row < after.material_flags@.len()
        &&& forall|row: int|
            0 <= row < after.material_flags@.len() ==> #[trigger] after.material_flags@[row]
                == if row == new.gpu_row {
                asset.gpu.flags
            } else if row < self.material_flags@.len() {
                self.material_flags@[row]
            } else {
                0
            }
        &&& *after == (Scene {
            materials: after.materials,
            material_flags: after.material_flags,
            textures: after.textures,
            ..*self
        })
    }

    /// Inserts a material without textures.
    pub fn insert_material(&mut self, new: NewRow, material: GpuMaterial) -> (id: MaterialId)
        requires
            old(self).wf(),
            old(self).material_fits(new),
        ensures
            final(self).wf(),
            id == MaterialId(new.entity),
            old(self).material_inserted(final(self), new, plain_asset(material)),
    {
        let textures: TextureSlots = [None, None, None, None, None, None, None];
        let asset = MaterialAsset { gpu: material, textures };
        proof {
            assert(textures@ =~= plain_asset(material).textures@);
            assert(textures =~= plain_asset(material).textures);
            assert(all_resident(self.textures, textures));
        }
        match self.insert_material_asset(new, asset) {
            Ok(id) => id,
            Err(_) => {
                assert(false);
                MaterialId(new.entity)
            },
        }
    }

    /// Inserts a material. Every texture that it refers to must be live.
    pub fn insert_material_asset(&mut self, new: NewRow, asset: MaterialAsset) -> (result: Result<
        MaterialId,
    >)
        requires
            old(self).wf(),
            old(self).material_fits(new),
        ensures
            final(self).wf(),
            if all_resident(old(self).textures, asset.textures) {
                &&& result == Ok::<_, SceneError>(MaterialId(new.entity))
                &&& old(self).material_inserted(final(self), new, asset)
            } else {
                &&& result == Err::<MaterialId, _>(SceneError::InvalidHandle { resource: "texture" })
                &&& *final(self) == *old(self)
            },
    {
        if !resident(&self.textures, &asset.textures) {
            return Err(scene_asset(SceneAssetError::TextureNotResident));
        }
        let id = MaterialId(new.entity);
        let ghost before = *self;
        let ghost values = self.materials.value_by_slot@;
        proof {
            assert forall|t: TextureId| #[trigger] self.textures@.contains_key(t) implies
                self.textures@[t].ref_count <= u32::MAX - 7 by {
                lemma_texture_uses_bounded(values, t);
            }
        }
        pin_textures(&mut self.textures, &asset.textures);
        let record = MaterialRecord {
            gpu: asset.gpu,
            graph_hash: 0,
            textures: asset.textures,
            gpu_row: new.gpu_row,
            ref_count: 0,
        };
        self.materials.insert(id, record);
        let row: usize = new.gpu_row as usize;
        if self.material_flags.len() <= row {
            self.material_flags.resize(row + 1, 0);
        }
        let ghost resized = self.material_flags@;
        proof {
            assert forall|r: int| 0 <= r < resized.len() implies #[trigger] resized[r] == (if r
                < before.material_flags@.len() {
                before.material_flags@[r]
            } else {
                0
            }) by {
                if r < before.material_flags@.len() {
                    assert(resized.subrange(0, before.material_flags@.len() as int)[r]
                        == resized[r]);
                }
            }
        }
        self.material_flags.set(row, asset.gpu.flags);
        proof {
            let after = self.materials.value_by_slot@;
            let flags = self.material_flags@;
            assert(after == values.push(record));
            assert forall|a: int, b: int|
                0 <= a < after.len() && 0 <= b < after.len() && a != b implies (
            #[trigger] after[a]).gpu_row != (#[trigger] after[b]).gpu_row by {
                if a < values.len() && b < values.len() {
                    assert(values[a].gpu_row != values[b].gpu_row);
                } else if a < values.len() {
                    assert(values[a].gpu_row != new.gpu_row);
                } else {
                    assert(values[b].gpu_row != new.gpu_row);
                }
            }
            assert forall|a: int| 0 <= a < after.len() implies (#[trigger] after[a]).gpu_row
                < flags.len() && flags[after[a].gpu_row as int] == after[a].gpu.flags by {
                if a < values.len() {
                    assert(values[a].gpu_row != new.gpu_row);
                    assert(values[a].gpu_row < before.material_flags@.len());
                }
            }
            lemma_push_links_textures(before.textures, self.textures, values, record);
            assert forall|m: MaterialId| #[trigger] self.materials@.contains_key(m) implies
                self.materials@[m].ref_count == crate::references::material_uses(
                self.objects.spec_values(),
                self.virtual_geometry.spec_values(),
                self.foliage.spec_types(),
                m,
            ) by {
                if m != id {
                    assert(before.materials@.contains_key(m));
                }
            }
            before.lemma_rows_stay_named(*self);
        }
        Ok(id)
    }

    /// `after` is `self` with another row for a material.
    pub open spec fn material_updated(
        &self,
        after: &Scene,
        id: MaterialId,
        material: GpuMaterial,
        result: Result<()>,
    ) -> bool {
        if self.materials@.contains_key(id) {
            &&& result == Ok::<(), SceneError>(())
            &&& after.textures == self.textures
            &&& self.material_edited(
                after,
                id,
                MaterialRecord { gpu: material, ..self.materials@[id] },
            )
        } else {
            &&& result == Err::<(), _>(SceneError::InvalidHandle { resource: "material" })
            &&& *after == *self
        }
    }

    /// Replaces shader parameters; textures and graph stay.
    pub fn update_material(&mut self, id: MaterialId, material: GpuMaterial) -> (result: Result<()>)
        requires
            old(self).wf(),
        ensures
            final(self).wf(),
            old(self).material_updated(final(self), id, material, result),
    {
        let record: MaterialRecord = match self.materials.get(id) {
            Some(record) => *record,
            None => {
                return Err(invalid("material"));
            },
        };
        let next = MaterialRecord { gpu: material, ..record };
        proof {
            self.materials.lemma_contains(id);
        }
        self.write_material(id, next);
        proof {
            old(self).lemma_edit_kept(*self, id, next);
        }
        Ok(())
    }

    /// `after` is `self` with another asset for a material.
    pub open spec fn asset_updated(
        &self,
        after: &Scene,
        id: MaterialId,
        material: MaterialAsset,
        result: Result<()>,
    ) -> bool {
        if !self.materials@.contains_key(id) {
            &&& result == Err::<(), _>(SceneError::InvalidHandle { resource: "material" })
            &&& *after == *self
        } else if !all_resident(self.textures, material.textures) {
            &&& result == Err::<(), _>(SceneError::InvalidHandle { resource: "texture" })
            &&& *after == *self
        } else {
            &&& result == Ok::<(), SceneError>(())
            &&& self.material_edited(
                after,
                id,
                MaterialRecord {
                    gpu: material.gpu,
                    textures: material.textures,
                    ..self.materials@[id]
                },
            )
            &&& after.textures.id_by_slot@ == self.textures.id_by_slot@
            &&& after.textures@.dom() == self.textures@.dom()
            &&& forall|t: TextureId| #[trigger]
                after.textures@.contains_key(t) ==> after.textures@[t].asset_key
                    == self.textures@[t].asset_key && after.textures@[t].ref_count
                    == self.textures@[t].ref_count + occurrences(
                    material.textures@,
                    Some(t),
                ) - occurrences(self.materials@[id].textures@, Some(t))
        }
    }

    /// Replaces shader parameters and textures; the graph stays.
    pub fn update_material_asset(&mut self, id: MaterialId, material: MaterialAsset) -> (result:
        Result<()>)
        requires
            old(self).wf(),
        ensures
            final(self).wf(),
            old(self).asset_updated(final(self), id, material, result),
    {
        let record: MaterialRecord = match self.materials.get(id) {
            Some(record) => *record,
            None => {
                return Err(invalid("material"));
            },
        };
        if !resident(&self.textures, &material.textures) {
            return Err(scene_asset(SceneAssetError::TextureNotResident));
        }
        let ghost before = *self;
        let ghost values = self.materials.value_by_slot@;
        let ghost i = self.materials.place(id);
        proof {
            self.materials.lemma_contains(id);
            assert(values[i] == record);
            assert(all_resident(before.textures, values[i].textures));
            assert forall|t: TextureId| #[trigger] self.textures@.contains_key(t) implies
                self.textures@[t].ref_count >= occurrences(record.textures@, Some(t)) by {
                lemma_total_at_least(values, i, slot_uses(t));
            }
        }
        unpin_textures(&mut self.textures, &record.textures);
        let ghost middle = self.textures;
        proof {
            assert forall|k: int| 0 <= k < TEXTURE_SLOTS implies match
                #[trigger] material.textures@[k] {
                Some(t) => middle@.contains_key(t),
                None => true,
            } by {}
            assert forall|t: TextureId| #[trigger] middle@.contains_key(t) implies
                middle@[t].ref_count <= u32::MAX - 7 by {
                assert(before.textures@.contains_key(t));
                lemma_total_swap_removed(values, i, slot_uses(t));
                lemma_texture_uses_bounded(swap_removed(values, i), t);
            }
        }
        pin_textures(&mut self.textures, &material.textures);
        let ghost last = self.textures;
        let next = MaterialRecord { gpu: material.gpu, textures: material.textures, ..record };
        self.write_material(id, next);
        proof {
            let after = self.materials.value_by_slot@;
            assert(after == values.update(i, next));
            assert forall|a: int| 0 <= a < after.len() implies all_resident(
                self.textures,
                (#[trigger] after[a]).textures,
            ) by {
                if a != i {
                    assert(all_resident(before.textures, values[a].textures));
                } else {
                    assert(all_resident(before.textures, material.textures));
                }
            }
            assert forall|t: TextureId| #[trigger] self.textures@.contains_key(t) implies
                self.textures@[t].ref_count == texture_uses(after, t) by {
                assert(middle@.contains_key(t));
                assert(before.textures@.contains_key(t));
                lemma_total_update(values, i, next, slot_uses(t));
            }
            assert(self.textures@.dom() =~= before.textures@.dom());
            assert forall|t: TextureId| #[trigger] self.textures@.contains_key(t) implies
                self.textures@[t].asset_key == before.textures@[t].asset_key
                && self.textures@[t].ref_count == before.textures@[t].ref_count + occurrences(
                material.textures@,
                Some(t),
            ) - occurrences(record.textures@, Some(t)) by {
                assert(middle@.contains_key(t));
            }
            old(self).lemma_edit_keeps_users(*self, id, next);
        }
        Ok(())
    }

    /// `after` is `self` with a material of another class.
    pub open spec fn class_set(
        &self,
        after: &Scene,
        material_id: MaterialId,
        material_class: u32,
        graph_hash: u64,
        feature_flags: Option<u32>,
        result: Result<()>,
    ) -> bool {
        if self.materials@.contains_key(material_id) {
            let prior = self.materials@[material_id];
            &&& result == Ok::<(), SceneError>(())
            &&& after.textures == self.textures
            &&& self.material_edited(
                after,
                material_id,
                MaterialRecord {
                    gpu: GpuMaterial {
                        material_class,
                        flags: match feature_flags {
                            Some(flags) => flags,
                            None => prior.gpu.flags,
                        },
                        ..prior.gpu
                    },
                    graph_hash,
                    ..prior
                },
            )
        } else {
            &&& result == Err::<(), _>(SceneError::InvalidHandle { resource: "material" })
            &&& *after == *self
        }
    }

    /// Sets a material's class and graph, and its flags where they are given.
    pub fn set_material_class(
        &mut self,
        material_id: MaterialId,
        material_class: u32,
        graph_hash: u64,
        feature_flags: Option<u32>,
    ) -> (result: Result<()>)
        requires
            old(self).wf(),
        ensures
            final(self).wf(),
            old(self).class_set(
                final(self),
                material_id,
                material_class,
                graph_hash,
                feature_flags,
                result,
            ),
    {
        let record: MaterialRecord = match self.materials.get(material_id) {
            Some(record) => *record,
            None => {
                return Err(invalid("material"));
            },
        };
        let flags: u32 = match feature_flags {
            Some(flags) => flags,
            None => record.gpu.flags,
        };
        let next = MaterialRecord {
            gpu: GpuMaterial { material_class, flags, ..record.gpu },
            graph_hash,
            ..record
        };
        proof {
            self.materials.lemma_contains(material_id);
        }
        self.write_material(material_id, next);
        proof {
            old(self).lemma_edit_kept(*self, material_id, next);
        }
        Ok(())
    }

    /// `after` is `self` with other class parameters for a material.
    pub open spec fn params_replaced(
        &self,
        after: &Scene,
        material_id: MaterialId,
        params: [F32; 4],
        result: Result<()>,
    ) -> bool {
        &&& if self.materials@.contains_key(material_id) {
            let prior = self.materials@[material_id];
            &&& result == Ok::<(), SceneError>(())
            &&& *after == (Scene {
                materials: after.materials,
                material_flags: after.material_flags,
                ..*self
            })
            &&& after.material_flags@ == self.material_flags@
            &&& after.materials@ == self.materials@.insert(
                material_id,
                MaterialRecord {
                    gpu: GpuMaterial { class_params: params, ..prior.gpu },
                    ..prior
                },
            )
            &&& after.materials.id_by_slot == self.materials.id_by_slot
        } else {
            &&& result == Err::<(), _>(SceneError::InvalidHandle { resource: "material" })
            &&& *after == *self
        }
    }

    /// Sets a material's class parameters and nothing else.
    pub fn update_material_class_params(&mut self, material_id: MaterialId, params: [F32; 4]) -> (result:
        Result<()>)
        requires
            old(self).wf(),
        ensures
            final(self).wf(),
            old(self).params_replaced(final(self), material_id, params, result),
    {
        let record: MaterialRecord = match self.materials.get(material_id) {
            Some(record) => *record,
            None => {
                return Err(invalid("material"));
            },
        };
        let next = MaterialRecord {
            gpu: GpuMaterial { class_params: params, ..record.gpu },
            ..record
        };
        proof {
            self.materials.lemma_contains(material_id);
        }
        self.write_material(material_id, next);
        proof {
            old(self).lemma_edit_kept(*self, material_id, next);
            let i = old(self).materials.place(material_id);
            assert(old(self).materials.value_by_slot@[i] == record);
            assert(self.material_flags@ =~= old(self).material_flags@);
        }
        Ok(())
    }

    /// An edit of a material that keeps its references keeps the scene in order.
    proof fn lemma_edit_kept(self, after: Scene, id: MaterialId, next: MaterialRecord)
        requires
            self.wf(),
            self.materials@.contains_key(id),
            self.material_edited(&after, id, next),
            after.textures == self.textures,
            next.textures == self.materials@[id].textures,
            next.ref_count == self.materials@[id].ref_count,
            next.gpu_row == self.materials@[id].gpu_row,
            after.materials.wf(),
            after.materials.value_by_slot@ == self.materials.value_by_slot@.update(
                self.materials.place(id),
                next,
            ),
            flags_cached(after.materials.value_by_slot@, after.material_flags@),
        ensures
            after.wf(),
    {
        self.materials.lemma_contains(id);
        lemma_edit_keeps_textures(
            self.textures,
            self.materials.value_by_slot@,
            self.materials.place(id),
            next,
        );
        self.lemma_edit_keeps_users(after, id, next);
    }

    /// An edit of a material that keeps its count keeps users and counts in line.
    proof fn lemma_edit_keeps_users(self, after: Scene, id: MaterialId, next: MaterialRecord)
        requires
            self.wf(),
            self.materials@.contains_key(id),
            self.material_edited(&after, id, next),
            next.ref_count == self.materials@[id].ref_count,
            next.gpu_row == self.materials@[id].gpu_row,
        ensures
            crate::references::materials_linked(
                after.materials@,
                after.objects.spec_values(),
                after.virtual_geometry.spec_values(),
                after.foliage.spec_types(),
            ),
            crate::references::meshes_linked(after.meshes@, after.objects.spec_values()),
            after.virtual_geometry.wf(after.hidden_groups),
            after.objects.wf(after.hidden_groups),
    {
        assert forall|m: MaterialId| #[trigger] after.materials@.contains_key(m) implies
            after.materials@[m].ref_count == crate::references::material_uses(
            after.objects.spec_values(),
            after.virtual_geometry.spec_values(),
            after.foliage.spec_types(),
            m,
        ) by {
            assert(self.materials@.contains_key(m));
        }
        assert forall|m: MaterialId| #[trigger]
            crate::references::material_uses(
                after.objects.spec_values(),
                after.virtual_geometry.spec_values(),
                after.foliage.spec_types(),
                m,
            ) > 0 implies after.materials@.contains_key(m) by {
            assert(crate::references::material_uses(
                self.objects.spec_values(),
                self.virtual_geometry.spec_values(),
                self.foliage.spec_types(),
                m,
            ) > 0);
        }
        assert forall|i: int| 0 <= i < after.objects.spec_values().len() implies (
        #[trigger] after.objects.spec_values()[i]).material_row
            == after.materials@[after.objects.spec_values()[i].material].gpu_row by {
            assert(self.objects.spec_values()[i].material_row
                == self.materials@[self.objects.spec_values()[i].material].gpu_row);
        }
        assert(after.objects.published(self.hidden_groups) == self.objects.published(
            self.hidden_groups,
        ));
        assert(after.virtual_geometry.published(self.hidden_groups)
            == self.virtual_geometry.published(self.hidden_groups));
    }

    /// Removes a material that nothing uses, and then those of its textures that
    /// nothing refers to any more.
    pub fn remove_material(&mut self, id: MaterialId) -> (result: Result<()>)
        requires
            old(self).wf(),
        ensures
            final(self).wf(),
            result == if !old(self).materials@.contains_key(id) {
                Err::<(), _>(SceneError::InvalidHandle { resource: "material" })
            } else if old(self).materials@[id].ref_count > 0 {
                Err(SceneError::ResourceInUse { resource: "material" })
            } else {
                Ok(())
            },
            if result is Ok {
                old(self).material_removed(final(self), id)
            } else {
                *final(self) == *old(self)
            },
    {
        let record: MaterialRecord = match self.materials.get(id) {
            Some(record) => *record,
            None => {
                return Err(invalid("material"));
            },
        };
        if record.ref_count != 0 {
            return Err(scene_asset(SceneAssetError::MaterialInUse));
        }
        let ghost before = *self;
        let ghost values = self.materials.value_by_slot@;
        let ghost i = self.materials.place(id);
        proof {
            self.materials.lemma_contains(id);
            assert(values[i] == record);
            assert(all_resident(before.textures, values[i].textures));
            assert forall|t: TextureId| #[trigger] self.textures@.contains_key(t) implies
                self.textures@[t].ref_count >= occurrences(record.textures@, Some(t)) by {
                lemma_total_at_least(values, i, slot_uses(t));
            }
        }
        self.materials.remove(id);
        unpin_textures(&mut self.textures, &record.textures);
        let ghost unpinned = self.textures;
        self.material_flags.set(record.gpu_row as usize, 0);
        sweep_textures(&mut self.textures, &record.textures);
        proof {
            let after = self.materials.value_by_slot@;
            let flags = self.material_flags@;
            assert(after == swap_removed(values, i));
            let last = values.len() - 1;
            assert forall|a: int| 0 <= a < after.len() implies #[trigger] after[a] == values[if a
                == i {
                last
            } else {
                a
            }] by {}
            assert forall|a: int, b: int|
                0 <= a < after.len() && 0 <= b < after.len() && a != b implies (
            #[trigger] after[a]).gpu_row != (#[trigger] after[b]).gpu_row by {
                let p = if a == i { last } else { a };
                let q = if b == i { last } else { b };
                assert(values[p].gpu_row != values[q].gpu_row);
            }
            assert forall|a: int| 0 <= a < after.len() implies (#[trigger] after[a]).gpu_row
                < flags.len() && flags[after[a].gpu_row as int] == after[a].gpu.flags by {
                let p = if a == i { last } else { a };
                assert(values[p].gpu_row != values[i].gpu_row);
            }
            assert forall|t: TextureId| #[trigger] unpinned@.contains_key(t) implies
                unpinned@[t].ref_count == texture_uses(after, t) by {
                assert(before.textures@.contains_key(t));
                lemma_total_swap_removed(values, i, slot_uses(t));
            }
            assert forall|a: int| 0 <= a < after.len() implies all_resident(
                self.textures,
                (#[trigger] after[a]).textures,
            ) by {
                let p = if a == i { last } else { a };
                assert(all_resident(before.textures, values[p].textures));
                assert forall|k: int| 0 <= k < TEXTURE_SLOTS implies match
                    #[trigger] after[a].textures@[k] {
                    Some(t) => self.textures@.contains_key(t),
                    None => true,
                } by {
                    match after[a].textures@[k] {
                        Some(t) => {
                            assert(values[p].textures@[k] == Some(t));
                            assert(before.textures@.contains_key(t));
                            assert(unpinned@.contains_key(t));
                            assert(after[a].textures@.contains(Some(t)));
                            lemma_occurrences_positive(after[a].textures@, Some(t));
                            lemma_total_at_least(after, a, slot_uses(t));
                        },
                        None => {},
                    }
                }
            }
            assert forall|t: TextureId| #[trigger] self.textures@.contains_key(t) implies
                self.textures@[t].ref_count == texture_uses(after, t) by {
                assert(unpinned@.contains_key(t));
            }
            assert forall|m: MaterialId| #[trigger]
                crate::references::material_uses(
                    self.objects.spec_values(),
                    self.virtual_geometry.spec_values(),
                    self.foliage.spec_types(),
                    m,
                ) > 0 implies self.materials@.contains_key(m) by {
                assert(before.materials@.contains_key(m));
            }
            assert forall|m: MaterialId| #[trigger] self.materials@.contains_key(m) implies
                self.materials@[m].ref_count == crate::references::material_uses(
                self.objects.spec_values(),
                self.virtual_geometry.spec_values(),
                self.foliage.spec_types(),
                m,
            ) by {
                assert(before.materials@.contains_key(m));
            }
            assert forall|t: TextureId|
                #[trigger] self.textures@.contains_key(t) <==> before.textures@.contains_key(t)
                    && !(record.textures@.contains(Some(t)) && before.textures@[t].ref_count
                    == occurrences(record.textures@, Some(t))) by {
                assert(unpinned@.contains_key(t) <==> before.textures@.contains_key(t));
            }
            assert forall|t: TextureId| #[trigger] self.textures@.contains_key(t) implies
                self.textures@[t].asset_key == before.textures@[t].asset_key
                && self.textures@[t].ref_count == before.textures@[t].ref_count - occurrences(
                record.textures@,
                Some(t),
            ) by {
                assert(unpinned@.contains_key(t));
            }
            before.lemma_rows_stay_named(*self);
        }
        Ok(())
    }

    /// Where used materials keep their rows, objects still name them by these.
    proof fn lemma_rows_stay_named(self, after: Scene)
        requires
            self.wf(),
            after.objects == self.objects,
            forall|m: MaterialId| #[trigger]
                self.materials@.contains_key(m) && self.materials@[m].ref_count > 0
                    ==> after.materials@[m].gpu_row == self.materials@[m].gpu_row,
        ensures
            forall|i: int|
                0 <= i < after.objects.spec_values().len() ==> (
                #[trigger] after.objects.spec_values()[i]).material_row
                    == after.materials@[after.objects.spec_values()[i].material].gpu_row,
    {
        assert forall|i: int| 0 <= i < after.objects.spec_values().len() implies (
        #[trigger] after.objects.spec_values()[i]).material_row
            == after.materials@[after.objects.spec_values()[i].material].gpu_row by {
            crate::references::lemma_object_material_live(
                self.materials@,
                self.objects.spec_values(),
                self.virtual_geometry.spec_values(),
                self.foliage.spec_types(),
                i,
            );
        }
    }

    /// `after` is `self` without the unused material `id`, and without those of its
    /// textures that no other material refers to.
    pub open spec fn material_removed(&self, after: &Scene, id: MaterialId) -> bool {
        let record = self.materials@[id];
        &&& after.materials@ == self.materials@.remove(id)
        &&& after.materials.id_by_slot@ == swap_removed(
            self.materials.id_by_slot@,
            self.materials.place(id),
        )
        &&& after.material_flags@ == self.material_flags@.update(record.gpu_row as int, 0)
        &&& forall|t: TextureId|
            #[trigger] after.textures@.contains_key(t) <==> self.textures@.contains_key(t) && !(
            record.textures@.contains(Some(t)) && self.textures@[t].ref_count == occurrences(
                record.textures@,
                Some(t),
            ))
        &&& forall|t: TextureId| #[trigger]
            after.textures@.contains_key(t) ==> after.textures@[t].asset_key
                == self.textures@[t].asset_key && after.textures@[t].ref_count
                == self.textures@[t].ref_count - occurrences(record.textures@, Some(t))
        &&& *after == (Scene {
            materials: after.materials,
            material_flags: after.material_flags,
            textures: after.textures,
            ..*self
        })
    }

    /// Removes a material if it is live and nothing uses it.
    pub(crate) fn drop_unused_material(&mut self, id: MaterialId)
        requires
            old(self).wf(),
        ensures
            final(self).wf(),
            if old(self).materials@.contains_key(id) && old(self).materials@[id].ref_count == 0 {
                old(self).material_removed(final(self), id)
            } else {
                *final(self) == *old(self)
            },
    {
        let unused: bool = match self.materials.get(id) {
            Some(record) => record.ref_count == 0,
            None => false,
        };
        if unused {
            let _ = self.remove_material(id);
        }
    }

    /// What is left of a material when one of its users goes: a count less, or
    /// nothing if it was the last. With a material go those of its textures that no
    /// other material refers to.
    pub open spec fn material_released(&self, after: &Scene, id: MaterialId) -> bool {
        let record = self.materials@[id];
        if record.ref_count == 1 {
            &&& after.materials@ == self.materials@.remove(id)
            &&& after.material_flags@ == self.material_flags@.update(record.gpu_row as int, 0)
            &&& forall|t: TextureId|
                #[trigger] after.textures@.contains_key(t) <==> self.textures@.contains_key(t) && !(
                record.textures@.contains(Some(t)) && self.textures@[t].ref_count == occurrences(
                    record.textures@,
                    Some(t),
                ))
            &&& forall|t: TextureId| #[trigger]
                after.textures@.contains_key(t) ==> after.textures@[t].asset_key
                    == self.textures@[t].asset_key && after.textures@[t].ref_count
                    == self.textures@[t].ref_count - occurrences(record.textures@, Some(t))
        } else {
            &&& recounted(
                self.materials,
                after.materials,
                id,
                (record.ref_count - 1) as u32,
            )
            &&& after.material_flags == self.material_flags
            &&& after.textures == self.textures
        }
    }

    /// A count less, and then nothing if none was left, is a release.
    pub(crate) proof fn lemma_released(self, between: Scene, after: Scene, id: MaterialId)
        requires
            self.materials.wf(),
            self.materials@.contains_key(id),
            self.materials@[id].ref_count > 0,
            recounted(
                self.materials,
                between.materials,
                id,
                (self.materials@[id].ref_count - 1) as u32,
            ),
            between.material_flags == self.material_flags,
            between.textures == self.textures,
            if self.materials@[id].ref_count == 1 {
                between.material_removed(&after, id)
            } else {
                after.materials == between.materials && after.material_flags
                    == between.material_flags && after.textures == between.textures
            },
        ensures
            self.material_released(&after, id),
    {
        if self.materials@[id].ref_count == 1 {
            assert(between.materials@.remove(id) =~= self.materials@.remove(id));
            assert(between.materials@[id].textures == self.materials@[id].textures);
        }
    }

    /// Inserts a texture under an authored identity. `resident` is the entity that
    /// the texture store made, or why it refused: it accepts no identity that a live
    /// texture has.
    pub fn insert_texture_with_asset_key(
        &mut self,
        asset_key: u128,
        resident: core::result::Result<Entity, SceneAssetError>,
    ) -> (result: Result<TextureId>)
        requires
            old(self).wf(),
            old(self).textures.spec_len() < u32::MAX,
            resident matches Ok(entity) ==> !old(self).textures.occupies(entity.index)
                && entity.index < usize::MAX && !key_in_use(old(self).textures@, asset_key),
        ensures
            final(self).wf(),
            match resident {
                Ok(entity) => {
                    &&& result == Ok::<_, SceneError>(TextureId(entity))
                    &&& *final(self) == (Scene { textures: final(self).textures, ..*old(self) })
                    &&& final(self).textures@ == old(self).textures@.insert(
                        TextureId(entity),
                        TextureRecord { asset_key, ref_count: 0 },
                    )
                    &&& final(self).textures.id_by_slot@ == old(self).textures.id_by_slot@.push(
                        TextureId(entity),
                    )
                },
                Err(error) => result == Err::<TextureId, _>(asset_error(error)) && *final(self)
                    == *old(self),
            },
    {
        match resident {
            Ok(entity) => {
                let id = TextureId(entity);
                proof {
                    lemma_absent_texture_is_unused(
                        self.textures,
                        self.materials.value_by_slot@,
                        id,
                    );
                }
                self.textures.insert(id, TextureRecord { asset_key, ref_count: 0 });
                proof {
                    let values = self.materials.value_by_slot@;
                    assert forall|a: int| 0 <= a < values.len() implies all_resident(
                        self.textures,
                        (#[trigger] values[a]).textures,
                    ) by {
                        assert(all_resident(old(self).textures, values[a].textures));
                    }
                    assert forall|t: TextureId| #[trigger] self.textures@.contains_key(t) implies
                        self.textures@[t].ref_count == texture_uses(values, t) by {
                        if t != id {
                            assert(old(self).textures@.contains_key(t));
                        }
                    }
                }
                Ok(id)
            },
            Err(error) => Err(scene_asset(error)),
        }
    }

    /// Inserts a texture under an identity that the texture store allocated.
    pub fn insert_texture(
        &mut self,
        allocated: core::result::Result<u128, SceneAssetError>,
        resident: core::result::Result<Entity, SceneAssetError>,
    ) -> (result: Result<TextureId>)
        requires
            old(self).wf(),
            old(self).textures.spec_len() < u32::MAX,
            resident matches Ok(entity) ==> !old(self).textures.occupies(entity.index)
                && entity.index < usize::MAX,
            allocated matches Ok(asset_key) ==> resident is Ok ==> !key_in_use(
                old(self).textures@,
                asset_key,
            ),
        ensures
            final(self).wf(),
            match (allocated, resident) {
                (Err(error), _) => {
                    &&& result == Err::<TextureId, _>(asset_error(error))
                    &&& *final(self) == *old(self)
                },
                (Ok(_), Err(error)) => result == Err::<TextureId, _>(asset_error(error))
                    && *final(self) == *old(self),
                (Ok(asset_key), Ok(entity)) => {
                    &&& result == Ok::<_, SceneError>(TextureId(entity))
                    &&& *final(self) == (Scene { textures: final(self).textures, ..*old(self) })
                    &&& final(self).textures@ == old(self).textures@.insert(
                        TextureId(entity),
                        TextureRecord { asset_key, ref_count: 0 },
                    )
                    &&& final(self).textures.id_by_slot@ == old(self).textures.id_by_slot@.push(
                        TextureId(entity),
                    )
                },
            },
    {
        match allocated {
            Ok(asset_key) => self.insert_texture_with_asset_key(asset_key, resident),
            Err(error) => Err(scene_asset(error)),
        }
    }

    /// Removes a texture that no material refers to.
    pub fn remove_texture(&mut self, id: TextureId) -> (result: Result<()>)
        requires
            old(self).wf(),
        ensures
            final(self).wf(),
            result == if !old(self).textures@.contains_key(id) {
                Err::<(), _>(SceneError::InvalidHandle { resource: "texture" })
            } else if old(self).textures@[id].ref_count > 0 {
                Err(SceneError::ResourceInUse { resource: "texture" })
            } else {
                Ok(())
            },
            if result is Ok {
                &&& *final(self) == (Scene { textures: final(self).textures, ..*old(self) })
                &&& final(self).textures@ == old(self).textures@.remove(id)
                &&& final(self).textures.id_by_slot@ == swap_removed(
                    old(self).textures.id_by_slot@,
                    old(self).textures.place(id),
                )
            } else {
                *final(self) == *old(self)
            },
    {
        match self.textures.get(id) {
            Some(record) => {
                if record.ref_count != 0 {
                    return Err(scene_asset(SceneAssetError::TextureInUse));
                }
            },
            None => {
                return Err(scene_asset(SceneAssetError::TextureMissingComponent));
            },
        }
        self.textures.remove(id);
        proof {
            let values = self.materials.value_by_slot@;
            assert forall|a: int| 0 <= a < values.len() implies all_resident(
                self.textures,
                (#[trigger] values[a]).textures,
            ) by {
                assert(all_resident(old(self).textures, values[a].textures));
                assert forall|k: int| 0 <= k < TEXTURE_SLOTS implies match
                    #[trigger] values[a].textures@[k] {
                    Some(t) => self.textures@.contains_key(t),
                    None => true,
                } by {
                    match values[a].textures@[k] {
                        Some(t) => {
                            assert(old(self).textures@.contains_key(t));
                            assert(values[a].textures@.contains(Some(t)));
                            lemma_occurrences_positive(values[a].textures@, Some(t));
                            lemma_total_at_least(values, a, slot_uses(t));
                        },
                        None => {},
                    }
                }
            }
            assert forall|t: TextureId| #[trigger] self.textures@.contains_key(t) implies
                self.textures@[t].ref_count == texture_uses(values, t) by {
                assert(old(self).textures@.contains_key(t));
            }
        }
        Ok(())
    }

    /// The live texture with this authored identity.
    pub fn texture_by_asset_key(&self, asset_key: u128) -> (id: Option<TextureId>)
        requires
            self.wf(),
        ensures
            match id {
                Some(t) => {
                    &&& self.textures@.contains_key(t)
                    &&& self.textures@[t].asset_key == asset_key
                    &&& forall|other: TextureId| #[trigger]
                        self.textures@.contains_key(other) && self.textures@[other].asset_key
                            == asset_key ==> other == t
                },
                None => forall|t: TextureId| #[trigger]
                    self.textures@.contains_key(t) ==> self.textures@[t].asset_key != asset_key,
            },
    {
        let mut i: usize = 0;
        while i < self.textures.id_by_slot.len()
            invariant
                0 <= i <= self.textures.spec_len(),
                self.textures.wf(),
                keys_differ(self.textures@),
                forall|j: int|
                    0 <= j < i ==> (#[trigger] self.textures.value_by_slot@[j]).asset_key
                        != asset_key,
            decreases self.textures.spec_len() - i,
        {
            proof {
                self.textures.lemma_dense(i as int);
            }
            if self.textures.value_by_slot[i].asset_key == asset_key {
                return Some(self.textures.id_by_slot[i]);
            }
            i = i + 1;
        }
        proof {
            assert forall|t: TextureId| #[trigger] self.textures@.contains_key(t) implies
                self.textures@[t].asset_key != asset_key by {
                self.textures.lemma_contains(t);
            }
        }
        None
    }

    /// Authored identity of a live texture.
    pub fn texture_asset_key(&self, id: TextureId) -> (key: Option<u128>)
        requires
            self.wf(),
        ensures
            key == if self.textures@.contains_key(id) {
                Some(self.textures@[id].asset_key)
            } else {
                None::<u128>
            },
    {
        match self.textures.get(id) {
            Some(record) => Some(record.asset_key),
            None => None,
        }
    }
}

/// Shader parameters without textures.
pub open spec fn plain_asset(gpu: GpuMaterial) -> MaterialAsset {
    MaterialAsset { gpu, textures: [None, None, None, None, None, None, None] }
}

/// No material refers to a texture that is not live.
proof fn lemma_absent_texture_is_unused(
    textures: SparseSet<TextureId, TextureRecord>,
    values: Seq<MaterialRecord>,
    t: TextureId,
)
    requires
        forall|i: int|
            0 <= i < values.len() ==> all_resident(textures, (#[trigger] values[i]).textures),
        !textures@.contains_key(t),
    ensures
        texture_uses(values, t) == 0,
    decreases values.len(),
{
    if values.len() > 0 {
        let rest = values.drop_last();
        assert forall|i: int| 0 <= i < rest.len() implies all_resident(
            textures,
            (#[trigger] rest[i]).textures,
        ) by {
            assert(rest[i] == values[i]);
        }
        lemma_absent_texture_is_unused(textures, rest, t);
        let slots = values.last().textures;
        assert(all_resident(textures, values[values.len() - 1].textures));
        lemma_occurrences_positive(slots@, Some(t));
        if slots@.contains(Some(t)) {
            let k = slots@.index_of(Some(t));
            assert(slots@[k] == Some(t));
        }
    }
}

proof fn lemma_push_links_textures(
    before: SparseSet<TextureId, TextureRecord>,
    after: SparseSet<TextureId, TextureRecord>,
    values: Seq<MaterialRecord>,
    record: MaterialRecord,
)
    requires
        textures_linked(before, values),
        all_resident(before, record.textures),
        pinned(before@, after@, record.textures@),
    ensures
        textures_linked(after, values.push(record)),
{
    let next = values.push(record);
    assert forall|a: int| 0 <= a < next.len() implies all_resident(
        after,
        (#[trigger] next[a]).textures,
    ) by {
        if a < values.len() {
            assert(all_resident(before, values[a].textures));
        }
    }
    assert forall|t: TextureId| #[trigger] after@.contains_key(t) implies after@[t].ref_count
        == texture_uses(next, t) by {
        assert(before@.contains_key(t));
        lemma_total_push(values, record, slot_uses(t));
    }
}

} // verus!
