//! How encoded numbers compare, and what hashes of them tell apart.
use vstd::prelude::*;

use crate::float_bits::F32;
use crate::lights::{Lights, SceneLightRow};
use crate::shadow_budget::{camera_hash, caster_hash, fnv1a};

verus! {

/// Encodings without a sign compare as they are, those with one the other way round; the two
/// zeros are equal, and what is above infinity is no number and compares to nothing.
pub proof fn lemma_numbers_compare_as_encoded(a: F32, b: F32)
    ensures
        a.spec_is_nan() <==> 0x7F80_0000 < a.bits < 0x8000_0000 || a.bits > 0xFF80_0000,
        a.spec_is_finite() <==> a.bits < 0x7F80_0000 || 0x8000_0000 <= a.bits < 0xFF80_0000,
        a.spec_is_nan() || b.spec_is_nan() ==> !a.spec_lt(b) && !a.spec_le(b)
            && !a.spec_same_value(b),
        !a.spec_is_nan() && !b.spec_is_nan() ==> {
            &&& a.bits < 0x8000_0000 && b.bits < 0x8000_0000 ==> (a.spec_lt(b) <==> a.bits < b.bits)
            &&& a.bits >= 0x8000_0000 && b.bits >= 0x8000_0000 ==> (a.spec_lt(b) <==> a.bits
                > b.bits)
            &&& a.bits > 0x8000_0000 && b.bits < 0x8000_0000 ==> a.spec_lt(b)
            &&& a.bits < 0x8000_0000 && b.bits >= 0x8000_0000 ==> !a.spec_lt(b)
            &&& a.bits == 0x8000_0000 && b.bits == 0 ==> !a.spec_lt(b) && !b.spec_lt(a)
            &&& a.spec_le(b) <==> !b.spec_lt(a)
            &&& a.spec_same_value(b) <==> !a.spec_lt(b) && !b.spec_lt(a)
        },
        a.spec_abs().bits == if a.bits < 0x8000_0000 {
            a.bits as int
        } else {
            a.bits - 0x8000_0000
        },
        a.spec_is_positive() <==> 0 < a.bits < 0x7F80_0000,
        a.spec_is_nonnegative() <==> a.bits < 0x7F80_0000 || a.bits == 0x8000_0000,
{
    a.lemma_order(b);
    b.lemma_order(a);
    let zero = F32 { bits: 0 };
    a.lemma_order(zero);
    zero.lemma_order(a);
}

/// A product with the prime tells its factor.
proof fn lemma_prime_is_invertible(a: int, b: int)
    requires
        0 <= a < 0x1_0000_0000_0000_0000,
        0 <= b < 0x1_0000_0000_0000_0000,
        (a * 1099511628211) % 0x1_0000_0000_0000_0000 == (b * 1099511628211)
            % 0x1_0000_0000_0000_0000,
    ensures
        a == b,
{
    lemma_unit(a);
    lemma_unit(b);
}

proof fn lemma_unit(a: int)
    requires
        0 <= a < 0x1_0000_0000_0000_0000,
    ensures
        (((a * 1099511628211) % 0x1_0000_0000_0000_0000) * 14886173955864302971)
            % 0x1_0000_0000_0000_0000 == a,
{
    let m = 0x1_0000_0000_0000_0000int;
    let p = 1099511628211int;
    let q = 14886173955864302971int;
    vstd::arithmetic::div_mod::lemma_mul_mod_noop_left(a * p, q, m);
    assert((a * p) * q == a + (a * 887285111055) * m) by (nonlinear_arith)
        requires
            m == 0x1_0000_0000_0000_0000int,
            p == 1099511628211int,
            q == 14886173955864302971int,
            p * q == 1 + 887285111055 * m,
    ;
    vstd::arithmetic::div_mod::lemma_mod_multiples_vanish(a * 887285111055, a, m);
    vstd::arithmetic::div_mod::lemma_small_mod(a as nat, m as nat);
}

/// Another word, or another hash of what came before, gives another hash.
proof fn lemma_step_is_injective(g: u64, h: u64, v: u64, w: u64)
    requires
        g == h && v != w || g != h && v == w,
    ensures
        ((g ^ v) * 1099511628211) % 0x1_0000_0000_0000_0000 != ((h ^ w) * 1099511628211)
            % 0x1_0000_0000_0000_0000,
{
    assert(g ^ v != h ^ w) by (bit_vector)
        requires
            g == h && v != w || g != h && v == w,
    ;
    if ((g ^ v) * 1099511628211) % 0x1_0000_0000_0000_0000 == ((h ^ w) * 1099511628211)
        % 0x1_0000_0000_0000_0000 {
        lemma_prime_is_invertible((g ^ v) as int, (h ^ w) as int);
    }
}

/// A change of one word changes the hash.
pub proof fn lemma_one_word_changes_the_hash(values: Seq<F32>, i: int, word: F32)
    requires
        0 <= i < values.len(),
        word.bits != values[i].bits,
    ensures
        fnv1a(values.update(i, word)) != fnv1a(values),
    decreases values.len(),
{
    let other = values.update(i, word);
    let rest = values.drop_last();
    if i < values.len() - 1 {
        assert(other.drop_last() =~= rest.update(i, word));
        lemma_one_word_changes_the_hash(rest, i, word);
        assert(other.last() == values.last());
    } else {
        assert(other.drop_last() =~= rest);
    }
    lemma_step_is_injective(
        fnv1a(other.drop_last()),
        fnv1a(rest),
        other.last().bits as u64,
        values.last().bits as u64,
    );
}

/// The cached faces of a light go by its position and range, its direction and outer angle
/// and its type alone; those of a directional one by the camera too, and of no other.
pub proof fn lemma_faces_go_by_place_and_direction(
    row: SceneLightRow,
    other: SceneLightRow,
    camera: u64,
    elsewhere: u64,
)
    requires
        other.position_range == row.position_range,
        other.direction_outer == row.direction_outer,
        other.light_type == row.light_type,
    ensures
        caster_hash(other, camera) == caster_hash(row, camera),
        row.light_type != 0 ==> caster_hash(row, elsewhere) == caster_hash(row, camera),
        row.light_type == 0 && elsewhere != camera ==> caster_hash(row, elsewhere)
            != caster_hash(row, camera),
{
    let base = fnv1a(row.position_range@) ^ fnv1a(row.direction_outer@) ^ ((row.light_type
        * 2654435761) % 0x1_0000_0000_0000_0000) as u64;
    assert(elsewhere != camera ==> base ^ elsewhere != base ^ camera) by (bit_vector);
}

/// A change of one word of a light's position, range, direction or outer angle, or of its
/// type between one place and another, outdates its cached faces.
pub proof fn lemma_moved_light_outdates_its_faces(
    row: SceneLightRow,
    position: [F32; 4],
    direction: [F32; 4],
    light_type: u32,
    camera: u64,
    i: int,
)
    requires
        0 <= i < 4,
    ensures
        position@ == row.position_range@.update(i, position[i]) && position[i].bits
            != row.position_range[i].bits ==> caster_hash(
            SceneLightRow { position_range: position, ..row },
            camera,
        ) != caster_hash(row, camera),
        direction@ == row.direction_outer@.update(i, direction[i]) && direction[i].bits
            != row.direction_outer[i].bits ==> caster_hash(
            SceneLightRow { direction_outer: direction, ..row },
            camera,
        ) != caster_hash(row, camera),
        light_type != row.light_type && light_type != 0 && row.light_type != 0 ==> caster_hash(
            SceneLightRow { light_type, ..row },
            camera,
        ) != caster_hash(row, camera),
{
    let p = fnv1a(row.position_range@);
    let d = fnv1a(row.direction_outer@);
    let t = ((row.light_type * 2654435761) % 0x1_0000_0000_0000_0000) as u64;
    if position@ == row.position_range@.update(i, position[i]) && position[i].bits
        != row.position_range[i].bits {
        lemma_one_word_changes_the_hash(row.position_range@, i, position[i]);
        let q = fnv1a(position@);
        assert(p ^ d ^ t != q ^ d ^ t && (p ^ d ^ t) ^ camera != (q ^ d ^ t) ^ camera)
            by (bit_vector)
            requires
                p != q,
        ;
    }
    if direction@ == row.direction_outer@.update(i, direction[i]) && direction[i].bits
        != row.direction_outer[i].bits {
        lemma_one_word_changes_the_hash(row.direction_outer@, i, direction[i]);
        let e = fnv1a(direction@);
        assert(p ^ d ^ t != p ^ e ^ t && (p ^ d ^ t) ^ camera != (p ^ e ^ t) ^ camera)
            by (bit_vector)
            requires
                d != e,
        ;
    }
    if light_type != row.light_type {
        let u = ((light_type * 2654435761) % 0x1_0000_0000_0000_0000) as u64;
        assert(light_type * 2654435761 < 0x1_0000_0000_0000_0000) by (nonlinear_arith)
            requires
                light_type <= 0xFFFF_FFFFu32,
        ;
        assert(row.light_type * 2654435761 < 0x1_0000_0000_0000_0000) by (nonlinear_arith)
            requires
                row.light_type <= 0xFFFF_FFFFu32,
        ;
        assert(u != t);
        assert(p ^ d ^ t != p ^ d ^ u) by (bit_vector)
            requires
                t != u,
        ;
    }
}

/// A camera that differs in one word of its view, or of its projection, has another hash.
pub proof fn lemma_moved_camera_is_told_apart(
    view: [F32; 16],
    projection: [F32; 16],
    other: [F32; 16],
    i: int,
)
    requires
        0 <= i < 16,
    ensures
        other@ == view@.update(i, other[i]) && other[i].bits != view[i].bits ==> camera_hash(
            other,
            projection,
        ) != camera_hash(view, projection),
        other@ == projection@.update(i, other[i]) && other[i].bits != projection[i].bits
            ==> camera_hash(view, other) != camera_hash(view, projection),
{
    let v = fnv1a(view@);
    let p = fnv1a(projection@);
    let o = fnv1a(other@);
    if other@ == view@.update(i, other[i]) && other[i].bits != view[i].bits {
        lemma_one_word_changes_the_hash(view@, i, other[i]);
        assert(o ^ p != v ^ p) by (bit_vector)
            requires
                o != v,
        ;
    }
    if other@ == projection@.update(i, other[i]) && other[i].bits != projection[i].bits {
        lemma_one_word_changes_the_hash(projection@, i, other[i]);
        assert(v ^ o != v ^ p) by (bit_vector)
            requires
                o != p,
        ;
    }
}

/// Of the first `n` slots, the one at `i` has layers of the atlas that no later one has.
proof fn lemma_hash_of_slot(lights: Lights, camera: u64, n: int, i: int)
    requires
        0 <= i < n <= lights.slots@.len(),
        lights.slots@[i][1] != 0xFFFF_FFFFu32,
        lights.slots@[i][1] as int / 6 < 42,
        forall|j: int|
            0 <= j < lights.slots@.len() && j != i && (#[trigger] lights.slots@[j])[1]
                != 0xFFFF_FFFFu32 ==> lights.slots@[j][1] as int / 6 != lights.slots@[i][1] as int
                / 6,
    ensures
        lights.hashes(camera, n).len() == 42,
        lights.hashes(camera, n)[lights.slots@[i][1] as int / 6] == caster_hash(
            lights.records@[lights.projection.rows.rows.id_by_slot@[i]].row,
            camera,
        ),
    decreases n,
{
    lemma_hash_count(lights, camera, n - 1);
    if i < n - 1 {
        lemma_hash_of_slot(lights, camera, n - 1, i);
        assert(lights.slots@[n - 1] == lights.slots@[n - 1]);
    }
}

proof fn lemma_hash_count(lights: Lights, camera: u64, n: int)
    ensures
        lights.hashes(camera, n).len() == 42,
    decreases n,
{
    if n > 0 {
        lemma_hash_count(lights, camera, n - 1);
    }
}

proof fn lemma_no_hash_without_slot(lights: Lights, camera: u64, n: int, caster: int)
    requires
        0 <= n <= lights.slots@.len(),
        0 <= caster < 42,
        forall|j: int|
            0 <= j < lights.slots@.len() && (#[trigger] lights.slots@[j])[1] != 0xFFFF_FFFFu32
                ==> lights.slots@[j][1] as int / 6 != caster,
    ensures
        lights.hashes(camera, n)[caster] == 0,
    decreases n,
{
    lemma_hash_count(lights, camera, n - 1);
    if n > 0 {
        lemma_no_hash_without_slot(lights, camera, n - 1, caster);
        assert(lights.slots@[n - 1] == lights.slots@[n - 1]);
    }
}

/// What is noted of a part of the atlas tells the light that has it; of a part that no light
/// has, nothing is noted.
pub proof fn lemma_hashes_tell_who_is_cached(lights: Lights, camera: u64, i: int, caster: int)
    requires
        0 <= i < lights.slots@.len(),
        0 <= caster < 42,
    ensures
        lights.slots@[i][1] != 0xFFFF_FFFFu32 && lights.slots@[i][1] as int / 6 == caster && (
        forall|j: int|
            0 <= j < lights.slots@.len() && j != i && (#[trigger] lights.slots@[j])[1]
                != 0xFFFF_FFFFu32 ==> lights.slots@[j][1] as int / 6 != caster)
            ==> lights.hashes(camera, lights.slots@.len() as int)[caster] == caster_hash(
            lights.records@[lights.projection.rows.rows.id_by_slot@[i]].row,
            camera,
        ),
        (forall|j: int|
            0 <= j < lights.slots@.len() && (#[trigger] lights.slots@[j])[1] != 0xFFFF_FFFFu32
                ==> lights.slots@[j][1] as int / 6 != caster) ==> lights.hashes(
            camera,
            lights.slots@.len() as int,
        )[caster] == 0,
{
    let n = lights.slots@.len() as int;
    if lights.slots@[i][1] != 0xFFFF_FFFFu32 && lights.slots@[i][1] as int / 6 == caster && (
    forall|j: int|
        0 <= j < lights.slots@.len() && j != i && (#[trigger] lights.slots@[j])[1]
            != 0xFFFF_FFFFu32 ==> lights.slots@[j][1] as int / 6 != caster) {
        lemma_hash_of_slot(lights, camera, n, i);
    }
    if forall|j: int|
        0 <= j < lights.slots@.len() && (#[trigger] lights.slots@[j])[1] != 0xFFFF_FFFFu32
            ==> lights.slots@[j][1] as int / 6 != caster {
        lemma_no_hash_without_slot(lights, camera, n, caster);
    }
}

} // verus!
