//! Water descriptors and the rows that shaders read.
use vstd::arithmetic::power2::pow2;
use vstd::prelude::*;

use crate::errors::{Result, SceneError};
use crate::float_bits::{from_bits, nearest_single, single, F32};
use crate::words::same_encodings;

verus! {

/// Everything that an author says about a water volume.
#[derive(Clone, Copy, Debug)]
pub struct WaterVolumeDescriptor {
    /// Lowest corner of the volume.
    pub bounds_min: [F32; 3],
    /// Highest corner of the volume.
    pub bounds_max: [F32; 3],
    /// Height of the surface at rest.
    pub surface_height: F32,
    /// Peak displacement above and below the surface at rest.
    pub wave_amplitude: F32,
    /// Spacing of the waves.
    pub wave_frequency: F32,
    /// Speed of the volume's simulation clock.
    pub wave_speed: F32,
    /// Primary direction of the waves in the horizontal plane.
    pub wave_direction: [F32; 2],
    /// 0 for a sine wave, 1 for sharp peaks.
    pub wave_steepness: F32,
    /// Colour of deep water.
    pub water_color: [F32; 3],
    /// Absorption of each colour per metre.
    pub extinction: [F32; 3],
    /// Steepness at which foam appears.
    pub foam_threshold: F32,
    /// Intensity of foam.
    pub foam_amount: F32,
    /// Intensity of screen-space reflections.
    pub reflection_strength: F32,
    /// Multiplier on the physical distortion.
    pub refraction_strength: F32,
    /// Fresnel exponent.
    pub fresnel_power: F32,
    pub caustics_enabled: bool,
    pub caustics_intensity: F32,
    pub caustics_scale: F32,
    pub caustics_speed: F32,
    /// Density of underwater fog.
    pub fog_density: F32,
    /// Intensity of underwater light shafts.
    pub god_rays_intensity: F32,
    /// Whether screen-space rays are marched.
    pub ssr_enabled: bool,
    /// Steps of a screen-space ray.
    pub ssr_steps: u32,
    /// Length of a step.
    pub ssr_step_size: F32,
    /// Thickness that a step tolerates.
    pub ssr_thickness: F32,
    /// Index of refraction.
    pub ior: F32,
    /// Reflectance at normal incidence.
    pub fresnel_min: F32,
    /// Density that fog uses.
    pub density: F32,
    pub shadow_rim: F32,
    pub shadow_hitbox: F32,
    pub shadow_ao: F32,
    /// Direction of the dominant light, of any length.
    pub sun_direction: [F32; 3],
    /// Force towards the mean height, from 0.1 to 2.
    pub wave_spring: F32,
    /// Energy kept per step, from 0 to 1.
    pub wave_damping: F32,
    /// Wind in the horizontal plane, of any length.
    pub wind_direction: [F32; 2],
    /// 0 for calm water.
    pub wind_strength: F32,
    /// Size of the waves, at least 0.01.
    pub wave_scale: F32,
}

/// A water volume as shaders read it.
#[derive(Clone, Copy, Debug)]
pub struct GpuWaterVolume {
    pub bounds_min: [F32; 4],
    pub bounds_max: [F32; 4],
    pub wave_params: [F32; 4],
    pub wave_direction: [F32; 4],
    pub water_color: [F32; 4],
    pub extinction: [F32; 4],
    pub reflection_refraction: [F32; 4],
    pub caustics_params: [F32; 4],
    pub fog_params: [F32; 4],
    pub sim_params: [F32; 4],
    pub shadow_params: [F32; 4],
    pub sun_direction: [F32; 4],
    pub ssr_params: [F32; 4],
    pub sim_dynamics: [F32; 4],
    pub wind_params: [F32; 4],
}

/// Unit vectors that stand for directions of any length.
#[derive(Clone, Copy, Debug)]
pub struct WaterUnitVectors {
    pub sun: [F32; 3],
    pub wind: [F32; 2],
}

pub open spec fn spec_zero() -> F32 {
    F32 { bits: 0 }
}

fn zero() -> (z: F32)
    ensures
        z == spec_zero(),
{
    F32 { bits: 0 }
}

/// One for true, zero for false.
pub open spec fn spec_switch(on: bool) -> F32 {
    if on {
        F32 { bits: 0x3F80_0000 }
    } else {
        F32 { bits: 0 }
    }
}

pub fn switch(on: bool) -> (value: F32)
    ensures
        value == spec_switch(on),
{
    if on {
        F32 { bits: 0x3F80_0000 }
    } else {
        F32 { bits: 0 }
    }
}

/// Distance from 1 to the next larger number: a wind no stronger than this counts
/// as calm.
pub const CALM_LIMIT: u32 = 0x3400_0000;

/// A component of the wind that does not matter: not a number, or too small.
pub open spec fn still(v: F32) -> bool {
    v.spec_is_nan() || v.spec_abs().spec_le(single(CALM_LIMIT))
}

impl WaterVolumeDescriptor {
    /// The wind has no usable direction: both components are still, or one of them
    /// is infinite.
    pub open spec fn calm(&self) -> bool {
        let x = self.wind_direction[0];
        let z = self.wind_direction[1];
        ||| still(x) && still(z)
        ||| !x.spec_is_nan() && !x.spec_is_finite()
        ||| !z.spec_is_nan() && !z.spec_is_finite()
    }

    fn is_calm(&self) -> (calm: bool)
        ensures
            calm == self.calm(),
    {
        let x: F32 = self.wind_direction[0];
        let z: F32 = self.wind_direction[1];
        let still_x: bool = x.is_nan() || x.abs().le(from_bits(CALM_LIMIT));
        let still_z: bool = z.is_nan() || z.abs().le(from_bits(CALM_LIMIT));
        (still_x && still_z) || (!x.is_nan() && !x.is_finite()) || (!z.is_nan()
            && !z.is_finite())
    }

    /// Wind direction that the row carries.
    pub open spec fn wind_used(&self, units: WaterUnitVectors) -> [F32; 2] {
        if self.calm() {
            [spec_zero(), spec_zero()]
        } else {
            units.wind
        }
    }

    /// `gpu` is the row of this volume.
    pub open spec fn describes(&self, gpu: GpuWaterVolume, units: WaterUnitVectors) -> bool {
        &&& gpu.bounds_min[0] == self.bounds_min[0]
        &&& gpu.bounds_min[1] == self.bounds_min[1]
        &&& gpu.bounds_min[2] == self.bounds_min[2]
        &&& gpu.bounds_min[3] == spec_zero()
        &&& gpu.bounds_max[0] == self.bounds_max[0]
        &&& gpu.bounds_max[1] == self.bounds_max[1]
        &&& gpu.bounds_max[2] == self.bounds_max[2]
        &&& gpu.bounds_max[3] == self.surface_height
        &&& gpu.wave_params[0] == self.wave_amplitude
        &&& gpu.wave_params[1] == self.wave_frequency
        &&& gpu.wave_params[2] == self.wave_speed
        &&& gpu.wave_params[3] == self.wave_steepness
        &&& gpu.wave_direction[0] == self.wave_direction[0]
        &&& gpu.wave_direction[1] == self.wave_direction[1]
        &&& gpu.wave_direction[2] == spec_zero()
        &&& gpu.wave_direction[3] == spec_zero()
        &&& gpu.water_color[0] == self.water_color[0]
        &&& gpu.water_color[1] == self.water_color[1]
        &&& gpu.water_color[2] == self.water_color[2]
        &&& gpu.water_color[3] == self.foam_threshold
        &&& gpu.extinction[0] == self.extinction[0]
        &&& gpu.extinction[1] == self.extinction[1]
        &&& gpu.extinction[2] == self.extinction[2]
        &&& gpu.extinction[3] == self.foam_amount
        &&& gpu.reflection_refraction[0] == self.reflection_strength
        &&& gpu.reflection_refraction[1] == self.refraction_strength
        &&& gpu.reflection_refraction[2] == self.fresnel_power
        &&& gpu.reflection_refraction[3] == spec_zero()
        &&& gpu.caustics_params[0] == spec_switch(self.caustics_enabled)
        &&& gpu.caustics_params[1] == self.caustics_intensity
        &&& gpu.caustics_params[2] == self.caustics_scale
        &&& gpu.caustics_params[3] == self.caustics_speed
        &&& gpu.fog_params[0] == self.fog_density
        &&& gpu.fog_params[1] == self.god_rays_intensity
        &&& gpu.fog_params[2] == spec_zero()
        &&& gpu.fog_params[3] == spec_zero()
        &&& gpu.sim_params[0] == self.ior
        &&& gpu.sim_params[1] == self.caustics_intensity
        &&& gpu.sim_params[2] == self.fresnel_min
        &&& gpu.sim_params[3] == self.density
        &&& gpu.shadow_params[0] == self.shadow_rim
        &&& gpu.shadow_params[1] == self.shadow_hitbox
        &&& gpu.shadow_params[2] == self.shadow_ao
        &&& gpu.shadow_params[3] == spec_zero()
        &&& gpu.sun_direction[0] == units.sun[0]
        &&& gpu.sun_direction[1] == units.sun[1]
        &&& gpu.sun_direction[2] == units.sun[2]
        &&& gpu.sun_direction[3] == spec_zero()
        &&& gpu.ssr_params[0] == spec_switch(self.ssr_enabled)
        &&& gpu.ssr_params[1].units() == nearest_single(self.ssr_steps as int) * pow2(149) && gpu.ssr_params[1].spec_is_finite() && !gpu.ssr_params[1].spec_negative()
        &&& gpu.ssr_params[2] == self.ssr_step_size
        &&& gpu.ssr_params[3] == self.ssr_thickness
        &&& gpu.sim_dynamics[0] == self.wave_spring
        &&& gpu.sim_dynamics[1] == self.wave_damping
        &&& gpu.sim_dynamics[2] == self.wave_scale
        &&& gpu.sim_dynamics[3] == spec_zero()
        &&& gpu.wind_params[0] == self.wind_used(units)[0]
        &&& gpu.wind_params[1] == self.wind_used(units)[1]
        &&& gpu.wind_params[2] == self.wind_strength
        &&& gpu.wind_params[3] == spec_zero()
    }

    /// The row that shaders read. `units` holds the sun direction and the wind
    /// direction scaled to unit length; calm water has no wind direction.
    pub fn to_gpu(&self, units: WaterUnitVectors) -> (gpu: GpuWaterVolume)
        ensures
            self.describes(gpu, units),
    {
        let sun: [F32; 3] = units.sun;
        let wind: [F32; 2] = if self.is_calm() {
            [zero(), zero()]
        } else {
            units.wind
        };
        GpuWaterVolume {
            bounds_min: [self.bounds_min[0], self.bounds_min[1], self.bounds_min[2], zero()],
            bounds_max: [self.bounds_max[0], self.bounds_max[1], self.bounds_max[2], self.surface_height],
            wave_params: [self.wave_amplitude, self.wave_frequency, self.wave_speed, self.wave_steepness],
            wave_direction: [self.wave_direction[0], self.wave_direction[1], zero(), zero()],
            water_color: [self.water_color[0], self.water_color[1], self.water_color[2], self.foam_threshold],
            extinction: [self.extinction[0], self.extinction[1], self.extinction[2], self.foam_amount],
            reflection_refraction: [self.reflection_strength, self.refraction_strength, self.fresnel_power, zero()],
            caustics_params: [switch(self.caustics_enabled), self.caustics_intensity, self.caustics_scale, self.caustics_speed],
            fog_params: [self.fog_density, self.god_rays_intensity, zero(), zero()],
            sim_params: [self.ior, self.caustics_intensity, self.fresnel_min, self.density],
            shadow_params: [self.shadow_rim, self.shadow_hitbox, self.shadow_ao, zero()],
            sun_direction: [sun[0], sun[1], sun[2], zero()],
            ssr_params: [switch(self.ssr_enabled), F32::from_u32(self.ssr_steps), self.ssr_step_size, self.ssr_thickness],
            sim_dynamics: [self.wave_spring, self.wave_damping, self.wave_scale, zero()],
            wind_params: [wind[0], wind[1], self.wind_strength, zero()],
        }
    }

    /// The simulation parameters are finite and in the range that shaders accept.
    pub open spec fn simulates(&self) -> bool {
        &&& self.wave_spring.spec_is_finite()
        &&& self.wave_damping.spec_is_finite()
        &&& self.wave_speed.spec_is_finite()
        &&& self.wave_scale.spec_is_finite()
        &&& self.wind_strength.spec_is_finite()
        &&& self.wind_direction[0].spec_is_finite()
        &&& self.wind_direction[1].spec_is_finite()
        &&& single(MIN_WAVE_SPRING).spec_le(self.wave_spring)
        &&& self.wave_spring.spec_le(single(MAX_WAVE_SPRING))
        &&& spec_zero().spec_le(self.wave_damping)
        &&& self.wave_damping.spec_le(single(MAX_WAVE_DAMPING))
        &&& spec_zero().spec_le(self.wave_speed)
        &&& single(MIN_WAVE_SCALE).spec_le(self.wave_scale)
        &&& spec_zero().spec_le(self.wind_strength)
    }

    /// An open sea.
    pub fn ocean() -> (descriptor: Self)
        ensures
            descriptor.simulates(),
            descriptor == spec_ocean(),
    {
        let descriptor = WaterVolumeDescriptor {
            bounds_min: [
                F32 { bits: 0xC2C80000 },
                F32 { bits: 0xC1200000 },
                F32 { bits: 0xC2C80000 },
            ],
            bounds_max: [
                F32 { bits: 0x42C80000 },
                F32 { bits: 0x42480000 },
                F32 { bits: 0x42C80000 },
            ],
            surface_height: F32 { bits: 0x00000000 },
            wave_amplitude: F32 { bits: 0x3F000000 },
            wave_frequency: F32 { bits: 0x3E99999A },
            wave_speed: F32 { bits: 0x3FC00000 },
            wave_direction: [F32 { bits: 0x3F800000 }, F32 { bits: 0x00000000 }],
            wave_steepness: F32 { bits: 0x3F000000 },
            water_color: [
                F32 { bits: 0x00000000 },
                F32 { bits: 0x3E4CCCCD },
                F32 { bits: 0x3ECCCCCD },
            ],
            extinction: [
                F32 { bits: 0x3DCCCCCD },
                F32 { bits: 0x3D4CCCCD },
                F32 { bits: 0x3CA3D70A },
            ],
            foam_threshold: F32 { bits: 0x3F4CCCCD },
            foam_amount: F32 { bits: 0x3F19999A },
            reflection_strength: F32 { bits: 0x3F4CCCCD },
            refraction_strength: F32 { bits: 0x3F800000 },
            fresnel_power: F32 { bits: 0x40A00000 },
            caustics_enabled: true,
            caustics_intensity: F32 { bits: 0x3FC00000 },
            caustics_scale: F32 { bits: 0x40A00000 },
            caustics_speed: F32 { bits: 0x3F000000 },
            fog_density: F32 { bits: 0x3CF5C28F },
            god_rays_intensity: F32 { bits: 0x3F800000 },
            ssr_enabled: true,
            ssr_steps: 32,
            ssr_step_size: F32 { bits: 0x3D4CCCCD },
            ssr_thickness: F32 { bits: 0x3CA3D70A },
            ior: F32 { bits: 0x3FAA9FBE },
            fresnel_min: F32 { bits: 0x3DCCCCCD },
            density: F32 { bits: 0x3CF5C28F },
            shadow_rim: F32 { bits: 0x3F800000 },
            shadow_hitbox: F32 { bits: 0x00000000 },
            shadow_ao: F32 { bits: 0x3F800000 },
            sun_direction: [
                F32 { bits: 0x3F000000 },
                F32 { bits: 0x3F800000 },
                F32 { bits: 0x3F000000 },
            ],
            wave_spring: F32 { bits: 0x3F99999A },
            wave_damping: F32 { bits: 0x3F7C28F6 },
            wind_direction: [F32 { bits: 0x00000000 }, F32 { bits: 0x00000000 }],
            wind_strength: F32 { bits: 0x00000000 },
            wave_scale: F32 { bits: 0x3F800000 },
        };
        proof {
            lemma_ocean_simulates(descriptor);
        }
        descriptor
    }

    /// A lake or a pool.
    pub fn lake() -> (descriptor: Self)
        ensures
            descriptor.simulates(),
            descriptor == spec_lake(),
    {
        let descriptor = WaterVolumeDescriptor {
            bounds_min: [
                F32 { bits: 0xC2480000 },
                F32 { bits: 0xC0A00000 },
                F32 { bits: 0xC2480000 },
            ],
            bounds_max: [
                F32 { bits: 0x42480000 },
                F32 { bits: 0x41A00000 },
                F32 { bits: 0x42480000 },
            ],
            surface_height: F32 { bits: 0x00000000 },
            wave_amplitude: F32 { bits: 0x3E4CCCCD },
            wave_frequency: F32 { bits: 0x3F000000 },
            wave_speed: F32 { bits: 0x3F4CCCCD },
            wave_direction: [F32 { bits: 0x3F800000 }, F32 { bits: 0x00000000 }],
            wave_steepness: F32 { bits: 0x3E99999A },
            water_color: [
                F32 { bits: 0x3DCCCCCD },
                F32 { bits: 0x3E99999A },
                F32 { bits: 0x3E4CCCCD },
            ],
            extinction: [
                F32 { bits: 0x3E4CCCCD },
                F32 { bits: 0x3DCCCCCD },
                F32 { bits: 0x3DA3D70A },
            ],
            foam_threshold: F32 { bits: 0x3F333333 },
            foam_amount: F32 { bits: 0x3F000000 },
            reflection_strength: F32 { bits: 0x3F19999A },
            refraction_strength: F32 { bits: 0x3F800000 },
            fresnel_power: F32 { bits: 0x40800000 },
            caustics_enabled: true,
            caustics_intensity: F32 { bits: 0x3F99999A },
            caustics_scale: F32 { bits: 0x40800000 },
            caustics_speed: F32 { bits: 0x3ECCCCCD },
            fog_density: F32 { bits: 0x3D4CCCCD },
            god_rays_intensity: F32 { bits: 0x3F000000 },
            ssr_enabled: true,
            ssr_steps: 32,
            ssr_step_size: F32 { bits: 0x3D4CCCCD },
            ssr_thickness: F32 { bits: 0x3CA3D70A },
            ior: F32 { bits: 0x3FAA9FBE },
            fresnel_min: F32 { bits: 0x3DCCCCCD },
            density: F32 { bits: 0x3D4CCCCD },
            shadow_rim: F32 { bits: 0x3F800000 },
            shadow_hitbox: F32 { bits: 0x00000000 },
            shadow_ao: F32 { bits: 0x3F800000 },
            sun_direction: [
                F32 { bits: 0x3F000000 },
                F32 { bits: 0x3F800000 },
                F32 { bits: 0x3F000000 },
            ],
            wave_spring: F32 { bits: 0x3F800000 },
            wave_damping: F32 { bits: 0x3F7AE148 },
            wind_direction: [F32 { bits: 0x00000000 }, F32 { bits: 0x00000000 }],
            wind_strength: F32 { bits: 0x00000000 },
            wave_scale: F32 { bits: 0x3F800000 },
        };
        proof {
            lemma_lake_simulates(descriptor);
        }
        descriptor
    }
}

impl Default for WaterVolumeDescriptor {
    fn default() -> (descriptor: Self)
        ensures
            descriptor == spec_ocean(),
    {
        WaterVolumeDescriptor::ocean()
    }
}

/// Parameters of an open sea.
pub open spec fn spec_ocean() -> WaterVolumeDescriptor {
    WaterVolumeDescriptor {
        bounds_min: [
            F32 { bits: 0xC2C80000 },
            F32 { bits: 0xC1200000 },
            F32 { bits: 0xC2C80000 },
        ],
        bounds_max: [
            F32 { bits: 0x42C80000 },
            F32 { bits: 0x42480000 },
            F32 { bits: 0x42C80000 },
        ],
        surface_height: F32 { bits: 0x00000000 },
        wave_amplitude: F32 { bits: 0x3F000000 },
        wave_frequency: F32 { bits: 0x3E99999A },
        wave_speed: F32 { bits: 0x3FC00000 },
        wave_direction: [F32 { bits: 0x3F800000 }, F32 { bits: 0x00000000 }],
        wave_steepness: F32 { bits: 0x3F000000 },
        water_color: [
            F32 { bits: 0x00000000 },
            F32 { bits: 0x3E4CCCCD },
            F32 { bits: 0x3ECCCCCD },
        ],
        extinction: [
            F32 { bits: 0x3DCCCCCD },
            F32 { bits: 0x3D4CCCCD },
            F32 { bits: 0x3CA3D70A },
        ],
        foam_threshold: F32 { bits: 0x3F4CCCCD },
        foam_amount: F32 { bits: 0x3F19999A },
        reflection_strength: F32 { bits: 0x3F4CCCCD },
        refraction_strength: F32 { bits: 0x3F800000 },
        fresnel_power: F32 { bits: 0x40A00000 },
        caustics_enabled: true,
        caustics_intensity: F32 { bits: 0x3FC00000 },
        caustics_scale: F32 { bits: 0x40A00000 },
        caustics_speed: F32 { bits: 0x3F000000 },
        fog_density: F32 { bits: 0x3CF5C28F },
        god_rays_intensity: F32 { bits: 0x3F800000 },
        ssr_enabled: true,
        ssr_steps: 32,
        ssr_step_size: F32 { bits: 0x3D4CCCCD },
        ssr_thickness: F32 { bits: 0x3CA3D70A },
        ior: F32 { bits: 0x3FAA9FBE },
        fresnel_min: F32 { bits: 0x3DCCCCCD },
        density: F32 { bits: 0x3CF5C28F },
        shadow_rim: F32 { bits: 0x3F800000 },
        shadow_hitbox: F32 { bits: 0x00000000 },
        shadow_ao: F32 { bits: 0x3F800000 },
        sun_direction: [
            F32 { bits: 0x3F000000 },
            F32 { bits: 0x3F800000 },
            F32 { bits: 0x3F000000 },
        ],
        wave_spring: F32 { bits: 0x3F99999A },
        wave_damping: F32 { bits: 0x3F7C28F6 },
        wind_direction: [F32 { bits: 0x00000000 }, F32 { bits: 0x00000000 }],
        wind_strength: F32 { bits: 0x00000000 },
        wave_scale: F32 { bits: 0x3F800000 },
    }
}

/// Parameters of a lake or a pool.
pub open spec fn spec_lake() -> WaterVolumeDescriptor {
    WaterVolumeDescriptor {
        bounds_min: [
            F32 { bits: 0xC2480000 },
            F32 { bits: 0xC0A00000 },
            F32 { bits: 0xC2480000 },
        ],
        bounds_max: [
            F32 { bits: 0x42480000 },
            F32 { bits: 0x41A00000 },
            F32 { bits: 0x42480000 },
        ],
        surface_height: F32 { bits: 0x00000000 },
        wave_amplitude: F32 { bits: 0x3E4CCCCD },
        wave_frequency: F32 { bits: 0x3F000000 },
        wave_speed: F32 { bits: 0x3F4CCCCD },
        wave_direction: [F32 { bits: 0x3F800000 }, F32 { bits: 0x00000000 }],
        wave_steepness: F32 { bits: 0x3E99999A },
        water_color: [
            F32 { bits: 0x3DCCCCCD },
            F32 { bits: 0x3E99999A },
            F32 { bits: 0x3E4CCCCD },
        ],
        extinction: [
            F32 { bits: 0x3E4CCCCD },
            F32 { bits: 0x3DCCCCCD },
            F32 { bits: 0x3DA3D70A },
        ],
        foam_threshold: F32 { bits: 0x3F333333 },
        foam_amount: F32 { bits: 0x3F000000 },
        reflection_strength: F32 { bits: 0x3F19999A },
        refraction_strength: F32 { bits: 0x3F800000 },
        fresnel_power: F32 { bits: 0x40800000 },
        caustics_enabled: true,
        caustics_intensity: F32 { bits: 0x3F99999A },
        caustics_scale: F32 { bits: 0x40800000 },
        caustics_speed: F32 { bits: 0x3ECCCCCD },
        fog_density: F32 { bits: 0x3D4CCCCD },
        god_rays_intensity: F32 { bits: 0x3F000000 },
        ssr_enabled: true,
        ssr_steps: 32,
        ssr_step_size: F32 { bits: 0x3D4CCCCD },
        ssr_thickness: F32 { bits: 0x3CA3D70A },
        ior: F32 { bits: 0x3FAA9FBE },
        fresnel_min: F32 { bits: 0x3DCCCCCD },
        density: F32 { bits: 0x3D4CCCCD },
        shadow_rim: F32 { bits: 0x3F800000 },
        shadow_hitbox: F32 { bits: 0x00000000 },
        shadow_ao: F32 { bits: 0x3F800000 },
        sun_direction: [
            F32 { bits: 0x3F000000 },
            F32 { bits: 0x3F800000 },
            F32 { bits: 0x3F000000 },
        ],
        wave_spring: F32 { bits: 0x3F800000 },
        wave_damping: F32 { bits: 0x3F7AE148 },
        wind_direction: [F32 { bits: 0x00000000 }, F32 { bits: 0x00000000 }],
        wind_strength: F32 { bits: 0x00000000 },
        wave_scale: F32 { bits: 0x3F800000 },
    }
}

/// Encoding of 0.1.
pub const MIN_WAVE_SPRING: u32 = 0x3DCCCCCD;

/// Encoding of 2.0.
pub const MAX_WAVE_SPRING: u32 = 0x40000000;

/// Encoding of 1.0.
pub const MAX_WAVE_DAMPING: u32 = 0x3F800000;

/// Encoding of 0.01.
pub const MIN_WAVE_SCALE: u32 = 0x3C23D70A;

proof fn lemma_ocean_simulates(d: WaterVolumeDescriptor)
    requires
        d == spec_ocean(),
    ensures
        d.simulates(),
{
    spec_zero().lemma_order(d.wave_speed);
    spec_zero().lemma_order(d.wind_strength);
    spec_zero().lemma_order(d.wave_damping);
    d.wave_damping.lemma_order(single(MAX_WAVE_DAMPING));
    single(MIN_WAVE_SPRING).lemma_order(d.wave_spring);
    d.wave_spring.lemma_order(single(MAX_WAVE_SPRING));
    single(MIN_WAVE_SCALE).lemma_order(d.wave_scale);
}

proof fn lemma_lake_simulates(d: WaterVolumeDescriptor)
    requires
        d == spec_lake(),
    ensures
        d.simulates(),
{
    spec_zero().lemma_order(d.wave_speed);
    spec_zero().lemma_order(d.wind_strength);
    spec_zero().lemma_order(d.wave_damping);
    d.wave_damping.lemma_order(single(MAX_WAVE_DAMPING));
    single(MIN_WAVE_SPRING).lemma_order(d.wave_spring);
    d.wave_spring.lemma_order(single(MAX_WAVE_SPRING));
    single(MIN_WAVE_SCALE).lemma_order(d.wave_scale);
}

/// The error of a volume whose simulation parameters are not in order.
pub open spec fn water_simulation_error() -> SceneError {
    SceneError::InvalidOperation {
        reason: "water simulation dynamics must be finite and within shader bounds",
    }
}

/// Accepts a volume whose simulation parameters are finite and in range.
pub fn validate_water_simulation(desc: &WaterVolumeDescriptor) -> (result: Result<()>)
    ensures
        result == if desc.simulates() {
            Ok::<(), SceneError>(())
        } else {
            Err(water_simulation_error())
        },
{
    let finite: bool = desc.wave_spring.is_finite() && desc.wave_damping.is_finite()
        && desc.wave_speed.is_finite() && desc.wave_scale.is_finite()
        && desc.wind_strength.is_finite() && desc.wind_direction[0].is_finite()
        && desc.wind_direction[1].is_finite();
    if !finite || !from_bits(MIN_WAVE_SPRING).le(desc.wave_spring) || !desc.wave_spring.le(from_bits(MAX_WAVE_SPRING))
        || !zero().le(desc.wave_damping) || !desc.wave_damping.le(from_bits(MAX_WAVE_DAMPING))
        || desc.wave_speed.lt(zero()) || desc.wave_scale.lt(from_bits(MIN_WAVE_SCALE))
        || desc.wind_strength.lt(zero()) {
        return Err(
            SceneError::InvalidOperation {
                reason: "water simulation dynamics must be finite and within shader bounds",
            },
        );
    }
    Ok(())
}

impl GpuWaterVolume {
    /// Whether two rows hold the same encodings.
    pub fn same(&self, other: &GpuWaterVolume) -> (same: bool)
        ensures
            same == (*self == *other),
    {
        same_encodings(&self.bounds_min, &other.bounds_min) && same_encodings(&self.bounds_max, &other.bounds_max) && same_encodings(&self.wave_params, &other.wave_params) && same_encodings(&self.wave_direction, &other.wave_direction) && same_encodings(&self.water_color, &other.water_color) && same_encodings(&self.extinction, &other.extinction) && same_encodings(&self.reflection_refraction, &other.reflection_refraction) && same_encodings(&self.caustics_params, &other.caustics_params) && same_encodings(&self.fog_params, &other.fog_params) && same_encodings(&self.sim_params, &other.sim_params) && same_encodings(&self.shadow_params, &other.shadow_params) && same_encodings(&self.sun_direction, &other.sun_direction) && same_encodings(&self.ssr_params, &other.ssr_params) && same_encodings(&self.sim_dynamics, &other.sim_dynamics) && same_encodings(&self.wind_params, &other.wind_params)
    }
}

/// A box that displaces water: where a body was, and where it is.
#[derive(Clone, Copy, Debug)]
pub struct WaterHitboxDescriptor {
    pub old_min: [F32; 3],
    pub old_max: [F32; 3],
    pub new_min: [F32; 3],
    pub new_max: [F32; 3],
    /// Width of the falloff at the faces.
    pub edge_softness: F32,
    pub strength: F32,
}

/// A water hitbox as shaders read it.
#[derive(Clone, Copy, Debug)]
pub struct GpuWaterHitbox {
    pub old_min: [F32; 4],
    pub old_max: [F32; 4],
    pub new_min: [F32; 4],
    pub new_max: [F32; 4],
    pub params: [F32; 4],
}

impl WaterHitboxDescriptor {
    pub open spec fn spec_to_gpu(&self) -> GpuWaterHitbox {
        GpuWaterHitbox {
            old_min: [self.old_min[0], self.old_min[1], self.old_min[2], spec_zero()],
            old_max: [self.old_max[0], self.old_max[1], self.old_max[2], spec_zero()],
            new_min: [self.new_min[0], self.new_min[1], self.new_min[2], spec_zero()],
            new_max: [self.new_max[0], self.new_max[1], self.new_max[2], spec_zero()],
            params: [self.edge_softness, self.strength, spec_zero(), spec_zero()],
        }
    }

    pub fn to_gpu(&self) -> (gpu: GpuWaterHitbox)
        ensures
            gpu == self.spec_to_gpu(),
    {
        GpuWaterHitbox {
            old_min: [self.old_min[0], self.old_min[1], self.old_min[2], zero()],
            old_max: [self.old_max[0], self.old_max[1], self.old_max[2], zero()],
            new_min: [self.new_min[0], self.new_min[1], self.new_min[2], zero()],
            new_max: [self.new_max[0], self.new_max[1], self.new_max[2], zero()],
            params: [self.edge_softness, self.strength, zero(), zero()],
        }
    }
}

impl GpuWaterHitbox {
    /// Whether two rows hold the same encodings.
    pub fn same(&self, other: &GpuWaterHitbox) -> (same: bool)
        ensures
            same == (*self == *other),
    {
        same_encodings(&self.old_min, &other.old_min) && same_encodings(
            &self.old_max,
            &other.old_max,
        ) && same_encodings(&self.new_min, &other.new_min) && same_encodings(
            &self.new_max,
            &other.new_max,
        ) && same_encodings(&self.params, &other.params)
    }
}

} // verus!
