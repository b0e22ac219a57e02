//! Error types for scene operations.
use vstd::prelude::*;

verus! {

/// Error of a scene operation: a stale handle, a resource that is still in use,
/// a limit that was reached, or a state that does not allow the operation.
#[derive(Clone, Copy, Debug, PartialEq, Eq)]
pub enum SceneError {
    /// The handle names a resource that no longer exists or never did.
    InvalidHandle { resource: &'static str },
    /// The resource is still referenced by others.
    ResourceInUse { resource: &'static str },
    /// Every texture slot of the active material binding tier is taken.
    TextureCapacityExceeded,
    /// Another live texture carries this authored identity.
    DuplicateTextureAssetKey { asset_key: u128 },
    /// The automatic texture identities are used up.
    TextureAssetKeyExhausted,
    /// More corona emitters than the shader table holds.
    CoronaEmitterCapacityExceeded { requested: usize, capacity: usize },
    /// The resource's state does not allow the operation.
    InvalidOperation { reason: &'static str },
    /// Every coordinate-space row is taken by a sublevel or a portal.
    CoordinateSpaceCapacityExceeded,
    /// No run of free voxel mesh output slots is long enough.
    VoxelMeshCapacityExceeded,
    /// The portals would give more recursive chains than the chain table holds.
    PortalChainCapacityExceeded,
}

pub type Result<T> = core::result::Result<T, SceneError>;

/// The error for a stale handle of the named kind of resource.
pub fn invalid(resource: &'static str) -> (error: SceneError)
    ensures
        error == (SceneError::InvalidHandle { resource }),
{
    SceneError::InvalidHandle { resource }
}

/// Why the asset store rejected a material or texture request.
#[derive(Clone, Copy, Debug, PartialEq, Eq)]
pub enum SceneAssetError {
    MaterialMissingComponent,
    MaterialTextureRefsMissing,
    TextureNotResident,
    TextureMissingComponent,
    TextureAlreadyResident,
    DuplicateTextureAsset { asset_key: u128 },
    InvalidTextureAssetKey,
    TextureInUse,
    MaterialInUse,
    TextureStore,
    TextureAssetKeyExhausted,
    TextureRefCountMustStartAtZero,
    TextureRefCountOverflow,
    TextureRefCountUnderflow,
    MaterialRefCountOverflow,
    MaterialRefCountUnderflow,
    TextureRefCountDiverged,
    UnsupportedTexture,
    TextureDataLength,
}

impl SceneAssetError {
    /// The rejection says that the material does not exist.
    pub open spec fn names_missing_material(self) -> bool {
        self is MaterialMissingComponent || self is MaterialTextureRefsMissing
    }

    /// The rejection says that the texture is not where it should be.
    pub open spec fn names_missing_texture(self) -> bool {
        self is TextureNotResident || self is TextureMissingComponent
            || self is TextureAlreadyResident
    }

    /// The rejection reports bookkeeping or data that the store does not accept.
    pub open spec fn names_bad_state(self) -> bool {
        ||| self is TextureRefCountMustStartAtZero
        ||| self is TextureRefCountOverflow
        ||| self is TextureRefCountUnderflow
        ||| self is MaterialRefCountOverflow
        ||| self is MaterialRefCountUnderflow
        ||| self is TextureRefCountDiverged
        ||| self is UnsupportedTexture
        ||| self is TextureDataLength
    }
}

/// What a rejection by the asset store means for the scene.
pub open spec fn asset_error(error: SceneAssetError) -> SceneError {
    if error.names_missing_material() {
        SceneError::InvalidHandle { resource: "material" }
    } else if error.names_missing_texture() {
        SceneError::InvalidHandle { resource: "texture" }
    } else if error.names_bad_state() {
        SceneError::InvalidOperation { reason: "SceneDB rejected material/texture state" }
    } else {
        match error {
            SceneAssetError::DuplicateTextureAsset { asset_key } => {
                SceneError::DuplicateTextureAssetKey { asset_key }
            },
            SceneAssetError::InvalidTextureAssetKey => SceneError::InvalidOperation {
                reason: "texture asset key zero is reserved",
            },
            SceneAssetError::TextureInUse => SceneError::ResourceInUse { resource: "texture" },
            SceneAssetError::MaterialInUse => SceneError::ResourceInUse { resource: "material" },
            SceneAssetError::TextureStore => SceneError::TextureCapacityExceeded,
            _ => SceneError::TextureAssetKeyExhausted,
        }
    }
}

/// The scene's error for a rejection by the asset store.
pub fn scene_asset(error: SceneAssetError) -> (mapped: SceneError)
    ensures
        mapped == asset_error(error),
{
    match error {
        SceneAssetError::MaterialMissingComponent | SceneAssetError::MaterialTextureRefsMissing =>
            invalid("material"),
        SceneAssetError::TextureNotResident
        | SceneAssetError::TextureMissingComponent
        | SceneAssetError::TextureAlreadyResident => invalid("texture"),
        SceneAssetError::DuplicateTextureAsset { asset_key } => {
            SceneError::DuplicateTextureAssetKey { asset_key }
        },
        SceneAssetError::InvalidTextureAssetKey => SceneError::InvalidOperation {
            reason: "texture asset key zero is reserved",
        },
        SceneAssetError::TextureInUse => SceneError::ResourceInUse { resource: "texture" },
        SceneAssetError::MaterialInUse => SceneError::ResourceInUse { resource: "material" },
        SceneAssetError::TextureStore => SceneError::TextureCapacityExceeded,
        SceneAssetError::TextureAssetKeyExhausted => SceneError::TextureAssetKeyExhausted,
        SceneAssetError::TextureRefCountMustStartAtZero
        | SceneAssetError::TextureRefCountOverflow
        | SceneAssetError::TextureRefCountUnderflow
        | SceneAssetError::MaterialRefCountOverflow
        | SceneAssetError::MaterialRefCountUnderflow
        | SceneAssetError::TextureRefCountDiverged
        | SceneAssetError::UnsupportedTexture
        | SceneAssetError::TextureDataLength => SceneError::InvalidOperation {
            reason: "SceneDB rejected material/texture state",
        },
    }
}

} // verus!
