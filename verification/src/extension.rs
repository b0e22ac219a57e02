//! Application-owned scene data.
//!
//! Applications attach components of their own to entities of their own, and keep
//! one payload per subsystem type. This module decides which requests are valid;
//! the component store holds the values.
use vstd::prelude::*;

use crate::handles::SceneExtensionEntity;
use crate::sparse_set::SparseSet;

verus! {

/// Marks a component type that an application owns.
pub trait SceneDataComponent {

}

/// Marks an application component without GPU columns.
pub trait SceneCpuComponent: SceneDataComponent {

}

/// Marks an application component whose GPU columns are all re-uploaded when they
/// change.
pub trait SceneDirtyTrackedComponent: SceneDataComponent {

}

/// Marks an application component whose GPU columns are all handed over once.
pub trait SceneOnceComponent: SceneDataComponent {

}

/// Marks an application component with GPU columns of both kinds.
pub trait SceneMixedComponent: SceneDataComponent {

}

/// Marks a subsystem payload type that an application owns.
pub trait SceneDataSubsystem {

}

/// Error of a request on application-owned data.
#[derive(Clone, Copy, Debug, PartialEq, Eq)]
pub enum SceneDataError {
    /// The entity is stale or not the application's.
    InvalidEntity,
    ComponentAlreadyPresent { component: &'static str },
    ComponentMissing { component: &'static str },
    SubsystemAlreadyPresent { subsystem: &'static str },
    SubsystemMissing { subsystem: &'static str },
    /// The request is for components of another upload policy.
    ComponentPolicyMismatch {
        component: &'static str,
        expected: &'static str,
        actual: &'static str,
    },
    /// The component's GPU columns were not registered at construction.
    GpuColumnsNotRegistered { component: &'static str },
}

/// How a component's GPU columns are kept up to date.
#[derive(Clone, Copy, Debug, PartialEq, Eq, Structural)]
pub enum ExtensionComponentPolicy {
    CpuOnly,
    DirtyTracked,
    Once,
    Mixed,
}

impl ExtensionComponentPolicy {
    pub open spec fn spec_label(self) -> &'static str {
        match self {
            ExtensionComponentPolicy::CpuOnly => "CPU-only",
            ExtensionComponentPolicy::DirtyTracked => "DirtyTracked",
            ExtensionComponentPolicy::Once => "Once",
            ExtensionComponentPolicy::Mixed => "mixed DirtyTracked/Once",
        }
    }

    pub fn label(self) -> (label: &'static str)
        ensures
            label == self.spec_label(),
    {
        match self {
            ExtensionComponentPolicy::CpuOnly => "CPU-only",
            ExtensionComponentPolicy::DirtyTracked => "DirtyTracked",
            ExtensionComponentPolicy::Once => "Once",
            ExtensionComponentPolicy::Mixed => "mixed DirtyTracked/Once",
        }
    }
}

/// Upload mode of one GPU column.
#[derive(Clone, Copy, Debug, PartialEq, Eq, Structural)]
pub enum MirrorMode {
    DirtyTracked,
    Once,
}

/// What the component store tells about a component type.
pub struct ComponentType {
    /// Identity of the type.
    pub key: u64,
    pub name: &'static str,
    /// Modes of its GPU columns; empty without GPU columns.
    pub columns: Vec<MirrorMode>,
    /// Its GPU columns and its presence column were registered at construction.
    pub registered: bool,
}

/// The policy that a type's columns amount to.
pub open spec fn policy_of(columns: Seq<MirrorMode>) -> ExtensionComponentPolicy {
    if columns.len() == 0 {
        ExtensionComponentPolicy::CpuOnly
    } else if forall|i: int| 0 <= i < columns.len() ==> #[trigger] columns[i] is DirtyTracked {
        ExtensionComponentPolicy::DirtyTracked
    } else if forall|i: int| 0 <= i < columns.len() ==> #[trigger] columns[i] is Once {
        ExtensionComponentPolicy::Once
    } else {
        ExtensionComponentPolicy::Mixed
    }
}

fn classify(columns: &Vec<MirrorMode>) -> (policy: ExtensionComponentPolicy)
    ensures
        policy == policy_of(columns@),
{
    let mut all_dirty: bool = true;
    let mut all_once: bool = true;
    let mut i: usize = 0;
    while i < columns.len()
        invariant
            0 <= i <= columns@.len(),
            all_dirty <==> forall|j: int| 0 <= j < i ==> #[trigger] columns@[j] is DirtyTracked,
            all_once <==> forall|j: int| 0 <= j < i ==> #[trigger] columns@[j] is Once,
        decreases columns@.len() - i,
    {
        match columns[i] {
            MirrorMode::DirtyTracked => {
                assert(!(columns@[i as int] is Once));
                all_once = false;
            },
            MirrorMode::Once => {
                assert(!(columns@[i as int] is DirtyTracked));
                all_dirty = false;
            },
        }
        i = i + 1;
    }
    if columns.len() == 0 {
        ExtensionComponentPolicy::CpuOnly
    } else if all_dirty {
        ExtensionComponentPolicy::DirtyTracked
    } else if all_once {
        ExtensionComponentPolicy::Once
    } else {
        ExtensionComponentPolicy::Mixed
    }
}

pub fn component_missing(component: &'static str) -> (error: SceneDataError)
    ensures
        error == (SceneDataError::ComponentMissing { component }),
{
    SceneDataError::ComponentMissing { component }
}

pub fn subsystem_missing(subsystem: &'static str) -> (error: SceneDataError)
    ensures
        error == (SceneDataError::SubsystemMissing { subsystem }),
{
    SceneDataError::SubsystemMissing { subsystem }
}

/// Accepts a component of the expected policy and names both policies otherwise.
pub fn policy_matches(
    component: &'static str,
    expected: ExtensionComponentPolicy,
    actual: ExtensionComponentPolicy,
) -> (result: Result<(), SceneDataError>)
    ensures
        result == if expected == actual {
            Ok::<(), SceneDataError>(())
        } else {
            Err(
                SceneDataError::ComponentPolicyMismatch {
                    component,
                    expected: expected.spec_label(),
                    actual: actual.spec_label(),
                },
            )
        },
{
    if expected == actual {
        Ok(())
    } else {
        Err(
            SceneDataError::ComponentPolicyMismatch {
                component,
                expected: expected.label(),
                actual: actual.label(),
            },
        )
    }
}

/// One payload per subsystem type.
pub struct ExtensionSubsystemStore<P> {
    pub keys: Vec<u64>,
    pub payloads: Vec<P>,
}

impl<P> View for ExtensionSubsystemStore<P> {
    type V = Map<u64, P>;

    /// The payloads by the key of their type.
    open spec fn view(&self) -> Map<u64, P> {
        Map::new(|key: u64| self.keys@.contains(key), |key: u64| self.payloads@[self.place(key)])
    }
}

impl<P> ExtensionSubsystemStore<P> {
    pub open spec fn wf(&self) -> bool {
        self.keys@.len() == self.payloads@.len() && self.keys@.no_duplicates()
    }

    pub open spec fn place(&self, key: u64) -> int {
        self.keys@.index_of(key)
    }

    pub fn new() -> (store: Self)
        ensures
            store.wf(),
            store@ == Map::<u64, P>::empty(),
    {
        let store = ExtensionSubsystemStore { keys: Vec::new(), payloads: Vec::new() };
        assert(store@ =~= Map::<u64, P>::empty());
        store
    }

    fn find(&self, key: u64) -> (at: Option<usize>)
        requires
            self.wf(),
        ensures
            match at {
                Some(i) => i < self.keys@.len() && self.keys@[i as int] == key && i == self.place(
                    key,
                ) && self.keys@.contains(key),
                None => !self.keys@.contains(key),
            },
    {
        let mut i: usize = 0;
        while i < self.keys.len()
            invariant
                0 <= i <= self.keys@.len(),
                self.wf(),
                forall|j: int| 0 <= j < i ==> #[trigger] self.keys@[j] != key,
            decreases self.keys@.len() - i,
        {
            if self.keys[i] == key {
                assert(self.keys@[i as int] == key);
                assert(self.keys@.contains(key));
                assert(self.keys@[self.place(key)] == key);
                return Some(i);
            }
            i = i + 1;
        }
        None
    }

    pub fn get(&self, key: u64) -> (payload: Option<&P>)
        requires
            self.wf(),
        ensures
            match payload {
                Some(p) => self@.contains_key(key) && *p == self@[key],
                None => !self@.contains_key(key),
            },
    {
        match self.find(key) {
            Some(i) => Some(&self.payloads[i]),
            None => None,
        }
    }

    /// Access to a payload in place. Whatever is written through it is stored.
    pub fn get_mut(&mut self, key: u64) -> (payload: Option<&mut P>)
        requires
            old(self).wf(),
        ensures
            final(self).wf(),
            match payload {
                Some(p) => {
                    &&& old(self)@.contains_key(key)
                    &&& *p == old(self)@[key]
                    &&& final(self)@ == old(self)@.insert(key, *final(p))
                },
                None => !old(self)@.contains_key(key) && *final(self) == *old(self),
            },
    {
        match self.find(key) {
            Some(i) => {
                let payload = &mut self.payloads[i];
                Some(payload)
            },
            None => None,
        }
    }

    /// Adds a payload unless the type has one, and tells whether it did.
    pub fn insert(&mut self, key: u64, value: P) -> (inserted: bool)
        requires
            old(self).wf(),
        ensures
            final(self).wf(),
            inserted == !old(self)@.contains_key(key),
            final(self)@ == if inserted {
                old(self)@.insert(key, value)
            } else {
                old(self)@
            },
    {
        if self.find(key).is_some() {
            return false;
        }
        let ghost before = *self;
        self.keys.push(key);
        self.payloads.push(value);
        proof {
            assert forall|k: u64| self.keys@.contains(k) <==> before.keys@.contains(k) || k
                == key by {
                if before.keys@.contains(k) {
                    assert(self.keys@[before.keys@.index_of(k)] == k);
                }
                if k == key {
                    assert(self.keys@[before.keys@.len() as int] == key);
                }
            }
            assert forall|k: u64| before.keys@.contains(k) implies self.place(k) == before.place(
                k,
            ) by {
                let i = before.place(k);
                assert(before.keys@[i] == k);
                assert(self.keys@[i] == k);
                assert(self.keys@.contains(k));
                assert(self.keys@[self.place(k)] == k);
            }
            assert(self.keys@[self.place(key)] == key);
            assert(self@ =~= before@.insert(key, value));
        }
        true
    }

    /// Takes a payload out.
    pub fn remove(&mut self, key: u64) -> (payload: Option<P>)
        requires
            old(self).wf(),
        ensures
            final(self).wf(),
            final(self)@ == old(self)@.remove(key),
            match payload {
                Some(p) => old(self)@.contains_key(key) && p == old(self)@[key],
                None => !old(self)@.contains_key(key),
            },
    {
        match self.find(key) {
            Some(i) => {
                let ghost before = *self;
                self.keys.remove(i);
                let payload = self.payloads.remove(i);
                proof {
                    assert forall|k: u64| #[trigger] self.keys@.contains(k)
                        <==> before.keys@.contains(k) && k != key by {
                        if before.keys@.contains(k) && k != key {
                            let j = before.place(k);
                            assert(before.keys@[j] == k);
                            let to = if j < i { j } else { j - 1 };
                            assert(self.keys@[to] == k);
                        }
                        if self.keys@.contains(k) {
                            let j = self.keys@.index_of(k);
                            let from = if j < i { j } else { j + 1 };
                            assert(before.keys@[from] == k);
                        }
                    }
                    assert forall|k: u64| self.keys@.contains(k) implies
                        self.payloads@[self.place(k)] == before.payloads@[before.place(k)] by {
                        let j = self.place(k);
                        assert(self.keys@[j] == k);
                        let from = if j < i { j } else { j + 1 };
                        assert(before.keys@[from] == k);
                        assert(before.keys@.contains(k));
                        assert(before.keys@[before.place(k)] == k);
                        assert(from == before.place(k));
                    }
                    assert(self@ =~= before@.remove(key));
                }
                Some(payload)
            },
            None => {
                assert(self@ =~= old(self)@.remove(key));
                None
            },
        }
    }

    pub fn clear(&mut self)
        ensures
            final(self).wf(),
            final(self)@ == Map::<u64, P>::empty(),
    {
        self.keys.clear();
        self.payloads.clear();
        assert(self@ =~= Map::<u64, P>::empty());
    }

    /// Adds a payload; a type that has one keeps it.
    pub fn insert_subsystem(&mut self, key: u64, name: &'static str, value: P) -> (result: Result<
        (),
        SceneDataError,
    >)
        requires
            old(self).wf(),
        ensures
            final(self).wf(),
            if old(self)@.contains_key(key) {
                &&& result == Err::<(), _>(
                    SceneDataError::SubsystemAlreadyPresent { subsystem: name },
                )
                &&& final(self)@ == old(self)@
            } else {
                &&& result == Ok::<(), SceneDataError>(())
                &&& final(self)@ == old(self)@.insert(key, value)
            },
    {
        if self.insert(key, value) {
            Ok(())
        } else {
            Err(SceneDataError::SubsystemAlreadyPresent { subsystem: name })
        }
    }

    /// Takes a payload out, or reports that the type has none.
    pub fn remove_subsystem(&mut self, key: u64, name: &'static str) -> (result: Result<
        P,
        SceneDataError,
    >)
        requires
            old(self).wf(),
        ensures
            final(self).wf(),
            final(self)@ == old(self)@.remove(key),
            match result {
                Ok(p) => old(self)@.contains_key(key) && p == old(self)@[key],
                Err(e) => !old(self)@.contains_key(key) && e == (
                SceneDataError::SubsystemMissing { subsystem: name }),
            },
    {
        match self.remove(key) {
            Some(payload) => Ok(payload),
            None => Err(subsystem_missing(name)),
        }
    }
}

/// A policy that was established for a component type.
#[derive(Clone, Copy, Debug, PartialEq, Eq, Structural)]
pub struct PolicyEntry {
    pub key: u64,
    pub policy: ExtensionComponentPolicy,
}

/// Application-owned entities, each with the keys of the components on it, the
/// policies that were established for component types, and the payloads of the
/// application's subsystems, in the application's own encoding.
pub struct SceneData {
    pub entities: SparseSet<SceneExtensionEntity, Vec<u64>>,
    pub policies: Vec<PolicyEntry>,
    pub subsystems: ExtensionSubsystemStore<Vec<u8>>,
}

/// `components` with `key` added.
fn with_component(components: &Vec<u64>, key: u64) -> (more: Vec<u64>)
    ensures
        more@ == components@.push(key),
{
    let mut more: Vec<u64> = Vec::new();
    let mut i: usize = 0;
    while i < components.len()
        invariant
            0 <= i <= components@.len(),
            more@ =~= components@.take(i as int),
        decreases components@.len() - i,
    {
        more.push(components[i]);
        i = i + 1;
    }
    more.push(key);
    assert(more@ =~= components@.push(key));
    more
}

/// `components` without `key`.
fn without_component(components: &Vec<u64>, key: u64) -> (fewer: Vec<u64>)
    ensures
        fewer@ == components@.filter(|k: u64| k != key),
{
    let ghost other = |k: u64| k != key;
    let mut fewer: Vec<u64> = Vec::new();
    let mut i: usize = 0;
    while i < components.len()
        invariant
            0 <= i <= components@.len(),
            other == (|k: u64| k != key),
            fewer@ == components@.take(i as int).filter(other),
        decreases components@.len() - i,
    {
        proof {
            reveal(Seq::filter);
            assert(components@.take(i + 1).drop_last() =~= components@.take(i as int));
        }
        if components[i] != key {
            fewer.push(components[i]);
        }
        i = i + 1;
    }
    assert(components@.take(i as int) =~= components@);
    fewer
}

fn has_component(components: &Vec<u64>, key: u64) -> (found: bool)
    ensures
        found == components@.contains(key),
{
    let mut i: usize = 0;
    while i < components.len()
        invariant
            0 <= i <= components@.len(),
            forall|j: int| 0 <= j < i ==> #[trigger] components@[j] != key,
        decreases components@.len() - i,
    {
        if components[i] == key {
            assert(components@[i as int] == key);
            return true;
        }
        i = i + 1;
    }
    false
}

impl SceneData {
    pub open spec fn wf(&self) -> bool {
        &&& self.entities.wf()
        &&& self.subsystems.wf()
        &&& forall|i: int, j: int|
            0 <= i < j < self.policies@.len() ==> (#[trigger] self.policies@[i]).key != (
            #[trigger] self.policies@[j]).key
    }

    /// The application owns `entity` and it is alive.
    pub open spec fn alive(&self, entity: SceneExtensionEntity) -> bool {
        self.entities@.contains_key(entity)
    }

    /// A component of the type `key` is on `entity`.
    pub open spec fn carries(&self, entity: SceneExtensionEntity, key: u64) -> bool {
        self.alive(entity) && self.entities@[entity]@.contains(key)
    }

    /// A policy was established for the type `key`.
    pub open spec fn settled(&self, key: u64) -> bool {
        exists|i: int| 0 <= i < self.policies@.len() && (#[trigger] self.policies@[i]).key == key
    }

    /// The policy of a type: the established one, else what its columns amount to.
    pub open spec fn policy(&self, ty: &ComponentType) -> ExtensionComponentPolicy {
        if self.settled(ty.key) {
            let i = choose|i: int|
                0 <= i < self.policies@.len() && (#[trigger] self.policies@[i]).key == ty.key;
            self.policies@[i].policy
        } else {
            policy_of(ty.columns@)
        }
    }

    /// Whether a request for components of policy `expected` may use the type.
    pub open spec fn verdict(
        &self,
        ty: &ComponentType,
        expected: ExtensionComponentPolicy,
    ) -> Result<(), SceneDataError> {
        if expected != self.policy(ty) {
            Err(
                SceneDataError::ComponentPolicyMismatch {
                    component: ty.name,
                    expected: expected.spec_label(),
                    actual: self.policy(ty).spec_label(),
                },
            )
        } else if !self.settled(ty.key) && expected != ExtensionComponentPolicy::CpuOnly
            && !ty.registered {
            Err(SceneDataError::GpuColumnsNotRegistered { component: ty.name })
        } else {
            Ok(())
        }
    }

    /// `after` has the same entities, and the policy of `ty` is established there
    /// if the request for `expected` is in order.
    pub open spec fn settles(
        &self,
        after: &SceneData,
        ty: &ComponentType,
        expected: ExtensionComponentPolicy,
    ) -> bool {
        after.policies@ == if self.verdict(ty, expected) is Ok && !self.settled(ty.key) {
            self.policies@.push(PolicyEntry { key: ty.key, policy: expected })
        } else {
            self.policies@
        }
    }

    pub fn new() -> (data: Self)
        ensures
            data.wf(),
            data.entities@ == Map::<SceneExtensionEntity, Vec<u64>>::empty(),
            data.entities.spec_len() == 0,
            data.policies@.len() == 0,
            data.subsystems@ == Map::<u64, Vec<u8>>::empty(),
    {
        SceneData {
            entities: SparseSet::new(),
            policies: Vec::new(),
            subsystems: ExtensionSubsystemStore::new(),
        }
    }

    pub fn is_alive(&self, entity: SceneExtensionEntity) -> (alive: bool)
        requires
            self.wf(),
        ensures
            alive == self.alive(entity),
    {
        self.entities.is_live(entity)
    }

    fn find_policy(&self, ty: &ComponentType) -> (policy: Option<ExtensionComponentPolicy>)
        requires
            self.wf(),
        ensures
            policy == if self.settled(ty.key) {
                Some(self.policy(ty))
            } else {
                None::<ExtensionComponentPolicy>
            },
    {
        let mut i: usize = 0;
        while i < self.policies.len()
            invariant
                0 <= i <= self.policies@.len(),
                self.wf(),
                forall|j: int| 0 <= j < i ==> (#[trigger] self.policies@[j]).key != ty.key,
            decreases self.policies@.len() - i,
        {
            if self.policies[i].key == ty.key {
                proof {
                    assert(self.policies@[i as int].key == ty.key);
                    let k = choose|k: int|
                        0 <= k < self.policies@.len() && (#[trigger] self.policies@[k]).key
                            == ty.key;
                    assert(k == i);
                }
                return Some(self.policies[i].policy);
            }
            i = i + 1;
        }
        None
    }

    /// Checks that a type may be used where `expected` is asked for, and remembers
    /// its policy the first time it is found in order.
    pub fn ensure_policy(
        &mut self,
        ty: &ComponentType,
        expected: ExtensionComponentPolicy,
    ) -> (result: Result<(), SceneDataError>)
        requires
            old(self).wf(),
        ensures
            final(self).wf(),
            final(self).subsystems == old(self).subsystems,
            result == old(self).verdict(ty, expected),
            final(self).entities == old(self).entities,
            old(self).settles(final(self), ty, expected),
    {
        match self.find_policy(ty) {
            Some(actual) => {
                return policy_matches(ty.name, expected, actual);
            },
            None => {},
        }
        let actual: ExtensionComponentPolicy = classify(&ty.columns);
        let matched = policy_matches(ty.name, expected, actual);
        if matched.is_err() {
            return matched;
        }
        match actual {
            ExtensionComponentPolicy::CpuOnly => {},
            _ => {
                if !ty.registered {
                    return Err(SceneDataError::GpuColumnsNotRegistered { component: ty.name });
                }
            },
        }
        self.policies.push(PolicyEntry { key: ty.key, policy: actual });
        assert forall|i: int, j: int| 0 <= i < j < self.policies@.len() implies (
        #[trigger] self.policies@[i]).key != (#[trigger] self.policies@[j]).key by {
            assert(self.policies@[i] == old(self).policies@[i]);
            if j < old(self).policies@.len() {
                assert(self.policies@[j] == old(self).policies@[j]);
            }
        }
        Ok(())
    }

    /// Registers a fresh entity without components.
    pub fn spawn(&mut self, entity: SceneExtensionEntity)
        requires
            old(self).wf(),
            !old(self).entities.occupies(entity.0.index),
            entity.0.index < usize::MAX,
            old(self).entities.spec_len() < u32::MAX,
        ensures
            final(self).wf(),
            final(self).subsystems == old(self).subsystems,
            final(self).policies == old(self).policies,
            exists|none: Vec<u64>|
                none@.len() == 0 && final(self).entities@ == #[trigger] old(
                    self,
                ).entities@.insert(entity, none),
            forall|index: u32|
                #[trigger] final(self).entities.occupies(index) <==> old(
                    self,
                ).entities.occupies(index) || index == entity.0.index,
    {
        let none: Vec<u64> = Vec::new();
        let ghost kept = none;
        self.entities.insert(entity, none);
        assert(self.entities@ == old(self).entities@.insert(entity, kept));
    }

    /// Takes an entity and all its components out.
    pub fn forget(&mut self, entity: SceneExtensionEntity)
        requires
            old(self).wf(),
        ensures
            final(self).wf(),
            final(self).subsystems == old(self).subsystems,
            final(self).policies == old(self).policies,
            final(self).entities@ == old(self).entities@.remove(entity),
            forall|index: u32| #[trigger]
                final(self).entities.occupies(index) ==> old(self).entities.occupies(index),
            final(self).entities.spec_len() <= old(self).entities.spec_len(),
    {
        self.entities.remove(entity);
    }

    /// Takes every entity and every payload out; established policies stay.
    pub fn clear(&mut self)
        requires
            old(self).wf(),
        ensures
            final(self).wf(),
            final(self).policies == old(self).policies,
            final(self).entities@ == Map::<SceneExtensionEntity, Vec<u64>>::empty(),
            final(self).entities.spec_len() == 0,
            final(self).subsystems@ == Map::<u64, Vec<u8>>::empty(),
    {
        self.entities = SparseSet::new();
        self.subsystems.clear();
    }

    /// `after` is `self` with a component of the type on the fresh entity, if the
    /// request is in order.
    pub open spec fn inserted(
        &self,
        after: &SceneData,
        entity: SceneExtensionEntity,
        ty: &ComponentType,
        expected: ExtensionComponentPolicy,
        result: Result<SceneExtensionEntity, SceneDataError>,
    ) -> bool {
        &&& self.settles(after, ty, expected)
        &&& match self.verdict(ty, expected) {
            Err(e) => result == Err::<SceneExtensionEntity, _>(e) && after.entities
                == self.entities,
            Ok(_) => {
                &&& result == Ok::<_, SceneDataError>(entity)
                &&& after.entities@.dom() == self.entities@.dom().insert(entity)
                &&& after.entities@[entity]@ == seq![ty.key]
                &&& forall|other: SceneExtensionEntity|
                    other != entity && self.alive(other) ==> #[trigger] after.entities@[other]
                        == self.entities@[other]
            },
        }
    }

    /// Puts a component of the expected policy on a fresh entity.
    pub fn insert_component(
        &mut self,
        entity: SceneExtensionEntity,
        ty: &ComponentType,
        expected: ExtensionComponentPolicy,
    ) -> (result: Result<SceneExtensionEntity, SceneDataError>)
        requires
            old(self).wf(),
            !old(self).entities.occupies(entity.0.index),
            entity.0.index < usize::MAX,
            old(self).entities.spec_len() < u32::MAX,
        ensures
            final(self).wf(),
            final(self).subsystems == old(self).subsystems,
            old(self).inserted(final(self), entity, ty, expected, result),
    {
        match self.ensure_policy(ty, expected) {
            Err(e) => Err(e),
            Ok(_) => {
                let mut components: Vec<u64> = Vec::new();
                components.push(ty.key);
                assert(components@ =~= seq![ty.key]);
                let ghost before = self.entities@;
                self.entities.insert(entity, components);
                assert(self.entities@.dom() =~= before.dom().insert(entity));
                Ok(entity)
            },
        }
    }

    /// What adding a component to a live entity comes to.
    pub open spec fn add_outcome(
        &self,
        entity: SceneExtensionEntity,
        ty: &ComponentType,
        expected: ExtensionComponentPolicy,
    ) -> Result<(), SceneDataError> {
        if !self.alive(entity) {
            Err(SceneDataError::InvalidEntity)
        } else {
            match self.verdict(ty, expected) {
                Err(e) => Err(e),
                Ok(_) => if self.carries(entity, ty.key) {
                    Err(SceneDataError::ComponentAlreadyPresent { component: ty.name })
                } else {
                    Ok(())
                },
            }
        }
    }

    /// `after` is `self` with the component added, if the request is in order.
    pub open spec fn added(
        &self,
        after: &SceneData,
        entity: SceneExtensionEntity,
        ty: &ComponentType,
        expected: ExtensionComponentPolicy,
        result: Result<(), SceneDataError>,
    ) -> bool {
        &&& result == self.add_outcome(entity, ty, expected)
        &&& if self.alive(entity) {
            self.settles(after, ty, expected)
        } else {
            after.policies == self.policies
        }
        &&& after.entities@.dom() == self.entities@.dom()
        &&& forall|other: SceneExtensionEntity|
            #![trigger after.entities@[other]]
            self.alive(other) ==> after.entities@[other]@ == if result is Ok && other == entity {
                self.entities@[other]@.push(ty.key)
            } else {
                self.entities@[other]@
            }
    }

    /// Adds a component of the expected policy to a live entity that lacks it.
    pub fn add_component(
        &mut self,
        entity: SceneExtensionEntity,
        ty: &ComponentType,
        expected: ExtensionComponentPolicy,
    ) -> (result: Result<(), SceneDataError>)
        requires
            old(self).wf(),
        ensures
            final(self).wf(),
            final(self).subsystems == old(self).subsystems,
            old(self).added(final(self), entity, ty, expected, result),
    {
        if !self.entities.is_live(entity) {
            return Err(SceneDataError::InvalidEntity);
        }
        match self.ensure_policy(ty, expected) {
            Err(e) => {
                return Err(e);
            },
            Ok(_) => {},
        }
        match self.entities.get(entity) {
            Some(components) => {
                if has_component(components, ty.key) {
                    return Err(SceneDataError::ComponentAlreadyPresent { component: ty.name });
                }
                let more: Vec<u64> = with_component(components, ty.key);
                self.entities.set(entity, more);
                assert(self.entities@.dom() =~= old(self).entities@.dom());
            },
            None => {
                assert(false);
            },
        }
        Ok(())
    }

    /// What editing a component of a live entity comes to.
    pub open spec fn edit_outcome(
        &self,
        entity: SceneExtensionEntity,
        ty: &ComponentType,
        expected: ExtensionComponentPolicy,
    ) -> Result<(), SceneDataError> {
        if !self.alive(entity) {
            Err(SceneDataError::InvalidEntity)
        } else {
            match self.verdict(ty, expected) {
                Err(e) => Err(e),
                Ok(_) => if self.carries(entity, ty.key) {
                    Ok(())
                } else {
                    Err(SceneDataError::ComponentMissing { component: ty.name })
                },
            }
        }
    }

    /// Checks that a component of the expected policy may be edited in place.
    pub fn edit_component(
        &mut self,
        entity: SceneExtensionEntity,
        ty: &ComponentType,
        expected: ExtensionComponentPolicy,
    ) -> (result: Result<(), SceneDataError>)
        requires
            old(self).wf(),
        ensures
            final(self).wf(),
            final(self).subsystems == old(self).subsystems,
            result == old(self).edit_outcome(entity, ty, expected),
            final(self).entities == old(self).entities,
            if old(self).alive(entity) {
                old(self).settles(final(self), ty, expected)
            } else {
                final(self).policies == old(self).policies
            },
    {
        if !self.entities.is_live(entity) {
            return Err(SceneDataError::InvalidEntity);
        }
        match self.ensure_policy(ty, expected) {
            Err(e) => {
                return Err(e);
            },
            Ok(_) => {},
        }
        match self.entities.get(entity) {
            Some(components) => {
                if has_component(components, ty.key) {
                    Ok(())
                } else {
                    Err(component_missing(ty.name))
                }
            },
            None => {
                assert(false);
                Err(component_missing(ty.name))
            },
        }
    }

    /// Takes a component off a live entity, whatever its policy.
    pub fn remove_component(
        &mut self,
        entity: SceneExtensionEntity,
        ty: &ComponentType,
    ) -> (result: Result<(), SceneDataError>)
        requires
            old(self).wf(),
        ensures
            final(self).wf(),
            final(self).subsystems == old(self).subsystems,
            final(self).policies == old(self).policies,
            result == if !old(self).alive(entity) {
                Err::<(), _>(SceneDataError::InvalidEntity)
            } else if !old(self).carries(entity, ty.key) {
                Err(SceneDataError::ComponentMissing { component: ty.name })
            } else {
                Ok(())
            },
            final(self).entities@.dom() == old(self).entities@.dom(),
            forall|other: SceneExtensionEntity|
                #![trigger final(self).entities@[other]]
                old(self).alive(other) ==> final(self).entities@[other]@ == if result is Ok
                    && other == entity {
                    old(self).entities@[other]@.filter(|k: u64| k != ty.key)
                } else {
                    old(self).entities@[other]@
                },
    {
        match self.entities.get(entity) {
            Some(components) => {
                if !has_component(components, ty.key) {
                    return Err(component_missing(ty.name));
                }
                let fewer: Vec<u64> = without_component(components, ty.key);
                self.entities.set(entity, fewer);
                assert(self.entities@.dom() =~= old(self).entities@.dom());
                Ok(())
            },
            None => Err(SceneDataError::InvalidEntity),
        }
    }

    /// Puts a CPU-only component on a fresh entity.
    pub fn insert_cpu(&mut self, entity: SceneExtensionEntity, ty: &ComponentType) -> (result: Result<
        SceneExtensionEntity,
        SceneDataError,
    >)
        requires
            old(self).wf(),
            !old(self).entities.occupies(entity.0.index),
            entity.0.index < usize::MAX,
            old(self).entities.spec_len() < u32::MAX,
        ensures
            final(self).wf(),
            final(self).subsystems == old(self).subsystems,
            old(self).inserted(
                final(self),
                entity,
                ty,
                ExtensionComponentPolicy::CpuOnly,
                result,
            ),
    {
        self.insert_component(entity, ty, ExtensionComponentPolicy::CpuOnly)
    }

    /// Adds a CPU-only component to a live entity that lacks it.
    pub fn add_cpu(&mut self, entity: SceneExtensionEntity, ty: &ComponentType) -> (result: Result<
        (),
        SceneDataError,
    >)
        requires
            old(self).wf(),
        ensures
            final(self).wf(),
            final(self).subsystems == old(self).subsystems,
            old(self).added(final(self), entity, ty, ExtensionComponentPolicy::CpuOnly, result),
    {
        self.add_component(entity, ty, ExtensionComponentPolicy::CpuOnly)
    }

    /// Puts a component whose columns follow every change on a fresh entity.
    pub fn insert_gpu(&mut self, entity: SceneExtensionEntity, ty: &ComponentType) -> (result: Result<
        SceneExtensionEntity,
        SceneDataError,
    >)
        requires
            old(self).wf(),
            !old(self).entities.occupies(entity.0.index),
            entity.0.index < usize::MAX,
            old(self).entities.spec_len() < u32::MAX,
        ensures
            final(self).wf(),
            final(self).subsystems == old(self).subsystems,
            old(self).inserted(
                final(self),
                entity,
                ty,
                ExtensionComponentPolicy::DirtyTracked,
                result,
            ),
    {
        self.insert_component(entity, ty, ExtensionComponentPolicy::DirtyTracked)
    }

    /// Adds a component whose columns follow every change to a live entity that lacks it.
    pub fn add_gpu(&mut self, entity: SceneExtensionEntity, ty: &ComponentType) -> (result: Result<
        (),
        SceneDataError,
    >)
        requires
            old(self).wf(),
        ensures
            final(self).wf(),
            final(self).subsystems == old(self).subsystems,
            old(self).added(final(self), entity, ty, ExtensionComponentPolicy::DirtyTracked, result),
    {
        self.add_component(entity, ty, ExtensionComponentPolicy::DirtyTracked)
    }

    /// Puts a component that is handed over once on a fresh entity.
    pub fn insert_once(&mut self, entity: SceneExtensionEntity, ty: &ComponentType) -> (result: Result<
        SceneExtensionEntity,
        SceneDataError,
    >)
        requires
            old(self).wf(),
            !old(self).entities.occupies(entity.0.index),
            entity.0.index < usize::MAX,
            old(self).entities.spec_len() < u32::MAX,
        ensures
            final(self).wf(),
            final(self).subsystems == old(self).subsystems,
            old(self).inserted(
                final(self),
                entity,
                ty,
                ExtensionComponentPolicy::Once,
                result,
            ),
    {
        self.insert_component(entity, ty, ExtensionComponentPolicy::Once)
    }

    /// Adds a component that is handed over once to a live entity that lacks it.
    pub fn add_once(&mut self, entity: SceneExtensionEntity, ty: &ComponentType) -> (result: Result<
        (),
        SceneDataError,
    >)
        requires
            old(self).wf(),
        ensures
            final(self).wf(),
            final(self).subsystems == old(self).subsystems,
            old(self).added(final(self), entity, ty, ExtensionComponentPolicy::Once, result),
    {
        self.add_component(entity, ty, ExtensionComponentPolicy::Once)
    }

    /// Puts a component with columns of both kinds on a fresh entity.
    pub fn insert_mixed(&mut self, entity: SceneExtensionEntity, ty: &ComponentType) -> (result: Result<
        SceneExtensionEntity,
        SceneDataError,
    >)
        requires
            old(self).wf(),
            !old(self).entities.occupies(entity.0.index),
            entity.0.index < usize::MAX,
            old(self).entities.spec_len() < u32::MAX,
        ensures
            final(self).wf(),
            final(self).subsystems == old(self).subsystems,
            old(self).inserted(
                final(self),
                entity,
                ty,
                ExtensionComponentPolicy::Mixed,
                result,
            ),
    {
        self.insert_component(entity, ty, ExtensionComponentPolicy::Mixed)
    }

    /// Adds a component with columns of both kinds to a live entity that lacks it.
    pub fn add_mixed(&mut self, entity: SceneExtensionEntity, ty: &ComponentType) -> (result: Result<
        (),
        SceneDataError,
    >)
        requires
            old(self).wf(),
        ensures
            final(self).wf(),
            final(self).subsystems == old(self).subsystems,
            old(self).added(final(self), entity, ty, ExtensionComponentPolicy::Mixed, result),
    {
        self.add_component(entity, ty, ExtensionComponentPolicy::Mixed)
    }

    /// Checks that a component may be edited as one of policy `CpuOnly`.
    pub fn edit_cpu(&mut self, entity: SceneExtensionEntity, ty: &ComponentType) -> (result: Result<
        (),
        SceneDataError,
    >)
        requires
            old(self).wf(),
        ensures
            final(self).wf(),
            final(self).subsystems == old(self).subsystems,
            result == old(self).edit_outcome(entity, ty, ExtensionComponentPolicy::CpuOnly),
            final(self).entities == old(self).entities,
            if old(self).alive(entity) {
                old(self).settles(final(self), ty, ExtensionComponentPolicy::CpuOnly)
            } else {
                final(self).policies == old(self).policies
            },
    {
        self.edit_component(entity, ty, ExtensionComponentPolicy::CpuOnly)
    }

    /// Checks that a component may be edited as one of policy `DirtyTracked`.
    pub fn edit_gpu(&mut self, entity: SceneExtensionEntity, ty: &ComponentType) -> (result: Result<
        (),
        SceneDataError,
    >)
        requires
            old(self).wf(),
        ensures
            final(self).wf(),
            final(self).subsystems == old(self).subsystems,
            result == old(self).edit_outcome(entity, ty, ExtensionComponentPolicy::DirtyTracked),
            final(self).entities == old(self).entities,
            if old(self).alive(entity) {
                old(self).settles(final(self), ty, ExtensionComponentPolicy::DirtyTracked)
            } else {
                final(self).policies == old(self).policies
            },
    {
        self.edit_component(entity, ty, ExtensionComponentPolicy::DirtyTracked)
    }
}

/// A type whose policy is established is judged by that policy alone from then on.
pub proof fn lemma_settled_policy_is_final(
    before: SceneData,
    after: SceneData,
    ty: &ComponentType,
    expected: ExtensionComponentPolicy,
    asked: ExtensionComponentPolicy,
)
    requires
        before.wf(),
        after.wf(),
        before.verdict(ty, expected) is Ok,
        before.settles(&after, ty, expected),
    ensures
        after.settled(ty.key),
        after.policy(ty) == expected,
        after.verdict(ty, asked) is Ok <==> asked == expected,
{
    if before.settled(ty.key) {
        let i = choose|i: int|
            0 <= i < before.policies@.len() && (#[trigger] before.policies@[i]).key == ty.key;
        assert(after.policies@[i].key == ty.key);
        let k = choose|k: int|
            0 <= k < after.policies@.len() && (#[trigger] after.policies@[k]).key == ty.key;
        assert(k == i);
    } else {
        let n = before.policies@.len() as int;
        assert(after.policies@[n].key == ty.key);
        let k = choose|k: int|
            0 <= k < after.policies@.len() && (#[trigger] after.policies@[k]).key == ty.key;
        assert(k == n);
    }
}

} // verus!
