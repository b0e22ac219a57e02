//! Reading application data: which entities carry a component, and which GPU column of
//! a component a name means.
use vstd::prelude::*;

use crate::extension::{ExtensionSubsystemStore, SceneData, SceneDataError};
use crate::handles::SceneExtensionEntity;

verus! {

/// One GPU column of a component.
#[derive(Debug)]
pub struct GpuColumn {
    /// Field that the column mirrors.
    pub field: String,
    /// Explicit name of its buffer, which survives a renamed field.
    pub buffer_key: Option<String>,
    /// Identity of the column in the store.
    pub token: u64,
}

impl GpuColumn {
    pub open spec fn keyed(&self, key: Seq<char>) -> bool {
        self.buffer_key matches Some(own) && own@ == key
    }

    pub open spec fn mirrors(&self, field: Seq<char>) -> bool {
        self.field@ == field
    }
}

/// Column `i` is the first whose buffer is named `key`.
pub open spec fn first_keyed(columns: Seq<GpuColumn>, key: Seq<char>, i: int) -> bool {
    &&& 0 <= i < columns.len()
    &&& columns[i].keyed(key)
    &&& forall|j: int| 0 <= j < i ==> !(#[trigger] columns[j]).keyed(key)
}

/// Column `i` is the first that mirrors `field`.
pub open spec fn first_mirroring(columns: Seq<GpuColumn>, field: Seq<char>, i: int) -> bool {
    &&& 0 <= i < columns.len()
    &&& columns[i].mirrors(field)
    &&& forall|j: int| 0 <= j < i ==> !(#[trigger] columns[j]).mirrors(field)
}

fn find_buffer(list: &Vec<GpuColumn>, key: &String) -> (token: Option<u64>)
    ensures
        match token {
            Some(found) => exists|i: int| #[trigger]
                first_keyed(list@, key@, i) && list@[i].token == found,
            None => forall|i: int| 0 <= i < list@.len() ==> !(#[trigger] list@[i]).keyed(key@),
        },
{
    let mut i: usize = 0;
    while i < list.len()
        invariant
            0 <= i <= list@.len(),
            forall|j: int| 0 <= j < i ==> !(#[trigger] list@[j]).keyed(key@),
        decreases list@.len() - i,
    {
        let same: bool = match &list[i].buffer_key {
            Some(own) => *own == *key,
            None => false,
        };
        if same {
            assert(first_keyed(list@, key@, i as int));
            return Some(list[i].token);
        }
        i = i + 1;
    }
    None
}

/// The column of a component whose buffer is named `key`. A component that was not
/// registered has no columns, so no name leads to the buffer of another component.
pub fn buffer(columns: Option<&Vec<GpuColumn>>, key: &String) -> (token: Option<u64>)
    ensures
        match columns {
            Some(list) => match token {
                Some(found) => exists|i: int| #[trigger]
                    first_keyed(list@, key@, i) && list@[i].token == found,
                None => forall|i: int|
                    0 <= i < list@.len() ==> !(#[trigger] list@[i]).keyed(key@),
            },
            None => token is None,
        },
{
    match columns {
        Some(list) => find_buffer(list, key),
        None => None,
    }
}

fn find_field_buffer(list: &Vec<GpuColumn>, field: &String) -> (token: Option<u64>)
    ensures
        match token {
            Some(found) => exists|i: int| #[trigger]
                first_mirroring(list@, field@, i) && list@[i].token == found,
            None => forall|i: int| 0 <= i < list@.len() ==> !(#[trigger] list@[i]).mirrors(field@),
        },
{
    let mut i: usize = 0;
    while i < list.len()
        invariant
            0 <= i <= list@.len(),
            forall|j: int| 0 <= j < i ==> !(#[trigger] list@[j]).mirrors(field@),
        decreases list@.len() - i,
    {
        if list[i].field == *field {
            assert(first_mirroring(list@, field@, i as int));
            return Some(list[i].token);
        }
        i = i + 1;
    }
    None
}

/// The column of a component that mirrors `field`.
pub fn field_buffer(columns: Option<&Vec<GpuColumn>>, field: &String) -> (token: Option<u64>)
    ensures
        match columns {
            Some(list) => match token {
                Some(found) => exists|i: int| #[trigger]
                    first_mirroring(list@, field@, i) && list@[i].token == found,
                None => forall|i: int|
                    0 <= i < list@.len() ==> !(#[trigger] list@[i]).mirrors(field@),
            },
            None => token is None,
        },
{
    match columns {
        Some(list) => find_field_buffer(list, field),
        None => None,
    }
}

/// The entities among `ids` whose components, in the same order, hold `key`.
pub open spec fn carriers(
    ids: Seq<SceneExtensionEntity>,
    components: Seq<Vec<u64>>,
    key: u64,
) -> Seq<SceneExtensionEntity>
    decreases ids.len(),
{
    if ids.len() == 0 || components.len() == 0 {
        Seq::empty()
    } else {
        let rest = carriers(ids.drop_last(), components.drop_last(), key);
        if components.last()@.contains(key) {
            rest.push(ids.last())
        } else {
            rest
        }
    }
}

fn holds(components: &Vec<u64>, key: u64) -> (found: bool)
    ensures
        found == components@.contains(key),
{
    let mut i: usize = 0;
    while i < components.len()
        invariant
            0 <= i <= components@.len(),
            forall|j: int| 0 <= j < i ==> components@[j] != key,
        decreases components@.len() - i,
    {
        if components[i] == key {
            assert(components@[i as int] == key);
            return true;
        }
        i = i + 1;
    }
    false
}

impl SceneData {
    /// Whether a live entity carries the component `key`.
    pub fn has(&self, entity: SceneExtensionEntity, key: u64) -> (found: bool)
        requires
            self.wf(),
        ensures
            found == self.carries(entity, key),
    {
        match self.entities.get(entity) {
            Some(components) => holds(components, key),
            None => false,
        }
    }

    /// The entities that carry the component `key`.
    pub fn query(&self, key: u64) -> (list: Vec<SceneExtensionEntity>)
        requires
            self.wf(),
        ensures
            list@ == carriers(self.entities.id_by_slot@, self.entities.value_by_slot@, key),
    {
        let ghost ids = self.entities.id_by_slot@;
        let ghost values = self.entities.value_by_slot@;
        let mut list: Vec<SceneExtensionEntity> = Vec::new();
        let mut i: usize = 0;
        while i < self.entities.id_by_slot.len()
            invariant
                self.wf(),
                ids == self.entities.id_by_slot@,
                values == self.entities.value_by_slot@,
                ids.len() == values.len(),
                0 <= i <= ids.len(),
                list@ == carriers(ids.take(i as int), values.take(i as int), key),
            decreases ids.len() - i,
        {
            proof {
                assert(ids.take(i + 1).drop_last() =~= ids.take(i as int));
                assert(values.take(i + 1).drop_last() =~= values.take(i as int));
                assert(values.take(i + 1).last() == values[i as int]);
                assert(ids.take(i + 1).last() == ids[i as int]);
            }
            if holds(&self.entities.value_by_slot[i], key) {
                list.push(self.entities.id_by_slot[i]);
            }
            i = i + 1;
        }
        assert(ids.take(i as int) =~= ids);
        assert(values.take(i as int) =~= values);
        list
    }

    /// The row that the store keeps for a component of an extension entity. What is not
    /// an extension entity has none, whatever the store keeps for it.
    pub fn gpu_row(&self, entity: SceneExtensionEntity, stored: Option<u32>) -> (row: Option<u32>)
        requires
            self.wf(),
        ensures
            row == if self.alive(entity) {
                stored
            } else {
                None::<u32>
            },
    {
        if self.is_alive(entity) {
            stored
        } else {
            None
        }
    }
}

impl<P> ExtensionSubsystemStore<P> {
    /// The payload of a subsystem, to change in place.
    pub fn edit_subsystem(&mut self, key: u64, name: &'static str) -> (result: Result<
        &mut P,
        SceneDataError,
    >)
        requires
            old(self).wf(),
        ensures
            final(self).wf(),
            match result {
                Ok(p) => {
                    &&& old(self)@.contains_key(key)
                    &&& *p == old(self)@[key]
                    &&& final(self)@ == old(self)@.insert(key, *final(p))
                },
                Err(e) => {
                    &&& !old(self)@.contains_key(key)
                    &&& e == (SceneDataError::SubsystemMissing { subsystem: name })
                    &&& *final(self) == *old(self)
                },
            },
    {
        match self.get_mut(key) {
            Some(payload) => Ok(payload),
            None => Err(SceneDataError::SubsystemMissing { subsystem: name }),
        }
    }
}

impl SceneData {
    /// The payload of a subsystem.
    pub fn get_subsystem(&self, key: u64) -> (payload: Option<&Vec<u8>>)
        requires
            self.wf(),
        ensures
            match payload {
                Some(p) => self.subsystems@.contains_key(key) && *p == self.subsystems@[key],
                None => !self.subsystems@.contains_key(key),
            },
    {
        self.subsystems.get(key)
    }

    /// Adds the payload of a subsystem; one that is there stays.
    pub fn insert_subsystem(&mut self, key: u64, name: &'static str, payload: Vec<u8>) -> (result:
        Result<(), SceneDataError>)
        requires
            old(self).wf(),
        ensures
            final(self).wf(),
            *final(self) == (SceneData { subsystems: final(self).subsystems, ..*old(self) }),
            if old(self).subsystems@.contains_key(key) {
                &&& result == Err::<(), _>(
                    SceneDataError::SubsystemAlreadyPresent { subsystem: name },
                )
                &&& final(self).subsystems@ == old(self).subsystems@
            } else {
                &&& result == Ok::<(), SceneDataError>(())
                &&& final(self).subsystems@ == old(self).subsystems@.insert(key, payload)
            },
    {
        self.subsystems.insert_subsystem(key, name, payload)
    }

    /// The payload of a subsystem, to change in place.
    pub fn edit_subsystem(&mut self, key: u64, name: &'static str) -> (result: Result<
        &mut Vec<u8>,
        SceneDataError,
    >)
        requires
            old(self).wf(),
        ensures
            final(self).wf(),
            *final(self) == (SceneData { subsystems: final(self).subsystems, ..*old(self) }),
            match result {
                Ok(p) => {
                    &&& old(self).subsystems@.contains_key(key)
                    &&& *p == old(self).subsystems@[key]
                    &&& final(self).subsystems@ == old(self).subsystems@.insert(key, *final(p))
                },
                Err(e) => {
                    &&& !old(self).subsystems@.contains_key(key)
                    &&& e == (SceneDataError::SubsystemMissing { subsystem: name })
                    &&& *final(self) == *old(self)
                },
            },
    {
        self.subsystems.edit_subsystem(key, name)
    }

    /// Takes the payload of a subsystem out.
    pub fn remove_subsystem(&mut self, key: u64, name: &'static str) -> (result: Result<
        Vec<u8>,
        SceneDataError,
    >)
        requires
            old(self).wf(),
        ensures
            final(self).wf(),
            *final(self) == (SceneData { subsystems: final(self).subsystems, ..*old(self) }),
            final(self).subsystems@ == old(self).subsystems@.remove(key),
            match result {
                Ok(p) => old(self).subsystems@.contains_key(key) && p
                    == old(self).subsystems@[key],
                Err(e) => !old(self).subsystems@.contains_key(key) && e == (
                SceneDataError::SubsystemMissing { subsystem: name }),
            },
    {
        self.subsystems.remove_subsystem(key, name)
    }
}

} // verus!
