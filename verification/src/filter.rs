//! Inclusion/exclusion filtering of envelopes by system and component id.

use vstd::prelude::*;

verus! {

/// Which envelopes the listener lets through, by system id and component id.
///
/// An empty include list admits every id; an exclude list always wins over
/// an include list; the system-level and the component-level check must both
/// pass.
pub struct FilterSpec {
    pub include_system_ids: Vec<u8>,
    pub exclude_system_ids: Vec<u8>,
    pub include_component_ids: Vec<u8>,
    pub exclude_component_ids: Vec<u8>,
}

/// One id passes one include/exclude pair: it is not excluded, and it is
/// included whenever the include list names any id at all.
pub open spec fn id_passes(includes: Seq<u8>, excludes: Seq<u8>, id: u8) -> bool {
    !excludes.contains(id) && (includes.len() == 0 || includes.contains(id))
}

impl FilterSpec {
    /// What the filter admits: both the system id and the component id pass
    /// their include/exclude pairs.
    pub open spec fn spec_included(self, system_id: u8, component_id: u8) -> bool {
        id_passes(self.include_system_ids@, self.exclude_system_ids@, system_id)
            && id_passes(self.include_component_ids@, self.exclude_component_ids@, component_id)
    }

    /// A filter that admits every envelope.
    pub fn accept_all() -> (f: FilterSpec)
        ensures
            f.include_system_ids@ =~= Seq::<u8>::empty(),
            f.exclude_system_ids@ =~= Seq::<u8>::empty(),
            f.include_component_ids@ =~= Seq::<u8>::empty(),
            f.exclude_component_ids@ =~= Seq::<u8>::empty(),
            forall|s: u8, c: u8| f.spec_included(s, c),
    {
        FilterSpec {
            include_system_ids: Vec::new(),
            exclude_system_ids: Vec::new(),
            include_component_ids: Vec::new(),
            exclude_component_ids: Vec::new(),
        }
    }

    pub fn new(
        include_system_ids: Vec<u8>,
        exclude_system_ids: Vec<u8>,
        include_component_ids: Vec<u8>,
        exclude_component_ids: Vec<u8>,
    ) -> (f: FilterSpec)
        ensures
            f.include_system_ids@ == include_system_ids@,
            f.exclude_system_ids@ == exclude_system_ids@,
            f.include_component_ids@ == include_component_ids@,
            f.exclude_component_ids@ == exclude_component_ids@,
    {
        FilterSpec {
            include_system_ids,
            exclude_system_ids,
            include_component_ids,
            exclude_component_ids,
        }
    }

    /// Exclude checks come first, then include checks; system and component
    /// level are both required.
    pub fn included(&self, system_id: u8, component_id: u8) -> (r: bool)
        ensures
            r == self.spec_included(system_id, component_id),
    {
        if id_list_contains(&self.exclude_system_ids, system_id) {
            return false;
        }
        if self.include_system_ids.len() > 0 && !id_list_contains(
            &self.include_system_ids,
            system_id,
        ) {
            return false;
        }
        if id_list_contains(&self.exclude_component_ids, component_id) {
            return false;
        }
        if self.include_component_ids.len() > 0 && !id_list_contains(
            &self.include_component_ids,
            component_id,
        ) {
            return false;
        }
        true
    }
}

/// Whether a list of ids names the given id.
pub fn id_list_contains(ids: &Vec<u8>, id: u8) -> (r: bool)
    ensures
        r == ids@.contains(id),
{
    let mut i: usize = 0;
    while i < ids.len()
        invariant
            i <= ids@.len(),
            forall|j: int| 0 <= j < i ==> ids@[j] != id,
        decreases ids@.len() - i,
    {
        if ids[i] == id {
            return true;
        }
        i = i + 1;
    }
    false
}

} // verus!
