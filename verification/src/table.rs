//! The table of live sections.
//!
//! The sections that a plugin is building live in the resource table of the
//! sandbox engine, under the handles that the plugin holds. This module
//! states what the table's operations do to the sections in it; nothing here
//! is proved, and everything else in the library is proved from it.
use crate::plugins::SectionStr;
use crate::sections::MultiSection;
use vstd::prelude::*;
use wasmtime::component::{Resource, ResourceTable, ResourceTableError};

verus! {

/// The engine's resource table, `wasmtime::component::ResourceTable`. What
/// it holds is seen only through [`table_sections`] and [`table_is_flat`].
#[verifier::external_type_specification]
#[verifier::external_body]
pub struct ExResourceTable(wasmtime::component::ResourceTable);

/// The table's error, `wasmtime::component::ResourceTableError`. The library
/// only tells success from failure and never looks inside.
#[verifier::external_type_specification]
#[verifier::external_body]
pub struct ExResourceTableError(wasmtime::component::ResourceTableError);

/// The sections that a table holds, each under the index of its entry. An
/// entry that holds a value of another type is not among them.
pub uninterp spec fn table_sections(table: ResourceTable) -> Map<u32, MultiSection<String>>;

/// No entry of the table has been made the child of another entry. Only the
/// table's `push_child` and `add_child` make one, and this library calls
/// neither.
pub uninterp spec fn table_is_flat(table: ResourceTable) -> bool;

/// The table can take one more entry: an entry has been freed and not taken
/// again, or the table has fewer entries than its capacity and than a handle
/// can number.
pub uninterp spec fn table_has_room(table: ResourceTable) -> bool;

/// `ResourceTable::new`: a table with no entry at all, made with a capacity
/// of a million entries.
#[verifier::external_body]
pub(crate) fn table_new() -> (r: ResourceTable)
    ensures
        table_sections(r).dom() == Set::<u32>::empty(),
        table_is_flat(r),
        table_has_room(r),
{
    ResourceTable::new()
}

/// `ResourceTable::push`: stores the section in an entry that was free, without
/// a parent, and returns the entry's index; or fails, exactly when the table
/// has no room, and changes nothing. The other entries stay as they are.
#[verifier::external_body]
pub(crate) fn table_push(table: &mut ResourceTable, section: SectionStr) -> (r: Result<
    u32,
    ResourceTableError,
>)
    ensures
        table_is_flat(*old(table)) ==> table_is_flat(*final(table)),
        r is Ok <==> table_has_room(*old(table)),
        r is Err ==> !table_has_room(*final(table)),
        match r {
            Ok(handle) => !table_sections(*old(table)).contains_key(handle) && table_sections(
                *final(table),
            ) == table_sections(*old(table)).insert(handle, section),
            Err(_) => table_sections(*final(table)) == table_sections(*old(table)),
        },
{
    match table.push(section) {
        Ok(resource) => Ok(resource.rep()),
        Err(e) => Err(e),
    }
}

/// `ResourceTable::get`: the section under `handle`. It fails exactly when
/// the entry is free or holds something that is not a section.
#[verifier::external_body]
pub(crate) fn table_get(table: &ResourceTable, handle: u32) -> (r: Result<
    &SectionStr,
    ResourceTableError,
>)
    ensures
        match r {
            Ok(section) => table_sections(*table).contains_key(handle) && *section
                == table_sections(*table)[handle],
            Err(_) => !table_sections(*table).contains_key(handle),
        },
{
    table.get(&Resource::new_own(handle))
}

/// `ResourceTable::get_mut`: the section under `handle`, to be changed in
/// place. What the caller leaves in it is what the table then holds under
/// `handle`; nothing else in the table changes. It fails exactly when the
/// entry is free or holds something that is not a section.
#[verifier::external_body]
pub(crate) fn table_get_mut(table: &mut ResourceTable, handle: u32) -> (r: Result<
    &mut SectionStr,
    ResourceTableError,
>)
    ensures
        table_is_flat(*old(table)) ==> table_is_flat(*final(table)),
        table_has_room(*final(table)) == table_has_room(*old(table)),
        match r {
            Ok(section) => table_sections(*old(table)).contains_key(handle) && *section
                == table_sections(*old(table))[handle] && table_sections(*final(table))
                == table_sections(*old(table)).insert(handle, *final(section)),
            Err(_) => !table_sections(*old(table)).contains_key(handle) && table_sections(
                *final(table),
            ) == table_sections(*old(table)),
        },
{
    table.get_mut(&Resource::new_own(handle))
}

/// `ResourceTable::delete`: frees the entry under `handle` and hands out the
/// section that it held; the other sections stay, and the freed entry is
/// room for one more. On failure no section has left the table. In a flat
/// table it fails only when the entry is free or holds something that is not
/// a section; an entry with children, which a flat table has none of, is
/// refused too.
#[verifier::external_body]
pub(crate) fn table_delete(table: &mut ResourceTable, handle: u32) -> (r: Result<
    SectionStr,
    ResourceTableError,
>)
    ensures
        table_is_flat(*old(table)) ==> table_is_flat(*final(table)),
        table_has_room(*old(table)) || r is Ok ==> table_has_room(*final(table)),
        match r {
            Ok(section) => table_sections(*old(table)).contains_key(handle) && section
                == table_sections(*old(table))[handle] && table_sections(*final(table))
                == table_sections(*old(table)).remove(handle),
            Err(_) => table_sections(*final(table)) == table_sections(*old(table)) && (
            table_is_flat(*old(table)) ==> !table_sections(*old(table)).contains_key(handle)),
        },
{
    table.delete(Resource::new_own(handle))
}

} // verus!
