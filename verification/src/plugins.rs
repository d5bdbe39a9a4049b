//! The protocol between the host and a running plugin.
//!
//! While a plugin parses, it pulls the input one character at a time and
//! builds sections through handles. [`PluginState`] is what the host keeps for
//! one such run: the input and the table of the sections that are still
//! addressed by a handle. Every operation that the plugin may call is a
//! method here, and each says exactly when it is refused.
use crate::sections::{record, with_value, MultiSection};
use crate::table::{
    table_delete, table_get, table_get_mut, table_has_room, table_is_flat, table_new, table_push,
    table_sections,
};
use vstd::prelude::*;
use wasmtime::component::ResourceTable;

verus! {

/// A section whose values are text, as a plugin reports them.
pub type SectionStr = MultiSection<String>;

/// Why a parse was given up. None of them is recovered from: the run ends and
/// no part of a tree is handed out.
#[derive(Debug, Clone, Copy, PartialEq, Eq)]
pub enum PluginError {
    /// The plugin's binary is missing or malformed, or did not compile.
    PluginLoad,
    /// The compiled plugin does not import and export what the host expects.
    Instantiation,
    /// A handle was used that addresses no section: never given out, already
    /// attached, or already released.
    HandleInvalid,
    /// A section was to be attached to itself.
    SelfAttach,
    /// The plugin trapped or ended abnormally.
    SandboxFault,
    /// The table has no room for another section.
    TableFull,
}

/// What a read gives when `consumed` characters of `input` are gone: the next
/// character, or nothing at the end.
pub open spec fn stream_item(input: Seq<char>, consumed: nat) -> Option<char> {
    if consumed < input.len() {
        Some(input[consumed as int])
    } else {
        None
    }
}

/// How many characters are gone after one more read. At the end a read
/// consumes nothing.
pub open spec fn stream_advance(input: Seq<char>, consumed: nat) -> nat {
    if consumed < input.len() {
        consumed + 1
    } else {
        consumed
    }
}

/// How many characters are gone after `reads` reads of a fresh stream.
pub open spec fn consumed_after(input: Seq<char>, reads: nat) -> nat
    decreases reads,
{
    if reads == 0 {
        0
    } else {
        stream_advance(input, consumed_after(input, (reads - 1) as nat))
    }
}

/// Reading a fresh stream gives its characters in order, one for each read,
/// and from then on the end of the stream, however often it is read.
pub proof fn lemma_stream_exhaustion(input: Seq<char>, reads: nat)
    ensures
        reads <= input.len() ==> consumed_after(input, reads) == reads,
        reads >= input.len() ==> consumed_after(input, reads) == input.len(),
        reads < input.len() ==> stream_item(input, consumed_after(input, reads)) == Some(
            input[reads as int],
        ),
        reads >= input.len() ==> stream_item(input, consumed_after(input, reads)) == None::<char>,
    decreases reads,
{
    if reads > 0 {
        lemma_stream_exhaustion(input, (reads - 1) as nat);
    }
}

/// Whether an operation on one section is accepted, given the handles that
/// are live: it is, exactly when the handle is one of them.
pub open spec fn handle_verdict(live: Set<u32>, handle: u32) -> Result<(), PluginError> {
    if live.contains(handle) {
        Ok(())
    } else {
        Err(PluginError::HandleInvalid)
    }
}

/// Whether attaching `child` under `parent` is accepted. Both handles must be
/// live; two live handles that are the same ask for a section to be attached
/// to itself.
pub open spec fn attach_verdict(live: Set<u32>, parent: u32, child: u32) -> Result<
    (),
    PluginError,
> {
    if !live.contains(parent) || !live.contains(child) {
        Err(PluginError::HandleInvalid)
    } else if parent == child {
        Err(PluginError::SelfAttach)
    } else {
        Ok(())
    }
}

/// Once a section has been attached, its handle is refused by every
/// operation, whether it is named as the section to change, as a parent or as
/// a child.
pub proof fn lemma_attached_handle_is_refused(live: Set<u32>, parent: u32, child: u32, other: u32)
    requires
        attach_verdict(live, parent, child) is Ok,
    ensures
        handle_verdict(live.remove(child), child) == Err::<(), PluginError>(
            PluginError::HandleInvalid,
        ),
        attach_verdict(live.remove(child), child, other) == Err::<(), PluginError>(
            PluginError::HandleInvalid,
        ),
        attach_verdict(live.remove(child), other, child) == Err::<(), PluginError>(
            PluginError::HandleInvalid,
        ),
{
}

/// Attaching the section of a live handle to itself is refused as such.
pub proof fn lemma_self_attach_is_refused(live: Set<u32>, handle: u32)
    requires
        live.contains(handle),
    ensures
        attach_verdict(live, handle, handle) == Err::<(), PluginError>(PluginError::SelfAttach),
{
}

/// The table `after` is the table `before` with `value` appended to what the
/// section under `handle` holds for `key`; nothing else differs.
pub open spec fn field_added(
    before: Map<u32, SectionStr>,
    after: Map<u32, SectionStr>,
    handle: u32,
    key: Seq<char>,
    value: String,
) -> bool {
    &&& after == before.insert(handle, after[handle])
    &&& after[handle].fields() == with_value(before[handle].fields(), key, value)
    &&& after[handle].subsections() == before[handle].subsections()
}

/// The table `after` is the table `before` with the section under `child`
/// taken out of it and appended to the subsections that the section under
/// `parent` holds for `key`; nothing else differs.
pub open spec fn section_attached(
    before: Map<u32, SectionStr>,
    after: Map<u32, SectionStr>,
    parent: u32,
    key: Seq<char>,
    child: u32,
) -> bool {
    &&& after == before.remove(child).insert(parent, after[parent])
    &&& after[parent].fields() == before[parent].fields()
    &&& after[parent].subsections() == with_value(
        before[parent].subsections(),
        key,
        before[child],
    )
}

/// An attached section is in one place only: it is the last subsection under
/// its key in its parent, as it was when it left the table, and no handle
/// addresses it any more. Every other section is where and what it was.
pub proof fn lemma_attached_section_has_one_owner(
    before: Map<u32, SectionStr>,
    after: Map<u32, SectionStr>,
    parent: u32,
    key: Seq<char>,
    child: u32,
)
    requires
        attach_verdict(before.dom(), parent, child) is Ok,
        section_attached(before, after, parent, key, child),
    ensures
        !after.contains_key(child),
        after.contains_key(parent),
        after[parent].subsections().contains_key(key),
        after[parent].subsections()[key].len() > 0,
        after[parent].subsections()[key].last() == before[child],
        forall|h: u32|
            h != parent && h != child ==> after.contains_key(h) == before.contains_key(h)
                && after[h] == before[h],
{
}

/// What the host keeps for one run of a plugin.
pub struct PluginState {
    table: ResourceTable,
    file: Vec<char>,
    read: usize,
}

impl PluginState {
    /// The sections that a handle addresses, by handle.
    pub closed spec fn sections(self) -> Map<u32, SectionStr> {
        table_sections(self.table)
    }

    /// The handles that address a section.
    pub open spec fn live(self) -> Set<u32> {
        self.sections().dom()
    }

    /// The whole input of the run.
    pub closed spec fn input(self) -> Seq<char> {
        self.file@
    }

    /// How many characters of the input the plugin has read.
    pub closed spec fn consumed(self) -> nat {
        self.read as nat
    }

    /// The table can take one more section.
    pub closed spec fn has_room(self) -> bool {
        table_has_room(self.table)
    }

    /// The table is one that only this library has filled.
    pub closed spec fn table_ok(self) -> bool {
        table_is_flat(self.table)
    }

    /// The state is sound: the table is the library's own, the plugin has not
    /// read past the end, and each section in the table is well formed.
    pub open spec fn wf(self) -> bool {
        &&& self.table_ok()
        &&& self.consumed() <= self.input().len()
        &&& forall|h: u32| self.live().contains(h) ==> (#[trigger] self.sections()[h]).wf()
    }

    /// The state at the start of a run: nothing read, no section.
    pub fn new(file: Vec<char>) -> (r: Self)
        ensures
            r.wf(),
            r.has_room(),
            r.input() == file@,
            r.consumed() == 0,
            r.sections() == Map::<u32, SectionStr>::empty(),
    {
        let r = PluginState { table: table_new(), file, read: 0 };
        assert(r.sections() =~= Map::<u32, SectionStr>::empty());
        r
    }

    /// Hands the plugin the next character of the input, or `None` once the
    /// input is used up.
    pub fn next_char(&mut self) -> (r: Option<char>)
        requires
            old(self).wf(),
        ensures
            final(self).wf(),
            r == stream_item(old(self).input(), old(self).consumed()),
            final(self).consumed() == stream_advance(old(self).input(), old(self).consumed()),
            final(self).input() == old(self).input(),
            final(self).sections() == old(self).sections(),
            final(self).has_room() == old(self).has_room(),
    {
        let r = if self.read < self.file.len() {
            let c = self.file[self.read];
            self.read = self.read + 1;
            Some(c)
        } else {
            None
        };
        proof {
            assert forall|h: u32| self.live().contains(h) implies (
            #[trigger] self.sections()[h]).wf() by {
                assert(old(self).sections()[h].wf());
            }
        }
        r
    }

    /// Puts an empty section into the table and returns its handle, which was
    /// not live before. It is refused exactly when the table has no room.
    pub fn new_section(&mut self) -> (r: Result<u32, PluginError>)
        requires
            old(self).wf(),
        ensures
            final(self).wf(),
            final(self).input() == old(self).input(),
            final(self).consumed() == old(self).consumed(),
            r is Ok <==> old(self).has_room(),
            match r {
                Ok(handle) => {
                    &&& !old(self).live().contains(handle)
                    &&& final(self).sections() == old(self).sections().insert(
                        handle,
                        final(self).sections()[handle],
                    )
                    &&& final(self).sections()[handle].fields() == Map::<
                        Seq<char>,
                        Seq<String>,
                    >::empty()
                    &&& final(self).sections()[handle].subsections() == Map::<
                        Seq<char>,
                        Seq<SectionStr>,
                    >::empty()
                },
                Err(e) => e == PluginError::TableFull && final(self).sections() == old(self).sections() && !final(self).has_room(),
            },
    {
        let section: SectionStr = MultiSection::new();
        let r = match table_push(&mut self.table, section) {
            Ok(handle) => Ok(handle),
            Err(_) => Err(PluginError::TableFull),
        };
        proof {
            assert forall|h: u32| self.live().contains(h) implies (
            #[trigger] self.sections()[h]).wf() by {
                if old(self).live().contains(h) {
                    assert(old(self).sections()[h].wf());
                }
            }
        }
        r
    }

    /// Appends `val` to what the section under `sec` holds for `key`.
    pub fn add_field(&mut self, sec: u32, key: String, val: String) -> (r: Result<
        (),
        PluginError,
    >)
        requires
            old(self).wf(),
        ensures
            final(self).wf(),
            final(self).input() == old(self).input(),
            final(self).consumed() == old(self).consumed(),
            final(self).has_room() == old(self).has_room(),
            r == handle_verdict(old(self).live(), sec),
            r is Err ==> final(self).sections() == old(self).sections(),
            r is Ok ==> field_added(old(self).sections(), final(self).sections(), sec, key@, val),
    {
        match table_get_mut(&mut self.table, sec) {
            Ok(section) => {
                assert(section.wf());
                record(&mut section.keys, key, val);
                Ok(())
            },
            Err(_) => Err(PluginError::HandleInvalid),
        }
    }

    /// Moves the section under `val` out of the table and appends it to the
    /// subsections that the section under `sec` holds for `key`. The handle
    /// `val` is dead from then on.
    pub fn add_section(&mut self, sec: u32, key: String, val: u32) -> (r: Result<(), PluginError>)
        requires
            old(self).wf(),
        ensures
            final(self).wf(),
            final(self).input() == old(self).input(),
            final(self).consumed() == old(self).consumed(),
            r == attach_verdict(old(self).live(), sec, val),
            r is Err ==> final(self).sections() == old(self).sections() && final(self).has_room()
                == old(self).has_room(),
            r is Ok ==> final(self).has_room(),
            r is Ok ==> final(self).live() == old(self).live().remove(val),
            r is Ok ==> section_attached(
                old(self).sections(),
                final(self).sections(),
                sec,
                key@,
                val,
            ),
    {
        let parent_live = table_get(&self.table, sec).is_ok();
        let child_live = table_get(&self.table, val).is_ok();
        if !parent_live || !child_live {
            return Err(PluginError::HandleInvalid);
        }
        if sec == val {
            return Err(PluginError::SelfAttach);
        }
        match table_delete(&mut self.table, val) {
            Ok(child) => {
                assert(child.wf());
                match table_get_mut(&mut self.table, sec) {
                    Ok(parent) => {
                        assert(parent.wf());
                        record(&mut parent.sec, key, child);
                        Ok(())
                    },
                    Err(_) => Err(PluginError::HandleInvalid),
                }
            },
            Err(_) => Err(PluginError::HandleInvalid),
        }
    }

    /// Destroys the section under `sec`, with everything attached to it.
    pub fn release(&mut self, sec: u32) -> (r: Result<(), PluginError>)
        requires
            old(self).wf(),
        ensures
            final(self).wf(),
            final(self).input() == old(self).input(),
            final(self).consumed() == old(self).consumed(),
            r == handle_verdict(old(self).live(), sec),
            r is Err ==> final(self).sections() == old(self).sections(),
            r is Ok ==> final(self).sections() == old(self).sections().remove(sec),
            r is Ok || old(self).has_room() ==> final(self).has_room(),
    {
        match table_delete(&mut self.table, sec) {
            Ok(_) => Ok(()),
            Err(_) => Err(PluginError::HandleInvalid),
        }
    }

    /// Ends the run: takes the section under `root`, which the plugin named
    /// as its result, out of the table and discards the rest.
    pub fn finish(self, root: u32) -> (r: Result<SectionStr, PluginError>)
        requires
            self.wf(),
        ensures
            match r {
                Ok(tree) => self.live().contains(root) && tree == self.sections()[root]
                    && tree.wf(),
                Err(e) => !self.live().contains(root) && e == PluginError::HandleInvalid,
            },
    {
        let mut state = self;
        match table_delete(&mut state.table, root) {
            Ok(tree) => {
                assert(self.sections()[root].wf());
                Ok(tree)
            },
            Err(_) => Err(PluginError::HandleInvalid),
        }
    }
}

} // verus!
