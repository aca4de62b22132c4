//! The registry: sole owner of the buffers, each under an identifier of
//! its own.

use crate::buffer::{Buffer, BufferId};
use std::collections::hash_map::Entry;
use std::collections::HashMap;
use vstd::prelude::*;

verus! {

/// All buffers of an editor, and the counter that names them. Panels
/// refer to a buffer by its identifier only.
#[derive(Debug, Clone)]
pub struct BufferRegistry {
    counter: usize,
    buffers: HashMap<usize, Buffer>,
}

impl View for BufferRegistry {
    type V = Map<BufferId, Seq<Seq<char>>>;

    /// The lines of every buffer, by identifier.
    closed spec fn view(&self) -> Map<BufferId, Seq<Seq<char>>> {
        Map::new(
            |id: BufferId| self.buffers@.contains_key(id.0),
            |id: BufferId| self.buffers@[id.0]@,
        )
    }
}

impl BufferRegistry {
    /// The invariant of a registry: every buffer is well formed, and every
    /// identifier in use was handed out before the counter's present value.
    pub closed spec fn wf(&self) -> bool {
        forall|k: usize| #[trigger]
            self.buffers@.contains_key(k) ==> k < self.counter && self.buffers@[k].wf()
    }

    /// The identifier that the next buffer will get.
    pub closed spec fn next_id(&self) -> BufferId {
        BufferId(self.counter)
    }

    /// The buffer held under `id`.
    pub closed spec fn buffer(&self, id: BufferId) -> Buffer {
        self.buffers@[id.0]
    }

    /// What `wf` says of the view: identifiers in use lie below the next
    /// one, and every buffer has at least one line, none wider than fits.
    pub proof fn lemma_wf(&self)
        requires
            self.wf(),
        ensures
            forall|id: BufferId| #[trigger]
                self@.contains_key(id) ==> {
                    &&& id.0 < self.next_id().0
                    &&& self.buffer(id).wf()
                    &&& self.buffer(id)@ == self@[id]
                    &&& self@[id].len() >= 1
                },
    {
        assert forall|id: BufferId| #[trigger] self@.contains_key(id) implies {
            &&& id.0 < self.next_id().0
            &&& self.buffer(id).wf()
            &&& self.buffer(id)@ == self@[id]
            &&& self@[id].len() >= 1
        } by {
            assert(self.buffers@.contains_key(id.0));
            self.buffers@[id.0].lemma_wf();
        }
    }

    /// A registry without buffers, whose first identifier is zero.
    pub fn new() -> (r: BufferRegistry)
        ensures
            r.wf(),
            r@ == Map::<BufferId, Seq<Seq<char>>>::empty(),
            r.next_id() == BufferId(0),
    {
        let r = BufferRegistry { counter: 0, buffers: HashMap::new() };
        assert(r@ =~= Map::<BufferId, Seq<Seq<char>>>::empty());
        r
    }

    /// Takes a buffer in and returns the identifier under which it is
    /// held from now on, one that was never in use before.
    pub fn insert(&mut self, buffer: Buffer) -> (id: BufferId)
        requires
            old(self).wf(),
            buffer.wf(),
            old(self).next_id().0 < usize::MAX,
        ensures
            final(self).wf(),
            id == old(self).next_id(),
            !old(self)@.contains_key(id),
            final(self)@ == old(self)@.insert(id, buffer@),
            final(self).next_id() == BufferId((id.0 + 1) as usize),
    {
        let id = BufferId::new(&mut self.counter);
        self.buffers.insert(id.0, buffer);
        assert(self@ =~= old(self)@.insert(id, buffer@));
        id
    }

    /// Tells whether a buffer is held under `id`.
    pub fn contains(&self, id: BufferId) -> (r: bool)
        ensures
            r == self@.contains_key(id),
    {
        self.buffers.contains_key(&id.0)
    }

    /// The buffer held under `id`.
    pub fn get(&self, id: BufferId) -> (r: Option<&Buffer>)
        ensures
            r is Some <==> self@.contains_key(id),
            r matches Some(b) ==> *b == self.buffer(id) && b@ == self@[id],
            self.wf() && r is Some ==> r->0.wf(),
    {
        self.buffers.get(&id.0)
    }

    /// The buffer held under `id`, to be changed in place. The registry
    /// stays well formed as long as the buffer does.
    pub fn get_mut(&mut self, id: BufferId) -> (r: Option<&mut Buffer>)
        ensures
            r is Some <==> old(self)@.contains_key(id),
            r matches Some(b) ==> {
                &&& *b == old(self).buffer(id)
                &&& b@ == old(self)@[id]
                &&& final(self)@ == old(self)@.insert(id, final(b)@)
                &&& final(self).next_id() == old(self).next_id()
                &&& old(self).wf() ==> b.wf()
                &&& old(self).wf() && final(b).wf() ==> final(self).wf()
            },
            r is None ==> {
                &&& final(self)@ == old(self)@
                &&& final(self).next_id() == old(self).next_id()
                &&& old(self).wf() ==> final(self).wf()
            },
    {
        if !self.buffers.contains_key(&id.0) {
            return None;
        }
        match self.buffers.entry(id.0) {
            Entry::Occupied(entry) => {
                let b = entry.into_mut();
                proof {
                    assert(old(self)@.insert(id, final(b)@) =~= Map::new(
                        |i: BufferId| old(self).buffers@.insert(id.0, *final(b)).contains_key(i.0),
                        |i: BufferId| old(self).buffers@.insert(id.0, *final(b))[i.0]@,
                    ));
                }
                Some(b)
            },
            Entry::Vacant(_) => None,
        }
    }
}

} // verus!
