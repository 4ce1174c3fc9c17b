//! The roster: every group of a run, under its identifier, in the order of
//! discovery.

use crate::group::{Group, GroupView};
use crate::ordered::{
    entries, has_key, map_get, map_get_index, map_get_mut, map_insert, map_len, map_new, position,
};
use indexmap::IndexMap;
use vstd::prelude::*;

verus! {

/// Whether some group of `s` goes by `id`.
pub open spec fn knows(s: Seq<(usize, GroupView)>, id: usize) -> bool {
    exists|i: int| 0 <= i < s.len() && (#[trigger] s[i]).0 == id
}

/// The position of the group that goes by `id`.
pub open spec fn slot(s: Seq<(usize, GroupView)>, id: usize) -> int {
    choose|i: int| 0 <= i < s.len() && (#[trigger] s[i]).0 == id
}

/// No identifier is used twice.
pub open spec fn distinct_ids(s: Seq<(usize, GroupView)>) -> bool {
    forall|i: int, j: int|
        0 <= i < s.len() && 0 <= j < s.len() && i != j ==> (#[trigger] s[i]).0 != (#[trigger] s[j]).0
}

/// Identifiers are distinct and every group is consistent in itself.
pub open spec fn roster_wf(s: Seq<(usize, GroupView)>) -> bool {
    &&& distinct_ids(s)
    &&& forall|i: int| 0 <= i < s.len() ==> (#[trigger] s[i]).1.wf()
}

/// With distinct identifiers, a group's identifier leads back to its
/// position.
pub proof fn lemma_slot_is_position(s: Seq<(usize, GroupView)>, i: int)
    requires
        distinct_ids(s),
        0 <= i < s.len(),
    ensures
        knows(s, s[i].0),
        slot(s, s[i].0) == i,
{
    let j = slot(s, s[i].0);
    assert(0 <= j < s.len() && s[j].0 == s[i].0);
}

/// The groups of a run in discovery order, each under its identifier.
pub struct Roster {
    map: IndexMap<usize, Group>,
}

pub open spec fn entry_view(p: (usize, Group)) -> (usize, GroupView) {
    (p.0, p.1@)
}

impl View for Roster {
    type V = Seq<(usize, GroupView)>;

    closed spec fn view(&self) -> Seq<(usize, GroupView)> {
        entries(self.map).map_values(|p: (usize, Group)| entry_view(p))
    }
}

impl Roster {
    pub open spec fn wf(&self) -> bool {
        roster_wf(self@)
    }

    /// A roster without groups.
    pub fn new() -> (r: Roster)
        ensures
            r@ == Seq::<(usize, GroupView)>::empty(),
            r.wf(),
    {
        let r = Roster { map: map_new() };
        assert(r@ =~= Seq::<(usize, GroupView)>::empty());
        r
    }

    /// The number of groups.
    pub fn len(&self) -> (n: usize)
        ensures
            n == self@.len(),
    {
        map_len(&self.map)
    }

    /// Whether a group goes by `id`.
    pub fn contains(&self, id: usize) -> (b: bool)
        ensures
            b == knows(self@, id),
    {
        let r = map_get(&self.map, id);
        proof {
            self.lemma_keys(id);
        }
        r.is_some()
    }

    /// Adds a group at the end, unless its identifier is taken: then nothing
    /// changes and the answer is `false`.
    pub fn enroll(&mut self, id: usize, group: Group) -> (added: bool)
        requires
            old(self).wf(),
            group@.wf(),
        ensures
            added == !knows(old(self)@, id),
            added ==> final(self)@ == old(self)@.push((id, group@)),
            !added ==> final(self)@ == old(self)@,
            final(self).wf(),
    {
        proof {
            self.lemma_keys(id);
        }
        if map_get(&self.map, id).is_some() {
            return false;
        }
        let ghost before = entries(self.map);
        map_insert(&mut self.map, id, group);
        proof {
            assert(entries(self.map) == before.push((id, group)));
            assert(self@ =~= old(self)@.push((id, group@)));
        }
        true
    }

    /// The group that goes by `id`, if there is one.
    pub fn get(&self, id: usize) -> (g: Option<&Group>)
        requires
            self.wf(),
        ensures
            g is Some <==> knows(self@, id),
            g is Some ==> g->0@ == self@[slot(self@, id)].1,
    {
        let g = map_get(&self.map, id);
        proof {
            self.lemma_keys(id);
            if g is Some {
                let i = position(entries(self.map), id);
                assert(self@[i] == (id, g->0@));
                lemma_slot_is_position(self@, i);
            }
        }
        g
    }

    /// The identifier and the group at a position.
    pub fn at(&self, index: usize) -> (e: (usize, &Group))
        requires
            index < self@.len(),
        ensures
            e.0 == self@[index as int].0,
            e.1@ == self@[index as int].1,
    {
        match map_get_index(&self.map, index) {
            Some((id, group)) => (*id, group),
            None => vstd::pervasive::unreached(),
        }
    }

    /// Counts one more finished file for the group that goes by `id`.
    pub(crate) fn record_progress(&mut self, id: usize, file: String)
        requires
            old(self).wf(),
            knows(old(self)@, id),
            !old(self)@[slot(old(self)@, id)].1.terminal(),
        ensures
            final(self)@ == old(self)@.update(
                slot(old(self)@, id),
                (id, old(self)@[slot(old(self)@, id)].1.advanced(file@)),
            ),
            final(self).wf(),
    {
        proof {
            self.lemma_keys(id);
        }
        let ghost before = entries(self.map);
        let r = map_get_mut(&mut self.map, id);
        let ghost i = position(before, id);
        proof {
            assert(old(self)@[i] == (id, before[i].1@));
            lemma_slot_is_position(old(self)@, i);
        }
        match r {
            Some(g) => {
                g.record_progress(file);
            },
            None => {},
        }
        proof {
            assert(self@ =~= old(self)@.update(i, (id, old(self)@[i].1.advanced(file@))));
        }
    }

    /// Notes a failure for the group that goes by `id`.
    pub(crate) fn record_failure(&mut self, id: usize, error: String)
        requires
            old(self).wf(),
            knows(old(self)@, id),
            !old(self)@[slot(old(self)@, id)].1.terminal(),
        ensures
            final(self)@ == old(self)@.update(
                slot(old(self)@, id),
                (id, old(self)@[slot(old(self)@, id)].1.failed(error@)),
            ),
            final(self).wf(),
    {
        proof {
            self.lemma_keys(id);
        }
        let ghost before = entries(self.map);
        let r = map_get_mut(&mut self.map, id);
        let ghost i = position(before, id);
        proof {
            assert(old(self)@[i] == (id, before[i].1@));
            lemma_slot_is_position(old(self)@, i);
        }
        match r {
            Some(g) => {
                g.record_failure(error);
            },
            None => {},
        }
        proof {
            assert(self@ =~= old(self)@.update(i, (id, old(self)@[i].1.failed(error@))));
        }
    }

    /// The map has a key exactly where the view has the identifier.
    proof fn lemma_keys(&self, id: usize)
        ensures
            has_key(entries(self.map), id) == knows(self@, id),
    {
        let e = entries(self.map);
        if has_key(e, id) {
            let i = choose|i: int| 0 <= i < e.len() && (#[trigger] e[i]).0 == id;
            assert(self@[i].0 == id);
        }
        if knows(self@, id) {
            let i = choose|i: int| 0 <= i < self@.len() && (#[trigger] self@[i]).0 == id;
            assert(e[i].0 == id);
        }
    }
}

} // verus!
