//! What is remembered per session while the process runs.

use vstd::prelude::*;

use crate::strs;

verus! {

/// Values by session id; a later value replaces an earlier one.
#[derive(Debug)]
pub struct SessionCache<V> {
    pub slots: Vec<(String, V)>,
}

/// The map that a list of slots stands for.
pub open spec fn map_of<V>(slots: Seq<(Seq<char>, V)>) -> Map<Seq<char>, V>
    decreases slots.len(),
{
    if slots.len() == 0 {
        Map::empty()
    } else {
        map_of(slots.drop_last()).insert(slots.last().0, slots.last().1)
    }
}

impl<V: DeepView> View for SessionCache<V> {
    type V = Map<Seq<char>, <V as DeepView>::V>;

    open spec fn view(&self) -> Map<Seq<char>, <V as DeepView>::V> {
        map_of(self.slots.deep_view())
    }
}

/// What a map holds for a session, if anything.
pub open spec fn lookup<V>(map: Map<Seq<char>, V>, id: Seq<char>) -> Option<V> {
    if map.contains_key(id) {
        Some(map[id])
    } else {
        None
    }
}

impl<V: DeepView> SessionCache<V> {
    pub fn new() -> (cache: SessionCache<V>)
        ensures
            cache@ == Map::<Seq<char>, <V as DeepView>::V>::empty(),
    {
        let slots: Vec<(String, V)> = Vec::new();
        assert(slots.deep_view().len() == 0);
        SessionCache { slots }
    }

    pub fn get(&self, id: &str) -> (value: Option<&V>)
        ensures
            match value {
                Some(value) => lookup(self@, id@) == Some(value.deep_view()),
                None => lookup(self@, id@) is None,
            },
    {
        let ghost all = self.slots.deep_view();
        let mut i: usize = self.slots.len();
        proof {
            assert(all.take(i as int) =~= all);
        }
        while i > 0
            invariant
                i <= self.slots.len(),
                all == self.slots.deep_view(),
                lookup(map_of(all), id@) == lookup(map_of(all.take(i as int)), id@),
            decreases i,
        {
            proof {
                assert(all.take(i as int).drop_last() =~= all.take(i - 1));
                assert(all.take(i as int).last() == self.slots@[i - 1].deep_view());
            }
            if strs::same(self.slots[i - 1].0.as_str(), id) {
                return Some(&self.slots[i - 1].1);
            }
            i -= 1;
        }
        None
    }

    pub fn remove(&mut self, id: &str)
        ensures
            final(self)@ == old(self)@.remove(id@),
    {
        let mut slots: Vec<(String, V)> = Vec::new();
        std::mem::swap(&mut slots, &mut self.slots);
        let ghost all = slots.deep_view();
        assert(all == old(self).slots.deep_view());
        proof {
            assert(all.skip(0) =~= all);
            assert(self.slots.deep_view().len() == 0);
            assert(map_of(all.take(0)).remove(id@) =~= map_of(self.slots.deep_view()));
        }
        let mut done: usize = 0;
        let total = slots.len();
        while done < total
            invariant
                done <= total,
                total == all.len(),
                slots.deep_view() == all.skip(done as int),
                map_of(self.slots.deep_view()) == map_of(all.take(done as int)).remove(id@),
            decreases total - done,
        {
            let ghost before = self.slots.deep_view();
            proof {
                assert(slots.deep_view().len() == all.len() - done);
                assert(all.take(done as int + 1).drop_last() =~= all.take(done as int));
                assert(all.take(done as int + 1).last() == all[done as int]);
                assert(slots@[0].deep_view() == slots.deep_view()[0]);
            }
            let ghost whole = slots@;
            let ghost seen = slots.deep_view();
            let slot = slots.remove(0);
            proof {
                assert(slot == whole[0]);
                assert(slot.deep_view() == all[done as int]);
                assert forall|k: int| 0 <= k < slots@.len() implies (#[trigger] slots.deep_view()[k])
                    == all.skip(done as int + 1)[k] by {
                    assert(slots@[k] == whole[k + 1]);
                    assert(seen[k + 1] == whole[k + 1].deep_view());
                }
                assert(slots.deep_view() =~= all.skip(done as int + 1));
            }
            let ghost key = slot.deep_view().0;
            let ghost value = slot.deep_view().1;
            let ghost shorter = map_of(all.take(done as int));
            if strs::same(slot.0.as_str(), id) {
                proof {
                    assert(shorter.insert(key, value).remove(id@) =~= shorter.remove(id@));
                }
            } else {
                self.slots.push(slot);
                proof {
                    assert(self.slots.deep_view() =~= before.push((key, value)));
                    assert(self.slots.deep_view().drop_last() =~= before);
                    assert(shorter.insert(key, value).remove(id@) =~= shorter.remove(id@).insert(
                        key,
                        value,
                    ));
                }
            }
            done += 1;
        }
        proof {
            assert(all.take(total as int) =~= all);
        }
    }

    pub fn insert(&mut self, id: &str, value: V)
        ensures
            final(self)@ == old(self)@.insert(id@, value.deep_view()),
    {
        self.remove(id);
        let ghost before = self.slots.deep_view();
        let ghost given = value.deep_view();
        self.slots.push((id.to_owned(), value));
        proof {
            assert(self.slots.deep_view() =~= before.push((id@, given)));
            assert(self.slots.deep_view().drop_last() =~= before);
            assert(old(self)@.remove(id@).insert(id@, given) =~= old(self)@.insert(id@, given));
        }
    }
}

} // verus!
