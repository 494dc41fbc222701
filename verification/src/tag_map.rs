//! The file-scoped mapping from tag name to finished statement group. Tags
//! are unique within one file; inserting an existing tag overwrites its group
//! (duplicate tag names across non-adjacent blocks: last wins).

use crate::sql_file::{QuerySet, QuerySetV};
use vstd::prelude::*;

verus! {

/// A mapping from tag name to its finished, hashed group of statements.
pub struct TagQueryMap {
    entries: Vec<(String, QuerySet)>,
}

impl View for TagQueryMap {
    type V = Map<Seq<char>, QuerySetV>;

    closed spec fn view(&self) -> Map<Seq<char>, QuerySetV> {
        entries_map(self.entries@)
    }
}

spec fn entries_map(es: Seq<(String, QuerySet)>) -> Map<Seq<char>, QuerySetV>
    decreases es.len(),
{
    if es.len() == 0 {
        Map::<Seq<char>, QuerySetV>::empty()
    } else {
        entries_map(es.drop_last()).insert(es.last().0@, es.last().1@)
    }
}

spec fn unique_keys(es: Seq<(String, QuerySet)>) -> bool {
    forall|i: int, j: int| 0 <= i < j < es.len() ==> es[i].0@ != es[j].0@
}

proof fn lemma_entries_map_dom(es: Seq<(String, QuerySet)>)
    ensures
        forall|k: Seq<char>|
            entries_map(es).contains_key(k) <==> (exists|i: int|
                0 <= i < es.len() && es[i].0@ == k),
        entries_map(es).dom().finite(),
    decreases es.len(),
{
    if es.len() == 0 {
    } else {
        lemma_entries_map_dom(es.drop_last());
        assert forall|k: Seq<char>| entries_map(es).contains_key(k) implies (exists|i: int|
            0 <= i < es.len() && es[i].0@ == k) by {
            if k == es.last().0@ {
                assert(es[es.len() - 1].0@ == k);
            } else {
                let i = choose|i: int| 0 <= i < es.drop_last().len() && es.drop_last()[i].0@ == k;
                assert(es[i].0@ == k);
            }
        }
        assert forall|k: Seq<char>|
            (exists|i: int| 0 <= i < es.len() && es[i].0@ == k) implies entries_map(
            es,
        ).contains_key(k) by {
            let i = choose|i: int| 0 <= i < es.len() && es[i].0@ == k;
            if i < es.len() - 1 {
                assert(es.drop_last()[i].0@ == k);
            }
        }
    }
}

proof fn lemma_entries_map_get(es: Seq<(String, QuerySet)>, i: int)
    requires
        unique_keys(es),
        0 <= i < es.len(),
    ensures
        entries_map(es).contains_key(es[i].0@),
        entries_map(es)[es[i].0@] == es[i].1@,
    decreases es.len(),
{
    lemma_entries_map_dom(es);
    if i == es.len() - 1 {
    } else {
        assert(unique_keys(es.drop_last()));
        assert(es.drop_last()[i] == es[i]);
        lemma_entries_map_get(es.drop_last(), i);
        assert(es.last().0@ != es[i].0@);
    }
}

proof fn lemma_entries_map_update(es: Seq<(String, QuerySet)>, i: int, e: (String, QuerySet))
    requires
        unique_keys(es),
        0 <= i < es.len(),
        es[i].0@ == e.0@,
    ensures
        entries_map(es.update(i, e)) == entries_map(es).insert(e.0@, e.1@),
    decreases es.len(),
{
    let up = es.update(i, e);
    if i == es.len() - 1 {
        assert(up.drop_last() =~= es.drop_last());
        assert(up.last() == e);
        assert(entries_map(es).insert(e.0@, e.1@) =~= entries_map(es.drop_last()).insert(
            e.0@,
            e.1@,
        ));
    } else {
        assert(unique_keys(es.drop_last()));
        assert(es.drop_last()[i] == es[i]);
        lemma_entries_map_update(es.drop_last(), i, e);
        assert(up.drop_last() =~= es.drop_last().update(i, e));
        assert(up.last() == es.last());
        assert(entries_map(up) == entries_map(es.drop_last()).insert(e.0@, e.1@).insert(
            es.last().0@,
            es.last().1@,
        ));
        assert(es.last().0@ != e.0@);
        assert(entries_map(es.drop_last()).insert(e.0@, e.1@).insert(es.last().0@, es.last().1@)
            =~= entries_map(es.drop_last()).insert(es.last().0@, es.last().1@).insert(
            e.0@,
            e.1@,
        ));
    }
}

proof fn lemma_entries_map_len(es: Seq<(String, QuerySet)>)
    requires
        unique_keys(es),
    ensures
        entries_map(es).dom().finite(),
        entries_map(es).len() == es.len(),
    decreases es.len(),
{
    lemma_entries_map_dom(es);
    if es.len() == 0 {
        assert(entries_map(es).dom() =~= Set::<Seq<char>>::empty());
    } else {
        assert(unique_keys(es.drop_last()));
        lemma_entries_map_len(es.drop_last());
        lemma_entries_map_dom(es.drop_last());
        assert(!entries_map(es.drop_last()).contains_key(es.last().0@)) by {
            if entries_map(es.drop_last()).contains_key(es.last().0@) {
                let i = choose|i: int|
                    0 <= i < es.drop_last().len() && es.drop_last()[i].0@ == es.last().0@;
                assert(es[i].0@ == es[es.len() - 1].0@);
            }
        }
        assert(entries_map(es).dom() =~= entries_map(es.drop_last()).dom().insert(es.last().0@));
    }
}

impl TagQueryMap {
    /// Tag names are unique across the stored entries.
    pub closed spec fn wf(&self) -> bool {
        unique_keys(self.entries@)
    }

    pub fn new() -> (r: TagQueryMap)
        ensures
            r.wf(),
            r@ == Map::<Seq<char>, QuerySetV>::empty(),
    {
        TagQueryMap { entries: Vec::new() }
    }

    /// Stores a group under a tag name; an existing group under the same name
    /// is overwritten (last wins).
    pub fn insert(&mut self, tag: String, query_set: QuerySet)
        requires
            old(self).wf(),
        ensures
            final (self).wf(),
            final (self)@ == old(self)@.insert(tag@, query_set@),
    {
        let ghost es0 = self.entries@;
        let n = self.entries.len();
        let mut i: usize = 0;
        while i < n
            invariant
                0 <= i <= n,
                n == es0.len(),
                self.entries@ == es0,
                unique_keys(es0),
                old(self)@ == entries_map(es0),
                forall|k: int| 0 <= k < i ==> es0[k].0@ != tag@,
            decreases n - i,
        {
            if crate::text::str_eq(self.entries[i].0.as_str(), tag.as_str()) {
                let ghost e = (tag, query_set);
                proof {
                    assert(es0[i as int].0@ == e.0@);
                    lemma_entries_map_update(es0, i as int, e);
                    assert forall|a: int, b: int| 0 <= a < b < es0.update(i as int, e).len()
                        implies es0.update(i as int, e)[a].0@ != es0.update(i as int, e)[b].0@ by {
                        if a == i {
                            assert(es0[b].0@ != es0[i as int].0@);
                        } else if b == i {
                            assert(es0[a].0@ != es0[i as int].0@);
                        } else {
                            assert(es0[a].0@ != es0[b].0@);
                        }
                    }
                }
                self.entries.remove(i);
                self.entries.insert(i, (tag, query_set));
                proof {
                    assert(self.entries@ =~= es0.update(i as int, e));
                }
                return ;
            }
            i = i + 1;
        }
        self.entries.push((tag, query_set));
        proof {
            assert(self.entries@.drop_last() =~= old(self).entries@);
            assert(final (self)@ == old(self)@.insert(tag@, query_set@));
        }
    }

    /// Looks up the group stored under a tag name.
    pub fn get<'a>(&'a self, tag: &str) -> (r: Option<&'a QuerySet>)
        requires
            self.wf(),
        ensures
            match r {
                Option::Some(q) => self@.contains_key(tag@) && q@ == self@[tag@],
                Option::None => !self@.contains_key(tag@),
            },
    {
        let n = self.entries.len();
        let mut i: usize = 0;
        while i < n
            invariant
                0 <= i <= n,
                self.wf(),
                n == self.entries@.len(),
                forall|k: int| 0 <= k < i ==> self.entries@[k].0@ != tag@,
            decreases n - i,
        {
            if crate::text::str_eq(self.entries[i].0.as_str(), tag) {
                proof {
                    lemma_entries_map_get(self.entries@, i as int);
                }
                return Some(&self.entries[i].1);
            }
            i = i + 1;
        }
        proof {
            lemma_entries_map_dom(self.entries@);
        }
        None
    }

    pub fn contains_key(&self, tag: &str) -> (r: bool)
        requires
            self.wf(),
        ensures
            r == self@.contains_key(tag@),
    {
        self.get(tag).is_some()
    }

    /// The number of distinct tags stored.
    pub fn len(&self) -> (r: usize)
        requires
            self.wf(),
        ensures
            r == self@.len(),
    {
        proof {
            lemma_entries_map_len(self.entries@);
        }
        self.entries.len()
    }
}

} // verus!
