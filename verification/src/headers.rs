//! The header collection of a request or response: named values with unique
//! names, kept in insertion order, where inserting an existing name replaces
//! its value in place.
use vstd::prelude::*;

verus! {

/// The mapping a sequence of name/value pairs denotes, later pairs winning.
pub open spec fn map_of(s: Seq<(Seq<char>, Seq<char>)>) -> Map<Seq<char>, Seq<char>>
    decreases s.len(),
{
    if s.len() == 0 {
        Map::empty()
    } else {
        map_of(s.drop_last()).insert(s.last().0, s.last().1)
    }
}

pub proof fn lemma_map_of_domain(s: Seq<(Seq<char>, Seq<char>)>, k: Seq<char>)
    ensures
        map_of(s).contains_key(k) <==> exists|i: int| 0 <= i < s.len() && (#[trigger] s[i]).0 == k,
    decreases s.len(),
{
    if s.len() > 0 {
        lemma_map_of_domain(s.drop_last(), k);
        if map_of(s).contains_key(k) {
            if s.last().0 == k {
                assert(s[s.len() - 1].0 == k);
            } else {
                let i = choose|i: int| 0 <= i < s.drop_last().len() && (#[trigger] s.drop_last()[i]).0 == k;
                assert(s[i].0 == k);
            }
        } else {
            assert(forall|i: int| 0 <= i < s.len() - 1 ==> (#[trigger] s[i]) == s.drop_last()[i]);
        }
    }
}

/// With unique names, the pair holding a name gives its value in the map.
pub proof fn lemma_map_of_value(s: Seq<(Seq<char>, Seq<char>)>, i: int)
    requires
        0 <= i < s.len(),
        forall|p: int, q: int| 0 <= p < q < s.len() ==> (#[trigger] s[p]).0 != (#[trigger] s[q]).0,
    ensures
        map_of(s).contains_key(s[i].0),
        map_of(s)[s[i].0] == s[i].1,
    decreases s.len(),
{
    if i == s.len() - 1 {
        lemma_map_of_domain(s, s[i].0);
    } else {
        assert(s.drop_last()[i] == s[i]);
        lemma_map_of_value(s.drop_last(), i);
        assert(s.last().0 != s[i].0);
    }
}

/// No two pairs of the sequence share a name.
pub open spec fn unique_names(s: Seq<(Seq<char>, Seq<char>)>) -> bool {
    forall|p: int, q: int| 0 <= p < q < s.len() ==> (#[trigger] s[p]).0 != (#[trigger] s[q]).0
}

/// A set of headers: names with their values, names unique, order kept.
pub struct Headers {
    entries: Vec<(String, String)>,
}

impl Headers {
    /// The name/value pairs, in order.
    pub closed spec fn entries_view(&self) -> Seq<(Seq<char>, Seq<char>)> {
        Seq::new(self.entries@.len(), |i: int| (self.entries@[i].0@, self.entries@[i].1@))
    }

    /// The mapping from names to values.
    pub open spec fn as_map(&self) -> Map<Seq<char>, Seq<char>> {
        map_of(self.entries_view())
    }

    /// Names are unique.
    pub open spec fn wf(&self) -> bool {
        unique_names(self.entries_view())
    }

    /// Some pair holds this name.
    pub open spec fn has_name(&self, k: Seq<char>) -> bool {
        exists|i: int| 0 <= i < self.entries_view().len() && (#[trigger] self.entries_view()[i]).0 == k
    }

    pub fn new() -> (r: Headers)
        ensures
            r.wf(),
            r.entries_view() == Seq::<(Seq<char>, Seq<char>)>::empty(),
            r.as_map() == Map::<Seq<char>, Seq<char>>::empty(),
    {
        let r = Headers { entries: Vec::new() };
        proof {
            assert(r.entries_view() =~= Seq::<(Seq<char>, Seq<char>)>::empty());
        }
        r
    }

    pub fn len(&self) -> (r: usize)
        ensures
            r == self.entries_view().len(),
    {
        self.entries.len()
    }

    /// The pair at a position, name then value.
    pub fn entry_at(&self, i: usize) -> (r: (String, String))
        requires
            i < self.entries_view().len(),
        ensures
            (r.0@, r.1@) == self.entries_view()[i as int],
    {
        let p = &self.entries[i];
        (p.0.clone(), p.1.clone())
    }

    fn position_of(&self, name: &String) -> (r: Option<usize>)
        ensures
            match r {
                Some(i) => i < self.entries_view().len() && self.entries_view()[i as int].0
                    == name@,
                None => !self.has_name(name@),
            },
    {
        let mut i: usize = 0;
        while i < self.entries.len()
            invariant
                0 <= i <= self.entries_view().len(),
                forall|j: int| 0 <= j < i ==> (#[trigger] self.entries_view()[j]).0 != name@,
            decreases self.entries_view().len() - i,
        {
            if self.entries[i].0 == *name {
                return Some(i);
            }
            i += 1;
        }
        None
    }

    /// Stores a value under a name: a fresh name is appended, an existing one
    /// keeps its place and takes the new value.
    pub fn insert(&mut self, name: String, value: String)
        requires
            old(self).wf(),
        ensures
            final(self).wf(),
            final(self).as_map() == old(self).as_map().insert(name@, value@),
            !old(self).has_name(name@) ==> final(self).entries_view() == old(
                self,
            ).entries_view().push((name@, value@)),
            old(self).has_name(name@) ==> final(self).entries_view().len() == old(
                self,
            ).entries_view().len(),
    {
        let pos = self.position_of(&name);
        match pos {
            None => {
                let ghost pre = self.entries_view();
                self.entries.push((name, value));
                proof {
                    assert(self.entries_view() =~= pre.push((name@, value@)));
                    assert(self.entries_view().drop_last() =~= pre);
                    assert(forall|j: int|
                        0 <= j < pre.len() ==> (#[trigger] pre[j]).0 != name@) by {
                        lemma_map_of_domain(pre, name@);
                    }
                }
            },
            Some(i) => {
                let ghost pre = self.entries_view();
                self.entries.remove(i);
                self.entries.insert(i, (name, value));
                proof {
                    assert(self.entries_view() =~= pre.update(i as int, (name@, value@)));
                    lemma_map_of_update(pre, i as int, value@);
                }
            },
        }
    }

    /// The value stored under a name, if any.
    pub fn get(&self, name: &String) -> (r: Option<String>)
        requires
            self.wf(),
        ensures
            match r {
                Some(v) => self.as_map().contains_key(name@) && v@ == self.as_map()[name@],
                None => !self.as_map().contains_key(name@),
            },
    {
        proof {
            lemma_map_of_domain(self.entries_view(), name@);
        }
        match self.position_of(name) {
            Some(i) => {
                proof {
                    lemma_map_of_value(self.entries_view(), i as int);
                }
                Some(self.entries[i].1.clone())
            },
            None => None,
        }
    }

    /// Whether a value is stored under this name.
    pub fn contains_key(&self, name: &String) -> (r: bool)
        requires
            self.wf(),
        ensures
            r == self.as_map().contains_key(name@),
    {
        proof {
            lemma_map_of_domain(self.entries_view(), name@);
        }
        match self.position_of(name) {
            Some(_) => true,
            None => false,
        }
    }
}

/// Replacing the value of one pair replaces that name's value in the map,
/// provided names are unique.
proof fn lemma_map_of_update(s: Seq<(Seq<char>, Seq<char>)>, i: int, v: Seq<char>)
    requires
        0 <= i < s.len(),
        forall|p: int, q: int| 0 <= p < q < s.len() ==> (#[trigger] s[p]).0 != (#[trigger] s[q]).0,
    ensures
        map_of(s.update(i, (s[i].0, v))) == map_of(s).insert(s[i].0, v),
    decreases s.len(),
{
    let t = s.update(i, (s[i].0, v));
    if i == s.len() - 1 {
        assert(t.drop_last() =~= s.drop_last());
        assert(t.last() == (s[i].0, v));
        assert(map_of(t) =~= map_of(s).insert(s[i].0, v));
    } else {
        assert(t.drop_last() =~= s.drop_last().update(i, (s[i].0, v)));
        assert(s.drop_last()[i] == s[i]);
        lemma_map_of_update(s.drop_last(), i, v);
        assert(t.last() == s.last());
        assert(s.last().0 != s[i].0);
        assert(map_of(t) == map_of(s.drop_last()).insert(s[i].0, v).insert(s.last().0, s.last().1));
        assert(map_of(s.drop_last()).insert(s[i].0, v).insert(s.last().0, s.last().1) =~= map_of(
            s.drop_last(),
        ).insert(s.last().0, s.last().1).insert(s[i].0, v));
    }
}

} // verus!
