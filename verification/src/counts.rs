use vstd::prelude::*;

verus! {

/// The map that a list of (name, count) entries stands for: a later entry for
/// a name overrides an earlier one.
pub open spec fn entries_map(s: Seq<(String, u32)>) -> Map<Seq<char>, u32>
    decreases s.len(),
{
    if s.len() == 0 {
        Map::empty()
    } else {
        entries_map(s.drop_last()).insert(s.last().0@, s.last().1)
    }
}

/// No name occurs twice among the entries.
pub open spec fn names_distinct(s: Seq<(String, u32)>) -> bool {
    forall|i: int, j: int| 0 <= i < j < s.len() ==> (#[trigger] s[i]).0@ != (#[trigger] s[j]).0@
}

/// How often `name` was used: its count, or 0 where it has none.
pub open spec fn count_of(m: Map<Seq<char>, u32>, name: Seq<char>) -> u32 {
    if m.contains_key(name) {
        m[name]
    } else {
        0
    }
}

/// How often each effect was added, by effect name.
pub struct UseCounts {
    entries: Vec<(String, u32)>,
}

impl View for UseCounts {
    type V = Map<Seq<char>, u32>;

    closed spec fn view(&self) -> Map<Seq<char>, u32> {
        entries_map(self.entries@)
    }
}

proof fn lemma_entries_map_domain(s: Seq<(String, u32)>, name: Seq<char>)
    ensures
        entries_map(s).contains_key(name) <==> exists|k: int| 0 <= k < s.len() && (#[trigger] s[k]).0@ == name,
    decreases s.len(),
{
    if s.len() > 0 {
        lemma_entries_map_domain(s.drop_last(), name);
        if entries_map(s.drop_last()).contains_key(name) {
            let k = choose|k: int| 0 <= k < s.drop_last().len() && (#[trigger] s.drop_last()[k]).0@ == name;
            assert(s[k] == s.drop_last()[k]);
        }
        if exists|k: int| 0 <= k < s.len() && (#[trigger] s[k]).0@ == name {
            let k = choose|k: int| 0 <= k < s.len() && (#[trigger] s[k]).0@ == name;
            if k < s.len() - 1 {
                assert(s.drop_last()[k] == s[k]);
            }
        }
    }
}

proof fn lemma_entries_map_at(s: Seq<(String, u32)>, k: int)
    requires
        names_distinct(s),
        0 <= k < s.len(),
    ensures
        entries_map(s).contains_key(s[k].0@),
        entries_map(s)[s[k].0@] == s[k].1,
    decreases s.len(),
{
    if k < s.len() - 1 {
        assert(s.drop_last()[k] == s[k]);
        assert(names_distinct(s.drop_last())) by {
            assert forall|i: int, j: int| 0 <= i < j < s.drop_last().len() implies (
            #[trigger] s.drop_last()[i]).0@ != (#[trigger] s.drop_last()[j]).0@ by {
                assert(s.drop_last()[i] == s[i]);
                assert(s.drop_last()[j] == s[j]);
            }
        }
        lemma_entries_map_at(s.drop_last(), k);
        assert(s[k].0@ != s[s.len() - 1].0@);
    }
}

proof fn lemma_entries_map_update(s: Seq<(String, u32)>, k: int, v: (String, u32))
    requires
        names_distinct(s),
        0 <= k < s.len(),
        v.0@ == s[k].0@,
    ensures
        names_distinct(s.update(k, v)),
        entries_map(s.update(k, v)) == entries_map(s).insert(v.0@, v.1),
    decreases s.len(),
{
    let t = s.update(k, v);
    assert forall|i: int, j: int| 0 <= i < j < t.len() implies (#[trigger] t[i]).0@ != (
    #[trigger] t[j]).0@ by {
        assert(t[i].0@ == s[i].0@);
        assert(t[j].0@ == s[j].0@);
    }
    if k == s.len() - 1 {
        assert(t.drop_last() =~= s.drop_last());
        assert(entries_map(t) =~= entries_map(s).insert(v.0@, v.1));
    } else {
        assert(t.drop_last() =~= s.drop_last().update(k, v));
        assert(names_distinct(s.drop_last())) by {
            assert forall|i: int, j: int| 0 <= i < j < s.drop_last().len() implies (
            #[trigger] s.drop_last()[i]).0@ != (#[trigger] s.drop_last()[j]).0@ by {
                assert(s.drop_last()[i] == s[i]);
                assert(s.drop_last()[j] == s[j]);
            }
        }
        assert(s.drop_last()[k] == s[k]);
        lemma_entries_map_update(s.drop_last(), k, v);
        assert(s.last().0@ != v.0@);
        assert(t.last() == s.last());
        assert(entries_map(t) =~= entries_map(s).insert(v.0@, v.1));
    }
}

impl UseCounts {
    #[verifier::type_invariant]
    spec fn names_are_distinct(self) -> bool {
        names_distinct(self.entries@)
    }

    /// No effect used yet.
    pub fn new() -> (r: UseCounts)
        ensures
            r@ == Map::<Seq<char>, u32>::empty(),
    {
        UseCounts { entries: Vec::new() }
    }

    /// Where the entry for `name` stands, if there is one.
    fn find(&self, name: &String) -> (r: Option<usize>)
        ensures
            match r {
                Some(k) => k < self.entries@.len() && self.entries@[k as int].0@ == name@,
                None => !self@.contains_key(name@),
            },
    {
        let mut k: usize = 0;
        while k < self.entries.len()
            invariant
                k <= self.entries@.len(),
                forall|j: int| 0 <= j < k ==> (#[trigger] self.entries@[j]).0@ != name@,
            decreases self.entries@.len() - k,
        {
            if self.entries[k].0 == *name {
                return Some(k);
            }
            k += 1;
        }
        proof {
            lemma_entries_map_domain(self.entries@, name@);
        }
        None
    }

    /// How often `name` was used (0 for a name never used).
    pub fn get(&self, name: &String) -> (r: u32)
        ensures
            r == count_of(self@, name@),
    {
        proof {
            use_type_invariant(self);
        }
        match self.find(name) {
            Some(k) => {
                proof {
                    lemma_entries_map_at(self.entries@, k as int);
                }
                self.entries[k].1
            },
            None => 0,
        }
    }

    /// Sets the count of `name`.
    pub fn set(&mut self, name: String, count: u32)
        ensures
            final(self)@ == old(self)@.insert(name@, count),
    {
        proof {
            use_type_invariant(&*self);
        }
        match self.find(&name) {
            Some(k) => {
                proof {
                    lemma_entries_map_update(self.entries@, k as int, (name, count));
                }
                let mut entries: Vec<(String, u32)> = Vec::new();
                std::mem::swap(&mut entries, &mut self.entries);
                entries.set(k, (name, count));
                self.entries = entries;
            },
            None => {
                let ghost old_entries = self.entries@;
                proof {
                    lemma_entries_map_domain(old_entries, name@);
                }
                let mut entries: Vec<(String, u32)> = Vec::new();
                std::mem::swap(&mut entries, &mut self.entries);
                entries.push((name, count));
                assert(entries@.drop_last() =~= old_entries);
                assert forall|i: int, j: int| 0 <= i < j < entries@.len() implies (
                #[trigger] entries@[i]).0@ != (#[trigger] entries@[j]).0@ by {
                    if j == entries@.len() - 1 {
                        assert(entries@[i] == old_entries[i]);
                    } else {
                        assert(entries@[i] == old_entries[i]);
                        assert(entries@[j] == old_entries[j]);
                    }
                }
                self.entries = entries;
            },
        }
    }

    /// Counts one more use of `name`.
    pub fn record_use(&mut self, name: &String)
        requires
            count_of(old(self)@, name@) < u32::MAX,
        ensures
            final(self)@ == old(self)@.insert(name@, (count_of(old(self)@, name@) + 1) as u32),
    {
        let n = self.get(name);
        self.set(name.clone(), n + 1);
    }

    /// Forgets every count.
    pub fn clear(&mut self)
        ensures
            final(self)@ == Map::<Seq<char>, u32>::empty(),
    {
        self.entries = Vec::new();
        assert(entries_map(self.entries@) =~= Map::<Seq<char>, u32>::empty());
    }

    /// The (name, count) pairs, each name once.
    pub fn to_vec(&self) -> (r: Vec<(String, u32)>)
        ensures
            names_distinct(r@),
            entries_map(r@) == self@,
    {
        proof {
            use_type_invariant(self);
        }
        let mut r: Vec<(String, u32)> = Vec::new();
        let mut k: usize = 0;
        while k < self.entries.len()
            invariant
                k <= self.entries@.len(),
                r@ == self.entries@.take(k as int),
            decreases self.entries@.len() - k,
        {
            let name = self.entries[k].0.clone();
            r.push((name, self.entries[k].1));
            k += 1;
            assert(r@ =~= self.entries@.take(k as int));
        }
        assert(self.entries@.take(k as int) =~= self.entries@);
        r
    }
}


/// Counting a use raises that name's count by one and leaves every other
/// name's count as it was; after clearing, every count is 0.
pub proof fn lemma_use_counted(m: Map<Seq<char>, u32>, name: Seq<char>, other: Seq<char>)
    requires
        count_of(m, name) < u32::MAX,
    ensures
        count_of(m.insert(name, (count_of(m, name) + 1) as u32), name) == count_of(m, name) + 1,
        other != name ==> count_of(m.insert(name, (count_of(m, name) + 1) as u32), other) == count_of(
            m,
            other,
        ),
        count_of(Map::<Seq<char>, u32>::empty(), other) == 0,
{
}

} // verus!
