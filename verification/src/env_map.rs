use vstd::prelude::*;

verus! {

/// An environment mapping: variable names bound to ordered, non-empty lists
/// of values.  Names are case-sensitive and unique; the order of the values
/// of one name matters (the first value stands in for the variable when it is
/// referenced, and multi-valued variables are colon-joined in that order).
#[derive(Debug)]
pub struct EnvMap {
    entries: Vec<(String, Vec<String>)>,
}

/// The mapping that an entry list denotes: later entries shadow earlier ones
/// (under `uniq_keys` no shadowing ever happens).
spec fn entries_map(s: Seq<(String, Vec<String>)>) -> Map<Seq<char>, Seq<Seq<char>>>
    decreases s.len(),
{
    if s.len() == 0 {
        Map::empty()
    } else {
        entries_map(s.drop_last()).insert(s.last().0@, s.last().1.deep_view())
    }
}

spec fn uniq_keys(s: Seq<(String, Vec<String>)>) -> bool {
    forall|a: int, b: int| 0 <= a < b < s.len() ==> s[a].0@ != s[b].0@
}

spec fn nonempty_values(s: Seq<(String, Vec<String>)>) -> bool {
    forall|a: int| 0 <= a < s.len() ==> s[a].1@.len() > 0
}

impl View for EnvMap {
    type V = Map<Seq<char>, Seq<Seq<char>>>;

    closed spec fn view(&self) -> Map<Seq<char>, Seq<Seq<char>>> {
        entries_map(self.entries@)
    }
}

proof fn lemma_em_get(s: Seq<(String, Vec<String>)>, i: int)
    requires
        uniq_keys(s),
        0 <= i < s.len(),
    ensures
        entries_map(s).contains_key(s[i].0@),
        entries_map(s)[s[i].0@] == s[i].1.deep_view(),
    decreases s.len(),
{
    if i < s.len() - 1 {
        assert(uniq_keys(s.drop_last())) by {
            assert(forall|a: int, b: int|
                0 <= a < b < s.len() - 1 ==> s.drop_last()[a] == s[a] && s.drop_last()[b] == s[b]);
        }
        lemma_em_get(s.drop_last(), i);
        assert(s.drop_last()[i] == s[i]);
        assert(s.last().0@ != s[i].0@);
    }
}

proof fn lemma_em_absent(s: Seq<(String, Vec<String>)>, k: Seq<char>)
    requires
        forall|a: int| 0 <= a < s.len() ==> s[a].0@ != k,
    ensures
        !entries_map(s).contains_key(k),
    decreases s.len(),
{
    if s.len() > 0 {
        assert(forall|a: int| 0 <= a < s.len() - 1 ==> s.drop_last()[a] == s[a]);
        lemma_em_absent(s.drop_last(), k);
    }
}

proof fn lemma_em_update(s: Seq<(String, Vec<String>)>, i: int, p: (String, Vec<String>))
    requires
        uniq_keys(s),
        0 <= i < s.len(),
        s[i].0@ == p.0@,
    ensures
        entries_map(s.update(i, p)) == entries_map(s).insert(p.0@, p.1.deep_view()),
    decreases s.len(),
{
    let t = s.update(i, p);
    if i == s.len() - 1 {
        assert(t.drop_last() =~= s.drop_last());
        assert(t.last() == p);
        assert(entries_map(s).insert(p.0@, p.1.deep_view()) =~= entries_map(s.drop_last()).insert(
            p.0@,
            p.1.deep_view(),
        ));
    } else {
        assert(uniq_keys(s.drop_last())) by {
            assert(forall|a: int, b: int|
                0 <= a < b < s.len() - 1 ==> s.drop_last()[a] == s[a] && s.drop_last()[b] == s[b]);
        }
        assert(s.drop_last()[i] == s[i]);
        lemma_em_update(s.drop_last(), i, p);
        assert(t.drop_last() =~= s.drop_last().update(i, p));
        assert(t.last() == s.last());
        assert(s.last().0@ != p.0@);
        assert(entries_map(s.drop_last()).insert(p.0@, p.1.deep_view()).insert(
            s.last().0@,
            s.last().1.deep_view(),
        ) =~= entries_map(s.drop_last()).insert(s.last().0@, s.last().1.deep_view()).insert(
            p.0@,
            p.1.deep_view(),
        ));
    }
}

proof fn lemma_em_congruent(s1: Seq<(String, Vec<String>)>, s2: Seq<(String, Vec<String>)>)
    requires
        s1.len() == s2.len(),
        forall|a: int| 0 <= a < s1.len() ==> s1[a].0@ == s2[a].0@ && s1[a].1@ == s2[a].1@,
    ensures
        entries_map(s1) == entries_map(s2),
    decreases s1.len(),
{
    if s1.len() > 0 {
        assert(forall|a: int|
            0 <= a < s1.len() - 1 ==> s1.drop_last()[a] == s1[a] && s2.drop_last()[a] == s2[a]);
        lemma_em_congruent(s1.drop_last(), s2.drop_last());
        assert(s1.last() == s1[s1.len() - 1] && s2.last() == s2[s1.len() - 1]);
        assert(s1.last().1.deep_view() =~= s2.last().1.deep_view());
        assert(entries_map(s1) =~= entries_map(s2));
    }
}

impl EnvMap {
    /// Every name is bound once, and never to an empty value list.
    pub closed spec fn wf(self) -> bool {
        uniq_keys(self.entries@) && nonempty_values(self.entries@)
    }

    /// The number of bindings.
    pub closed spec fn entry_len(self) -> nat {
        self.entries@.len()
    }

    /// The name of the binding at position `i`.
    pub closed spec fn key_at(self, i: int) -> Seq<char> {
        self.entries@[i].0@
    }

    /// The empty mapping.
    pub fn new() -> (r: EnvMap)
        ensures
            r.wf(),
            r@ == Map::<Seq<char>, Seq<Seq<char>>>::empty(),
            r.entry_len() == 0,
    {
        EnvMap { entries: Vec::new() }
    }

    fn find_idx(&self, name: &String) -> (r: Option<usize>)
        ensures
            match r {
                Some(i) => i < self.entries@.len() && self.entries@[i as int].0@ == name@,
                None => forall|a: int| 0 <= a < self.entries@.len() ==> self.entries@[a].0@ != name@,
            },
    {
        let mut i: usize = 0;
        while i < self.entries.len()
            invariant
                i <= self.entries@.len(),
                forall|a: int| 0 <= a < i ==> self.entries@[a].0@ != name@,
            decreases self.entries@.len() - i,
        {
            if self.entries[i].0 == *name {
                return Some(i);
            }
            i = i + 1;
        }
        None
    }

    /// The values bound to `name`, or `None` if `name` is unbound.
    pub fn get(&self, name: &String) -> (r: Option<&Vec<String>>)
        requires
            self.wf(),
        ensures
            match r {
                Some(v) => self@.contains_key(name@) && v.deep_view() == self@[name@] && v@.len()
                    > 0,
                None => !self@.contains_key(name@),
            },
    {
        match self.find_idx(name) {
            Some(i) => {
                proof {
                    lemma_em_get(self.entries@, i as int);
                }
                Some(&self.entries[i].1)
            },
            None => {
                proof {
                    lemma_em_absent(self.entries@, name@);
                }
                None
            },
        }
    }

    /// Whether `name` is bound.
    pub fn has_key(&self, name: &String) -> (r: bool)
        requires
            self.wf(),
        ensures
            r == self@.contains_key(name@),
    {
        match self.get(name) {
            Some(_) => true,
            None => false,
        }
    }

    /// Binds `name` to `values`, overwriting any prior binding.
    pub fn insert(&mut self, name: String, values: Vec<String>)
        requires
            old(self).wf(),
            values@.len() > 0,
        ensures
            final(self).wf(),
            final(self)@ == old(self)@.insert(name@, values.deep_view()),
    {
        let ghost s = self.entries@;
        let ghost p = (name, values);
        match self.find_idx(&name) {
            Some(i) => {
                self.entries[i] = (name, values);
                proof {
                    assert(self.entries@ == s.update(i as int, p));
                    lemma_em_update(s, i as int, p);
                    assert(uniq_keys(self.entries@)) by {
                        assert(forall|a: int|
                            0 <= a < s.len() && a != i ==> self.entries@[a] == s[a]);
                    }
                }
            },
            None => {
                self.entries.push((name, values));
                proof {
                    assert(self.entries@.drop_last() =~= s);
                    assert(self.entries@.last() == p);
                    assert(uniq_keys(self.entries@)) by {
                        assert(forall|a: int| 0 <= a < s.len() ==> self.entries@[a] == s[a]);
                    }
                }
            },
        }
    }

    /// The number of bindings.
    pub fn entry_count(&self) -> (n: usize)
        ensures
            n as nat == self.entry_len(),
    {
        self.entries.len()
    }

    /// The binding at position `i`: its name and its values.
    pub fn entry_at(&self, i: usize) -> (r: (&String, &Vec<String>))
        requires
            self.wf(),
            (i as nat) < self.entry_len(),
        ensures
            r.0@ == self.key_at(i as int),
            self@.contains_key(r.0@),
            r.1.deep_view() == self@[r.0@],
    {
        proof {
            lemma_em_get(self.entries@, i as int);
        }
        let e = &self.entries[i];
        (&e.0, &e.1)
    }

    /// An independent copy with the same bindings.
    pub fn clone_map(&self) -> (r: EnvMap)
        ensures
            r@ == self@,
            r.wf() <==> self.wf(),
            r.entry_len() == self.entry_len(),
    {
        let mut es: Vec<(String, Vec<String>)> = Vec::new();
        let mut i: usize = 0;
        while i < self.entries.len()
            invariant
                i <= self.entries@.len(),
                es@.len() == i,
                forall|a: int|
                    0 <= a < i ==> es@[a].0@ == self.entries@[a].0@ && es@[a].1@
                        == self.entries@[a].1@,
            decreases self.entries@.len() - i,
        {
            let e = &self.entries[i];
            let k: String = e.0.clone();
            let v: Vec<String> = clone_values(&e.1);
            es.push((k, v));
            i = i + 1;
        }
        proof {
            lemma_em_congruent(es@, self.entries@);
            if uniq_keys(self.entries@) {
                assert forall|a: int, b: int| 0 <= a < b < es@.len() implies es@[a].0@
                    != es@[b].0@ by {
                    assert(es@[a].0@ == self.entries@[a].0@);
                    assert(es@[b].0@ == self.entries@[b].0@);
                }
            }
            if uniq_keys(es@) {
                assert forall|a: int, b: int|
                    0 <= a < b < self.entries@.len() implies self.entries@[a].0@
                    != self.entries@[b].0@ by {
                    assert(es@[a].0@ == self.entries@[a].0@);
                    assert(es@[b].0@ == self.entries@[b].0@);
                }
            }
            if nonempty_values(self.entries@) {
                assert forall|a: int| 0 <= a < es@.len() implies es@[a].1@.len() > 0 by {
                    assert(es@[a].1@ == self.entries@[a].1@);
                }
            }
            if nonempty_values(es@) {
                assert forall|a: int|
                    0 <= a < self.entries@.len() implies self.entries@[a].1@.len() > 0 by {
                    assert(es@[a].1@ == self.entries@[a].1@);
                }
            }
        }
        EnvMap { entries: es }
    }
}

/// An element-for-element copy of a value list.
pub fn clone_values(v: &Vec<String>) -> (r: Vec<String>)
    ensures
        r@ == v@,
{
    let mut r: Vec<String> = Vec::new();
    let mut i: usize = 0;
    while i < v.len()
        invariant
            i <= v@.len(),
            r@ =~= v@.subrange(0, i as int),
        decreases v@.len() - i,
    {
        r.push(v[i].clone());
        i = i + 1;
    }
    proof {
        assert(v@.subrange(0, v@.len() as int) =~= v@);
    }
    r
}

} // verus!
