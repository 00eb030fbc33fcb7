use vstd::prelude::*;

verus! {

/// The map that a sequence of `(name, value)` entries denotes: a later entry
/// for a name wins, though a well-formed `PathParams` holds each name once.
pub open spec fn entries_map(s: Seq<(String, String)>) -> Map<Seq<char>, Seq<char>>
    decreases s.len(),
{
    if s.len() == 0 {
        Map::empty()
    } else {
        entries_map(s.drop_last()).insert(s.last().0@, s.last().1@)
    }
}

/// No name occurs twice among the entries.
pub open spec fn keys_unique(s: Seq<(String, String)>) -> bool {
    forall|i: int, j: int| 0 <= i < j < s.len() ==> s[i].0@ != s[j].0@
}

proof fn lemma_entries_dom(s: Seq<(String, String)>, k: Seq<char>)
    ensures
        entries_map(s).contains_key(k) <==> exists|i: int| 0 <= i < s.len() && s[i].0@ == k,
    decreases s.len(),
{
    if s.len() > 0 {
        lemma_entries_dom(s.drop_last(), k);
        if entries_map(s.drop_last()).contains_key(k) {
            let i = choose|i: int| 0 <= i < s.drop_last().len() && s.drop_last()[i].0@ == k;
            assert(s[i].0@ == k);
        }
        if exists|i: int| 0 <= i < s.len() && s[i].0@ == k {
            let i = choose|i: int| 0 <= i < s.len() && s[i].0@ == k;
            if i < s.len() - 1 {
                assert(s.drop_last()[i].0@ == k);
            }
        }
    }
}

proof fn lemma_entries_value(s: Seq<(String, String)>, i: int)
    requires
        keys_unique(s),
        0 <= i < s.len(),
    ensures
        entries_map(s).contains_key(s[i].0@),
        entries_map(s)[s[i].0@] == s[i].1@,
    decreases s.len(),
{
    if i < s.len() - 1 {
        assert(keys_unique(s.drop_last()));
        lemma_entries_value(s.drop_last(), i);
        assert(s.drop_last()[i] == s[i]);
    }
}

proof fn lemma_entries_len(s: Seq<(String, String)>)
    requires
        keys_unique(s),
    ensures
        entries_map(s).dom().finite(),
        entries_map(s).len() == s.len(),
    decreases s.len(),
{
    if s.len() > 0 {
        assert(keys_unique(s.drop_last()));
        lemma_entries_len(s.drop_last());
        lemma_entries_dom(s.drop_last(), s.last().0@);
        if entries_map(s.drop_last()).contains_key(s.last().0@) {
            let i = choose|i: int|
                0 <= i < s.drop_last().len() && s.drop_last()[i].0@ == s.last().0@;
            assert(s[i].0@ == s[s.len() - 1].0@);
        }
    }
}

proof fn lemma_entries_update(s: Seq<(String, String)>, i: int, kv: (String, String))
    requires
        keys_unique(s),
        0 <= i < s.len(),
        kv.0@ == s[i].0@,
    ensures
        keys_unique(s.update(i, kv)),
        entries_map(s.update(i, kv)) == entries_map(s).insert(kv.0@, kv.1@),
{
    let t = s.update(i, kv);
    assert(keys_unique(t));
    assert forall|k: Seq<char>|
        entries_map(t).contains_key(k) == entries_map(s).insert(kv.0@, kv.1@).contains_key(k) by {
        lemma_entries_dom(s, k);
        lemma_entries_dom(t, k);
        if exists|j: int| 0 <= j < s.len() && s[j].0@ == k {
            let j = choose|j: int| 0 <= j < s.len() && s[j].0@ == k;
            assert(t[j].0@ == k);
        }
        if exists|j: int| 0 <= j < t.len() && t[j].0@ == k {
            let j = choose|j: int| 0 <= j < t.len() && t[j].0@ == k;
            assert(s[j].0@ == k);
        }
    }
    assert forall|k: Seq<char>| #[trigger]
        entries_map(t).contains_key(k) implies entries_map(t)[k]
        == entries_map(s).insert(kv.0@, kv.1@)[k] by {
        lemma_entries_dom(t, k);
        let j = choose|j: int| 0 <= j < t.len() && t[j].0@ == k;
        lemma_entries_value(t, j);
        if j != i {
            lemma_entries_value(s, j);
        }
    }
    assert(entries_map(t) =~= entries_map(s).insert(kv.0@, kv.1@));
}

/// The values that a matched route's placeholders captured, by placeholder
/// name. Each name occurs once.
#[derive(Debug, Clone)]
pub struct PathParams {
    entries: Vec<(String, String)>,
}

impl View for PathParams {
    type V = Map<Seq<char>, Seq<char>>;

    closed spec fn view(&self) -> Map<Seq<char>, Seq<char>> {
        entries_map(self.entries@)
    }
}

impl PathParams {
    pub closed spec fn wf(&self) -> bool {
        keys_unique(self.entries@)
    }

    /// An empty set of parameters.
    pub fn new() -> (r: PathParams)
        ensures
            r.wf(),
            r@ == Map::<Seq<char>, Seq<char>>::empty(),
    {
        PathParams { entries: Vec::new() }
    }

    /// An empty set of parameters with room for `capacity` of them.
    pub fn with_capacity(capacity: usize) -> (r: PathParams)
        ensures
            r.wf(),
            r@ == Map::<Seq<char>, Seq<char>>::empty(),
    {
        PathParams { entries: Vec::with_capacity(capacity) }
    }

    fn find(&self, param_name: &String) -> (r: Option<usize>)
        requires
            self.wf(),
        ensures
            r is None ==> !self@.contains_key(param_name@),
            r matches Some(i) ==> i < self.entries@.len() && self.entries@[i as int].0@
                == param_name@,
    {
        let mut i: usize = 0;
        while i < self.entries.len()
            invariant
                i <= self.entries@.len(),
                forall|j: int| 0 <= j < i ==> self.entries@[j].0@ != param_name@,
            decreases self.entries@.len() - i,
        {
            if self.entries[i].0 == *param_name {
                return Some(i);
            }
            i = i + 1;
        }
        proof {
            lemma_entries_dom(self.entries@, param_name@);
        }
        None
    }

    /// Sets `param_name` to `param_val`, replacing any earlier value.
    pub fn set(&mut self, param_name: String, param_val: String)
        requires
            old(self).wf(),
        ensures
            final(self).wf(),
            final(self)@ == old(self)@.insert(param_name@, param_val@),
    {
        match self.find(&param_name) {
            Some(i) => {
                proof {
                    lemma_entries_update(self.entries@, i as int, (param_name, param_val));
                }
                self.entries.set(i, (param_name, param_val));
            },
            None => {
                proof {
                    assert forall|j: int| 0 <= j < self.entries@.len() implies self.entries@[j].0@
                        != param_name@ by {
                        lemma_entries_dom(self.entries@, param_name@);
                    }
                }
                self.entries.push((param_name, param_val));
                assert(self.entries@.drop_last() =~= old(self).entries@);
            },
        }
    }

    /// The value of `param_name`, if it is set.
    pub fn get(&self, param_name: &String) -> (r: Option<&String>)
        requires
            self.wf(),
        ensures
            r is None <==> !self@.contains_key(param_name@),
            r matches Some(v) ==> self@[param_name@] == v@,
    {
        match self.find(param_name) {
            Some(i) => {
                proof {
                    lemma_entries_value(self.entries@, i as int);
                }
                Some(&self.entries[i].1)
            },
            None => None,
        }
    }

    /// Whether `param_name` is set.
    pub fn has(&self, param_name: &String) -> (r: bool)
        requires
            self.wf(),
        ensures
            r == self@.contains_key(param_name@),
    {
        match self.find(param_name) {
            Some(i) => {
                proof {
                    lemma_entries_value(self.entries@, i as int);
                }
                true
            },
            None => false,
        }
    }

    /// The number of parameters.
    pub fn len(&self) -> (r: usize)
        requires
            self.wf(),
        ensures
            r == self@.len(),
            self@.dom().finite(),
    {
        proof {
            lemma_entries_len(self.entries@);
        }
        self.entries.len()
    }

    /// The names of the parameters, each once, in no particular order.
    pub fn params_names(&self) -> (r: Vec<String>)
        requires
            self.wf(),
        ensures
            r@.len() == self@.len(),
            forall|i: int, j: int| 0 <= i < j < r@.len() ==> r@[i]@ != r@[j]@,
            forall|k: Seq<char>|
                self@.contains_key(k) <==> exists|i: int| 0 <= i < r@.len() && r@[i]@ == k,
    {
        let mut r: Vec<String> = Vec::new();
        let mut i: usize = 0;
        while i < self.entries.len()
            invariant
                i <= self.entries@.len(),
                r@.len() == i,
                forall|j: int| 0 <= j < i ==> r@[j]@ == self.entries@[j].0@,
            decreases self.entries@.len() - i,
        {
            r.push(self.entries[i].0.clone());
            i = i + 1;
        }
        proof {
            lemma_entries_len(self.entries@);
            assert forall|k: Seq<char>|
                self@.contains_key(k) <==> exists|i: int| 0 <= i < r@.len() && r@[i]@ == k by {
                lemma_entries_dom(self.entries@, k);
                if exists|i: int| 0 <= i < r@.len() && r@[i]@ == k {
                    let i = choose|i: int| 0 <= i < r@.len() && r@[i]@ == k;
                    assert(self.entries@[i].0@ == k);
                }
                if exists|i: int| 0 <= i < r@.len() && self.entries@[i].0@ == k {
                    let i = choose|i: int| 0 <= i < r@.len() && self.entries@[i].0@ == k;
                    assert(r@[i]@ == k);
                }
            }
        }
        r
    }

    /// The `(name, value)` pairs, each name once, in no particular order.
    pub fn iter(&self) -> (r: Vec<(String, String)>)
        requires
            self.wf(),
        ensures
            r@.len() == self@.len(),
            keys_unique(r@),
            entries_map(r@) == self@,
    {
        let mut r: Vec<(String, String)> = Vec::new();
        let mut i: usize = 0;
        while i < self.entries.len()
            invariant
                i <= self.entries@.len(),
                r@.len() == i,
                forall|j: int|
                    0 <= j < i ==> r@[j].0@ == self.entries@[j].0@ && r@[j].1@
                        == self.entries@[j].1@,
            decreases self.entries@.len() - i,
        {
            r.push((self.entries[i].0.clone(), self.entries[i].1.clone()));
            i = i + 1;
        }
        proof {
            lemma_entries_len(self.entries@);
            assert forall|k: Seq<char>| entries_map(r@).contains_key(k)
                == self@.contains_key(k) by {
                lemma_entries_dom(self.entries@, k);
                lemma_entries_dom(r@, k);
                if exists|j: int| 0 <= j < r@.len() && r@[j].0@ == k {
                    let j = choose|j: int| 0 <= j < r@.len() && r@[j].0@ == k;
                    assert(self.entries@[j].0@ == k);
                }
                if exists|j: int| 0 <= j < r@.len() && self.entries@[j].0@ == k {
                    let j = choose|j: int| 0 <= j < r@.len() && self.entries@[j].0@ == k;
                    assert(r@[j].0@ == k);
                }
            }
            assert forall|k: Seq<char>| #[trigger]
                entries_map(r@).contains_key(k) implies entries_map(r@)[k] == self@[k] by {
                lemma_entries_dom(r@, k);
                let j = choose|j: int| 0 <= j < r@.len() && r@[j].0@ == k;
                lemma_entries_value(r@, j);
                lemma_entries_value(self.entries@, j);
            }
            assert(entries_map(r@) =~= self@);
        }
        r
    }

    /// Adds every parameter of `other`; where both hold a name, the value of
    /// `other` wins.
    pub fn extend(&mut self, other_path_params: PathParams)
        requires
            old(self).wf(),
            other_path_params.wf(),
        ensures
            final(self).wf(),
            final(self)@ == old(self)@.union_prefer_right(other_path_params@),
    {
        let other = other_path_params.entries;
        let ghost start = self@;
        let mut i: usize = 0;
        while i < other.len()
            invariant
                self.wf(),
                i <= other@.len(),
                self@ == start.union_prefer_right(entries_map(other@.take(i as int))),
            decreases other@.len() - i,
        {
            let k = other[i].0.clone();
            let v = other[i].1.clone();
            proof {
                assert(other@.take(i + 1).drop_last() =~= other@.take(i as int));
                assert(start.union_prefer_right(entries_map(other@.take(i as int))).insert(
                    k@,
                    v@,
                ) =~= start.union_prefer_right(entries_map(other@.take(i + 1))));
            }
            self.set(k, v);
            i = i + 1;
        }
        assert(other@.take(i as int) =~= other@);
    }
}

} // verus!
