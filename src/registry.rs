use vstd::prelude::*;

verus! {

/// Identity of an enrolled client device.
pub type ClientId = i64;

/// The live connections, keyed by client identity: at most one handle per identity.
pub struct Registry<H> {
    ids: Vec<ClientId>,
    handles: Vec<H>,
}

/// In a sequence without repeats, the index of an element is where it stands.
proof fn lemma_index_of_unique(s: Seq<ClientId>, i: int)
    requires
        s.no_duplicates(),
        0 <= i < s.len(),
    ensures
        s.index_of(s[i]) == i,
{
    assert(s.contains(s[i]));
}

impl<H> Registry<H> {
    /// The identities of the entries, one per entry.
    pub closed spec fn ids(&self) -> Seq<ClientId> {
        self.ids@
    }

    /// The handles of the entries, in the order of `ids`.
    pub closed spec fn handles(&self) -> Seq<H> {
        self.handles@
    }

    /// Each identity stands once, and beside exactly one handle.
    pub open spec fn wf(&self) -> bool {
        &&& self.ids().len() == self.handles().len()
        &&& self.ids().no_duplicates()
    }

    /// The registry as a map from identity to handle.
    pub open spec fn entries(&self) -> Map<ClientId, H> {
        Map::new(
            |k: ClientId| self.ids().contains(k),
            |k: ClientId| self.handles()[self.ids().index_of(k)],
        )
    }

    pub fn new() -> (r: Self)
        ensures
            r.wf(),
            r.ids() == Seq::<ClientId>::empty(),
            r.entries() == Map::<ClientId, H>::empty(),
    {
        let r = Registry { ids: Vec::new(), handles: Vec::new() };
        assert(r.entries() =~= Map::<ClientId, H>::empty());
        r
    }

    /// Number of registered connections.
    pub fn len(&self) -> (r: usize)
        ensures
            r == self.ids().len(),
    {
        self.ids.len()
    }

    fn position(&self, id: ClientId) -> (r: Option<usize>)
        requires
            self.wf(),
        ensures
            match r {
                Some(i) => i < self.ids().len() && self.ids()[i as int] == id,
                None => !self.ids().contains(id),
            },
    {
        let mut i: usize = 0;
        while i < self.ids.len()
            invariant
                self.wf(),
                i <= self.ids().len(),
                forall|j: int| 0 <= j < i ==> self.ids()[j] != id,
            decreases self.ids().len() - i,
        {
            if self.ids[i] == id {
                return Some(i);
            }
            i = i + 1;
        }
        None
    }

    pub fn contains(&self, id: ClientId) -> (r: bool)
        requires
            self.wf(),
        ensures
            r == self.entries().contains_key(id),
    {
        self.position(id).is_some()
    }

    /// The handle registered under `id`, if any.
    pub fn get(&self, id: ClientId) -> (r: Option<&H>)
        requires
            self.wf(),
        ensures
            match r {
                Some(h) => self.entries().contains_key(id) && *h == self.entries()[id],
                None => !self.entries().contains_key(id),
            },
    {
        match self.position(id) {
            Some(i) => {
                proof {
                    lemma_index_of_unique(self.ids(), i as int);
                }
                Some(&self.handles[i])
            },
            None => None,
        }
    }

    /// A point-in-time copy of the registered identities.
    pub fn snapshot(&self) -> (r: Vec<ClientId>)
        ensures
            r@ == self.ids(),
    {
        let mut r: Vec<ClientId> = Vec::new();
        let mut i: usize = 0;
        while i < self.ids.len()
            invariant
                i <= self.ids().len(),
                r@ == self.ids().take(i as int),
            decreases self.ids().len() - i,
        {
            r.push(self.ids[i]);
            i = i + 1;
            assert(r@ =~= self.ids().take(i as int));
        }
        assert(r@ =~= self.ids());
        r
    }

    /// Registers `handle` under `id`. A handle already registered under `id` is replaced and
    /// handed back, so that the caller releases it: two never stand side by side.
    pub fn insert(&mut self, id: ClientId, handle: H) -> (r: Option<H>)
        requires
            old(self).wf(),
        ensures
            final(self).wf(),
            final(self).entries() == old(self).entries().insert(id, handle),
            match r {
                Some(prev) => old(self).entries().contains_key(id)
                    && prev == old(self).entries()[id],
                None => !old(self).entries().contains_key(id),
            },
            old(self).entries().contains_key(id) ==> final(self).ids() == old(self).ids(),
            !old(self).entries().contains_key(id) ==> final(self).ids() == old(self).ids().push(id),
    {
        let ghost before = *self;
        match self.position(id) {
            Some(i) => {
                let prev = self.handles.remove(i);
                self.handles.insert(i, handle);
                proof {
                    lemma_index_of_unique(before.ids(), i as int);
                    assert forall|k: ClientId| #[trigger] self.ids().contains(k) implies
                        self.handles()[self.ids().index_of(k)]
                            == before.entries().insert(id, handle)[k] by {
                        let j = choose|j: int| 0 <= j < self.ids().len() && self.ids()[j] == k;
                        lemma_index_of_unique(self.ids(), j);
                    };
                    assert(self.entries() =~= before.entries().insert(id, handle));
                }
                Some(prev)
            },
            None => {
                self.ids.push(id);
                self.handles.push(handle);
                proof {
                    let n = before.ids().len() as int;
                    assert(self.ids().no_duplicates()) by {
                        assert forall|a: int, b: int|
                            0 <= a < self.ids().len() && 0 <= b < self.ids().len() && a != b
                            implies self.ids()[a] != self.ids()[b] by {
                            if a == n {
                                assert(before.ids().contains(self.ids()[b]));
                            } else if b == n {
                                assert(before.ids().contains(self.ids()[a]));
                            }
                        };
                    };
                    assert forall|k: ClientId| #[trigger] self.ids().contains(k) implies
                        self.handles()[self.ids().index_of(k)]
                            == before.entries().insert(id, handle)[k] by {
                        let j = choose|j: int| 0 <= j < self.ids().len() && self.ids()[j] == k;
                        lemma_index_of_unique(self.ids(), j);
                        if j < n {
                            lemma_index_of_unique(before.ids(), j);
                        }
                    };
                    assert forall|k: ClientId| before.ids().contains(k) || k == id implies
                        #[trigger] self.ids().contains(k) by {
                        if k != id {
                            let j = choose|j: int|
                                0 <= j < before.ids().len() && before.ids()[j] == k;
                            assert(self.ids()[j] == k);
                        } else {
                            assert(self.ids()[n] == k);
                        }
                    };
                    assert(self.entries() =~= before.entries().insert(id, handle));
                }
                None
            },
        }
    }

    /// Takes the entry for `id` out of the registry. Absent identities leave it unchanged,
    /// so removing twice is the same as removing once.
    pub fn remove(&mut self, id: ClientId) -> (r: Option<H>)
        requires
            old(self).wf(),
        ensures
            final(self).wf(),
            final(self).entries() == old(self).entries().remove(id),
            match r {
                Some(prev) => old(self).entries().contains_key(id)
                    && prev == old(self).entries()[id],
                None => !old(self).entries().contains_key(id) && final(self).ids()
                    == old(self).ids(),
            },
    {
        let ghost before = *self;
        match self.position(id) {
            Some(i) => {
                self.ids.remove(i);
                let prev = self.handles.remove(i);
                proof {
                    let ii = i as int;
                    lemma_index_of_unique(before.ids(), ii);
                    assert(self.ids().no_duplicates()) by {
                        assert forall|a: int, b: int|
                            0 <= a < self.ids().len() && 0 <= b < self.ids().len() && a != b
                            implies self.ids()[a] != self.ids()[b] by {
                            let oa = if a < ii { a } else { a + 1 };
                            let ob = if b < ii { b } else { b + 1 };
                            assert(self.ids()[a] == before.ids()[oa]);
                            assert(self.ids()[b] == before.ids()[ob]);
                        };
                    };
                    assert forall|k: ClientId| #[trigger] self.ids().contains(k) implies
                        self.handles()[self.ids().index_of(k)]
                            == before.entries().remove(id)[k] by {
                        let j = choose|j: int| 0 <= j < self.ids().len() && self.ids()[j] == k;
                        lemma_index_of_unique(self.ids(), j);
                        let oj = if j < ii { j } else { j + 1 };
                        assert(before.ids()[oj] == k);
                        lemma_index_of_unique(before.ids(), oj);
                    };
                    assert forall|k: ClientId|
                        #[trigger] self.ids().contains(k) == before.entries().remove(id).contains_key(
                            k,
                        ) by {
                        if self.ids().contains(k) {
                            let j = choose|j: int|
                                0 <= j < self.ids().len() && self.ids()[j] == k;
                            let oj = if j < ii { j } else { j + 1 };
                            assert(before.ids()[oj] == k);
                        }
                        if before.entries().remove(id).contains_key(k) {
                            let oj = choose|j: int|
                                0 <= j < before.ids().len() && before.ids()[j] == k;
                            let j = if oj < ii { oj } else { oj - 1 };
                            assert(self.ids()[j] == k);
                        }
                    };
                    assert(self.entries() =~= before.entries().remove(id));
                }
                Some(prev)
            },
            None => {
                assert(self.entries() =~= before.entries().remove(id));
                None
            },
        }
    }

    /// Takes every listed identity out of the registry and hands back the handles that were
    /// registered under them, in the order of the list; absent identities are skipped.
    pub fn remove_all(&mut self, ids: &Vec<ClientId>) -> (r: Vec<H>)
        requires
            old(self).wf(),
        ensures
            final(self).wf(),
            final(self).entries() == old(self).entries().remove_keys(ids@.to_set()),
            r@ == taken(old(self).entries(), ids@),
    {
        let ghost start = self.entries();
        let mut out: Vec<H> = Vec::new();
        let mut k: usize = 0;
        proof {
            assert(ids@.take(0).to_set() =~= Set::<ClientId>::empty());
            assert(start.remove_keys(Set::<ClientId>::empty()) =~= start);
        }
        while k < ids.len()
            invariant
                self.wf(),
                k <= ids@.len(),
                out@ == taken(start, ids@.take(k as int)),
                self.entries() == start.remove_keys(ids@.take(k as int).to_set()),
            decreases ids@.len() - k,
        {
            let id = ids[k];
            let ghost mid = self.entries();
            match self.remove(id) {
                Some(h) => out.push(h),
                None => {},
            }
            proof {
                assert(ids@.take(k + 1).drop_last() =~= ids@.take(k as int));
                assert(ids@.take(k + 1) =~= ids@.take(k as int).push(id));
                ids@.take(k as int).lemma_push_to_set_commute(id);
                assert(ids@.take(k + 1).to_set() =~= ids@.take(k as int).to_set().insert(id));
                assert(self.entries() =~= start.remove_keys(ids@.take(k + 1).to_set()));
            }
            k = k + 1;
        }
        proof {
            assert(ids@.take(k as int) =~= ids@);
        }
        out
    }
}

/// The handles that removing `ids` one after the other from `entries` hands back, in order:
/// one for each identity still registered when its turn comes.
pub open spec fn taken<H>(entries: Map<ClientId, H>, ids: Seq<ClientId>) -> Seq<H>
    decreases ids.len(),
{
    if ids.len() == 0 {
        Seq::empty()
    } else {
        let before = taken(entries, ids.drop_last());
        let left = entries.remove_keys(ids.drop_last().to_set());
        if left.contains_key(ids.last()) {
            before.push(left[ids.last()])
        } else {
            before
        }
    }
}

/// Entries carrying identity `id`.
pub open spec fn carrying(id: ClientId) -> spec_fn(ClientId) -> bool {
    |x: ClientId| x == id
}

proof fn lemma_none_carrying(s: Seq<ClientId>, id: ClientId)
    requires
        !s.contains(id),
    ensures
        s.filter(carrying(id)).len() == 0,
    decreases s.len(),
{
    reveal(Seq::filter);
    if s.len() > 0 {
        assert(!s.drop_last().contains(id)) by {
            if s.drop_last().contains(id) {
                let j = choose|j: int| 0 <= j < s.drop_last().len() && s.drop_last()[j] == id;
                assert(s[j] == id);
            }
        };
        lemma_none_carrying(s.drop_last(), id);
        assert(s[s.len() - 1] != id);
    }
}

proof fn lemma_at_most_one_carrying(s: Seq<ClientId>, id: ClientId)
    requires
        s.no_duplicates(),
    ensures
        s.filter(carrying(id)).len() <= 1,
    decreases s.len(),
{
    reveal(Seq::filter);
    if s.len() > 0 {
        let d = s.drop_last();
        assert(d.no_duplicates());
        if s.last() == id {
            assert(!d.contains(id)) by {
                if d.contains(id) {
                    let j = choose|j: int| 0 <= j < d.len() && d[j] == id;
                    assert(s[j] == s[s.len() - 1]);
                }
            };
            lemma_none_carrying(d, id);
        } else {
            lemma_at_most_one_carrying(d, id);
        }
    }
}

/// Uniqueness: whatever run of connects, reconnects and removals produced it (each of
/// `new`, `insert`, `remove` and `remove_all` keeps a registry well formed), a registry
/// holds at most one entry for any identity.
pub proof fn lemma_one_entry_per_identity<H>(registry: Registry<H>, id: ClientId)
    requires
        registry.wf(),
    ensures
        registry.ids().filter(carrying(id)).len() <= 1,
{
    lemma_at_most_one_carrying(registry.ids(), id);
}

} // verus!
