//! Reconciliation of the tracked containers against the runtime's snapshot.
//! Each tracked container owns exactly one log session, so the set of
//! sessions' owners is the running set by construction.
use vstd::prelude::*;
use crate::container_id::ContainerId;
use crate::hex_text::hex_of_bytes;
use crate::snapshot::{ids_match, json_id_texts, parse_snapshot, valid_texts, FetchError};

verus! {

/// The keys of a list of identifiers.
pub open spec fn keys_of(ids: Seq<ContainerId>) -> Set<Seq<u8>> {
    Set::new(|k: Seq<u8>| exists|i: int| 0 <= i < ids.len() && #[trigger] ids[i].key() == k)
}

/// No two identifiers of the list name the same container.
pub open spec fn distinct_ids(ids: Seq<ContainerId>) -> bool {
    forall|i: int, j: int|
        0 <= i < ids.len() && 0 <= j < ids.len() && i != j ==> #[trigger] ids[i].key()
            != #[trigger] ids[j].key()
}

/// Each identifier of `ids` carries the digest of some identifier of `source`.
pub open spec fn digests_from(ids: Seq<ContainerId>, source: Seq<ContainerId>) -> bool {
    forall|a: int|
        0 <= a < ids.len() ==> exists|j: int| 0 <= j < source.len() && #[trigger] ids[a]@ == source[j]@
}

/// A tracked container and the log session it owns.
pub struct Watched<S> {
    pub id: ContainerId,
    pub session: S,
}

/// The keys of the containers of a list of entries.
pub open spec fn entry_keys<S>(v: Seq<Watched<S>>) -> Set<Seq<u8>> {
    Set::new(|k: Seq<u8>| exists|i: int| 0 <= i < v.len() && #[trigger] v[i].id.key() == k)
}

/// No two entries of the list own the same container.
pub open spec fn distinct_entries<S>(v: Seq<Watched<S>>) -> bool {
    forall|i: int, j: int|
        0 <= i < v.len() && 0 <= j < v.len() && i != j ==> #[trigger] v[i].id.key()
            != #[trigger] v[j].id.key()
}

/// Containers present in the snapshot and not yet tracked.
pub open spec fn added_keys(running: Set<Seq<u8>>, snapshot: Set<Seq<u8>>) -> Set<Seq<u8>> {
    snapshot.difference(running)
}

/// Tracked containers absent from the snapshot.
pub open spec fn removed_keys(running: Set<Seq<u8>>, snapshot: Set<Seq<u8>>) -> Set<Seq<u8>> {
    running.difference(snapshot)
}

/// The running set after a refresh: what is still in the snapshot, and what
/// got a session opened.
pub open spec fn next_running(
    running: Set<Seq<u8>>,
    snapshot: Set<Seq<u8>>,
    opened: Set<Seq<u8>>,
) -> Set<Seq<u8>> {
    running.intersect(snapshot).union(opened)
}

/// What a refresh has to do: containers to open sessions for, and
/// containers whose sessions are to be discarded.
pub struct Delta {
    pub added: Vec<ContainerId>,
    pub removed: Vec<ContainerId>,
}

/// A refresh under way: the snapshot read from the runtime, and what it
/// asks of the tracked set.
pub struct Refresh {
    pub snapshot: Vec<ContainerId>,
    pub delta: Delta,
}

/// Whether some identifier of the list names the container of `id`.
pub fn contains_key(ids: &Vec<ContainerId>, id: &ContainerId) -> (r: bool)
    ensures
        r == keys_of(ids@).contains(id.key()),
{
    let mut i: usize = 0;
    while i < ids.len()
        invariant
            i <= ids@.len(),
            forall|j: int| 0 <= j < i ==> #[trigger] ids@[j].key() != id.key(),
        decreases ids@.len() - i,
    {
        if ids[i].same_container(id) {
            assert(ids@[i as int].key() == id.key());
            return true;
        }
        i = i + 1;
    }
    false
}

/// Appending an identifier adds its key.
pub proof fn lemma_keys_push(s: Seq<ContainerId>, x: ContainerId)
    ensures
        keys_of(s.push(x)) == keys_of(s).insert(x.key()),
{
    let t = s.push(x);
    assert forall|k: Seq<u8>| #[trigger] keys_of(t).contains(k) <==> keys_of(s).insert(x.key()).contains(k) by {
        if keys_of(t).contains(k) {
            let i = choose|i: int| 0 <= i < t.len() && #[trigger] t[i].key() == k;
            if i < s.len() {
                assert(s[i].key() == k);
            }
        }
        if keys_of(s).contains(k) {
            let i = choose|i: int| 0 <= i < s.len() && #[trigger] s[i].key() == k;
            assert(t[i].key() == k);
        }
        if k == x.key() {
            assert(t[s.len() as int].key() == k);
        }
    }
    assert(keys_of(t) =~= keys_of(s).insert(x.key()));
}

/// Appending an entry adds the key of its container.
pub proof fn lemma_entry_keys_push<S>(s: Seq<Watched<S>>, x: Watched<S>)
    ensures
        entry_keys(s.push(x)) == entry_keys(s).insert(x.id.key()),
{
    let t = s.push(x);
    assert forall|k: Seq<u8>| #[trigger] entry_keys(t).contains(k) <==> entry_keys(s).insert(x.id.key()).contains(k) by {
        if entry_keys(t).contains(k) {
            let i = choose|i: int| 0 <= i < t.len() && #[trigger] t[i].id.key() == k;
            if i < s.len() {
                assert(s[i].id.key() == k);
            }
        }
        if entry_keys(s).contains(k) {
            let i = choose|i: int| 0 <= i < s.len() && #[trigger] s[i].id.key() == k;
            assert(t[i].id.key() == k);
        }
        if k == x.id.key() {
            assert(t[s.len() as int].id.key() == k);
        }
    }
    assert(entry_keys(t) =~= entry_keys(s).insert(x.id.key()));
}

/// In a list of distinct entries, an entry's key is not among those before it.
pub proof fn lemma_distinct_entry_fresh<S>(v: Seq<Watched<S>>, e: int)
    requires
        distinct_entries(v),
        0 <= e < v.len(),
    ensures
        !entry_keys(v.take(e)).contains(v[e].id.key()),
{
    if entry_keys(v.take(e)).contains(v[e].id.key()) {
        let j = choose|j: int| 0 <= j < e && #[trigger] v.take(e)[j].id.key() == v[e].id.key();
        assert(v[j].id.key() == v[e].id.key());
    }
}

/// A key of a list of identifiers is the key of one of them.
pub proof fn lemma_key_member(s: Seq<ContainerId>, i: int)
    requires
        0 <= i < s.len(),
    ensures
        keys_of(s).contains(s[i].key()),
{
}

/// Appending an element to a list adds exactly that element to its members.
pub proof fn lemma_contains_push<T>(s: Seq<T>, x: T, y: T)
    ensures
        s.push(x).contains(y) == (s.contains(y) || y == x),
{
    let t = s.push(x);
    if t.contains(y) {
        let i = choose|i: int| 0 <= i < t.len() && t[i] == y;
        if i < s.len() {
            assert(s[i] == y);
        }
    }
    if s.contains(y) {
        let i = choose|i: int| 0 <= i < s.len() && s[i] == y;
        assert(t[i] == y);
    }
    if y == x {
        assert(t[s.len() as int] == y);
    }
}

/// Appending an entry whose key is new keeps the entries distinct.
pub proof fn lemma_distinct_push<S>(s: Seq<Watched<S>>, x: Watched<S>)
    requires
        distinct_entries(s),
        !entry_keys(s).contains(x.id.key()),
    ensures
        distinct_entries(s.push(x)),
{
    let t = s.push(x);
    assert forall|a: int, b: int|
        0 <= a < t.len() && 0 <= b < t.len() && a != b implies #[trigger] t[a].id.key()
            != #[trigger] t[b].id.key() by {
        if a == s.len() {
            assert(entry_keys(s).contains(s[b].id.key()));
        } else if b == s.len() {
            assert(entry_keys(s).contains(s[a].id.key()));
        } else {
            assert(t[a] == s[a] && t[b] == s[b]);
        }
    }
}

/// Whether `x` is an entry after a refresh of `before` against a snapshot
/// with these keys, in which the sessions of `opened` were opened.
pub open spec fn after_refresh<S>(
    before: Seq<Watched<S>>,
    snapshot: Set<Seq<u8>>,
    opened: Seq<Watched<S>>,
    x: Watched<S>,
) -> bool {
    (before.contains(x) && snapshot.contains(x.id.key())) || opened.contains(x)
}

/// A refresh against a snapshot that names exactly the tracked containers
/// adds nothing, removes nothing, and keeps every entry, session included,
/// as it was.
pub proof fn lemma_refresh_idempotent<S>(before: Seq<Watched<S>>, snapshot: Set<Seq<u8>>)
    requires
        entry_keys(before) == snapshot,
    ensures
        added_keys(entry_keys(before), snapshot) == Set::<Seq<u8>>::empty(),
        removed_keys(entry_keys(before), snapshot) == Set::<Seq<u8>>::empty(),
        next_running(entry_keys(before), snapshot, entry_keys(Seq::<Watched<S>>::empty()))
            == entry_keys(before),
        forall|x: Watched<S>|
            #[trigger] after_refresh(before, snapshot, Seq::<Watched<S>>::empty(), x)
                == before.contains(x),
{
    assert(added_keys(entry_keys(before), snapshot) =~= Set::<Seq<u8>>::empty());
    assert(removed_keys(entry_keys(before), snapshot) =~= Set::<Seq<u8>>::empty());
    assert(entry_keys(Seq::<Watched<S>>::empty()) =~= Set::<Seq<u8>>::empty());
    assert(next_running(entry_keys(before), snapshot, Set::<Seq<u8>>::empty()) =~= entry_keys(
        before,
    ));
    assert forall|x: Watched<S>|
        #[trigger] after_refresh(before, snapshot, Seq::<Watched<S>>::empty(), x)
            == before.contains(x) by {
        if before.contains(x) {
            let i = choose|i: int| 0 <= i < before.len() && before[i] == x;
            assert(entry_keys(before).contains(before[i].id.key()));
        }
    }
}

/// When a session opens for every added container, the running set after
/// the refresh is the snapshot; when some fail to open, it is the snapshot
/// without them. Either way nothing outside the snapshot stays tracked.
pub proof fn lemma_running_follows_snapshot(
    running: Set<Seq<u8>>,
    snapshot: Set<Seq<u8>>,
    opened: Set<Seq<u8>>,
)
    requires
        opened.subset_of(added_keys(running, snapshot)),
    ensures
        next_running(running, snapshot, opened).subset_of(snapshot),
        next_running(running, snapshot, opened) == snapshot.difference(
            added_keys(running, snapshot).difference(opened),
        ),
        opened == added_keys(running, snapshot) ==> next_running(running, snapshot, opened)
            == snapshot,
{
    assert(next_running(running, snapshot, opened) =~= snapshot.difference(
        added_keys(running, snapshot).difference(opened),
    ));
    if opened == added_keys(running, snapshot) {
        assert(next_running(running, snapshot, opened) =~= snapshot);
    }
}

/// The containers this process believes are running, each with its session.
pub struct DockerSystem<S> {
    entries: Vec<Watched<S>>,
}

impl<S> DockerSystem<S> {
    /// The tracked entries, in no particular order.
    pub closed spec fn entries(&self) -> Seq<Watched<S>> {
        self.entries@
    }

    #[verifier::type_invariant]
    spec fn inv(&self) -> bool {
        distinct_entries(self.entries@)
    }

    /// Each container is tracked once: every value of this type keeps it.
    pub open spec fn wf(&self) -> bool {
        distinct_entries(self.entries())
    }

    /// The running set: the owners of the live sessions.
    pub open spec fn running(&self) -> Set<Seq<u8>> {
        entry_keys(self.entries())
    }

    /// A system that tracks nothing yet.
    pub fn empty() -> (r: Self)
        ensures
            r.wf(),
            r.entries() == Seq::<Watched<S>>::empty(),
            r.running() == Set::<Seq<u8>>::empty(),
    {
        let r = DockerSystem { entries: Vec::new() };
        assert(r.running() =~= Set::<Seq<u8>>::empty());
        r
    }

    /// Number of tracked containers.
    pub fn len(&self) -> (r: usize)
        ensures
            r == self.entries().len(),
    {
        self.entries.len()
    }

    /// The entry at a position.
    pub fn entry(&self, i: usize) -> (r: &Watched<S>)
        requires
            i < self.entries().len(),
        ensures
            *r == self.entries()[i as int],
    {
        &self.entries[i]
    }

    /// Whether the container of `id` is tracked.
    pub fn tracks(&self, id: &ContainerId) -> (r: bool)
        ensures
            r == self.running().contains(id.key()),
    {
        let mut i: usize = 0;
        while i < self.entries.len()
            invariant
                i <= self.entries@.len(),
                forall|j: int| 0 <= j < i ==> #[trigger] self.entries@[j].id.key() != id.key(),
            decreases self.entries@.len() - i,
        {
            if self.entries[i].id.same_container(id) {
                assert(self.entries@[i as int].id.key() == id.key());
                return true;
            }
            i = i + 1;
        }
        false
    }

    /// The running set as canonical short identifiers, one per tracked container.
    pub fn running_containers(&self) -> (r: Vec<String>)
        ensures
            self.wf(),
            r@.len() == self.entries().len(),
            forall|i: int|
                0 <= i < r@.len() ==> #[trigger] r@[i]@ == hex_of_bytes(
                    self.entries()[i].id.key(),
                ),
    {
        proof {
            use_type_invariant(self);
        }
        let mut r: Vec<String> = Vec::new();
        let mut i: usize = 0;
        while i < self.entries.len()
            invariant
                i <= self.entries@.len(),
                r@.len() == i,
                forall|j: int|
                    0 <= j < i ==> #[trigger] r@[j]@ == hex_of_bytes(self.entries@[j].id.key()),
            decreases self.entries@.len() - i,
        {
            r.push(self.entries[i].id.short_hex());
            i = i + 1;
        }
        r
    }
    /// Compares the tracked containers with a snapshot: `added` names each
    /// container of the snapshot that is not tracked, once, with its digest as
    /// the snapshot gives it; `removed` names each tracked container that the
    /// snapshot lacks.
    pub fn plan(&self, snapshot: &Vec<ContainerId>) -> (d: Delta)
        ensures
            keys_of(d.added@) == added_keys(self.running(), keys_of(snapshot@)),
            distinct_ids(d.added@),
            digests_from(d.added@, snapshot@),
            keys_of(d.removed@) == removed_keys(self.running(), keys_of(snapshot@)),
            distinct_ids(d.removed@),
    {
        proof {
            use_type_invariant(self);
        }
        let mut added: Vec<ContainerId> = Vec::new();
        let mut i: usize = 0;
        proof {
            assert(keys_of(added@) =~= keys_of(snapshot@.take(0)).difference(self.running()));
        }
        while i < snapshot.len()
            invariant
                i <= snapshot@.len(),
                keys_of(added@) == keys_of(snapshot@.take(i as int)).difference(self.running()),
                distinct_ids(added@),
                digests_from(added@, snapshot@),
            decreases snapshot@.len() - i,
        {
            let id = &snapshot[i];
            let ghost before = added@;
            proof {
                assert(snapshot@.take(i + 1) =~= snapshot@.take(i as int).push(snapshot@[i as int]));
                lemma_keys_push(snapshot@.take(i as int), snapshot@[i as int]);
            }
            if !self.tracks(id) && !contains_key(&added, id) {
                let copy = id.duplicate();
                added.push(copy);
                proof {
                    lemma_keys_push(before, added@[before.len() as int]);
                    assert(added@ == before.push(added@[before.len() as int]));
                    assert(added@[before.len() as int]@ == snapshot@[i as int]@);
                    assert forall|a: int, b: int|
                        0 <= a < added@.len() && 0 <= b < added@.len() && a != b implies
                        #[trigger] added@[a].key() != #[trigger] added@[b].key() by {
                        if a == before.len() {
                            lemma_key_member(before, b);
                        } else if b == before.len() {
                            lemma_key_member(before, a);
                        }
                    }
                    assert forall|a: int| 0 <= a < added@.len() implies exists|j: int|
                        0 <= j < snapshot@.len() && #[trigger] added@[a]@ == snapshot@[j]@ by {
                        if a < before.len() {
                            assert(added@[a] == before[a]);
                            let j = choose|j: int| 0 <= j < snapshot@.len() && #[trigger] before[a]@ == snapshot@[j]@;
                            assert(added@[a]@ == snapshot@[j]@);
                        } else {
                            assert(added@[a]@ == snapshot@[i as int]@);
                        }
                    }
                }
            }
            proof {
                assert(keys_of(added@) =~= keys_of(snapshot@.take(i + 1)).difference(self.running()));
            }
            i = i + 1;
        }
        assert(snapshot@.take(snapshot@.len() as int) =~= snapshot@);

        let mut removed: Vec<ContainerId> = Vec::new();
        let mut e: usize = 0;
        proof {
            assert(keys_of(removed@) =~= entry_keys(self.entries@.take(0)).difference(keys_of(snapshot@)));
        }
        while e < self.entries.len()
            invariant
                e <= self.entries@.len(),
                self.wf(),
                keys_of(removed@) == entry_keys(self.entries@.take(e as int)).difference(keys_of(snapshot@)),
                distinct_ids(removed@),
                digests_from(added@, snapshot@),
            decreases self.entries@.len() - e,
        {
            let ghost before = removed@;
            let current = &self.entries[e].id;
            proof {
                assert(self.entries@.take(e + 1) =~= self.entries@.take(e as int).push(self.entries@[e as int]));
                lemma_entry_keys_push(self.entries@.take(e as int), self.entries@[e as int]);
                lemma_distinct_entry_fresh(self.entries@, e as int);
            }
            if !contains_key(snapshot, current) {
                removed.push(current.duplicate());
                proof {
                    lemma_keys_push(before, removed@[before.len() as int]);
                    assert(removed@ == before.push(removed@[before.len() as int]));
                    assert forall|a: int, b: int|
                        0 <= a < removed@.len() && 0 <= b < removed@.len() && a != b implies
                        #[trigger] removed@[a].key() != #[trigger] removed@[b].key() by {
                        if a == before.len() {
                            lemma_key_member(before, b);
                        } else if b == before.len() {
                            lemma_key_member(before, a);
                        }
                    }
                }
            }
            proof {
                assert(keys_of(removed@) =~= entry_keys(self.entries@.take(e + 1)).difference(keys_of(snapshot@)));
            }
            e = e + 1;
        }
        assert(self.entries@.take(self.entries@.len() as int) =~= self.entries@);
        Delta { added, removed }
    }
    /// Completes a refresh against `snapshot`. `opened` holds the sessions
    /// that could be opened for containers of the snapshot not yet tracked;
    /// containers whose session failed to open stay untracked and come up
    /// again as added on the next refresh. Entries whose container is still
    /// in the snapshot are kept as they are, the opened ones join them, and
    /// the entries whose container left the snapshot are handed back so that
    /// their sessions can be closed.
    pub fn apply(&mut self, snapshot: &Vec<ContainerId>, opened: Vec<Watched<S>>) -> (discarded: Vec<
        Watched<S>,
    >)
        requires
            distinct_entries(opened@),
            entry_keys(opened@).subset_of(added_keys(old(self).running(), keys_of(snapshot@))),
        ensures
            final(self).wf(),
            final(self).running() == next_running(
                old(self).running(),
                keys_of(snapshot@),
                entry_keys(opened@),
            ),
            forall|x: Watched<S>|
                #[trigger] final(self).entries().contains(x) <==> after_refresh(
                    old(self).entries(),
                    keys_of(snapshot@),
                    opened@,
                    x,
                ),
            forall|x: Watched<S>|
                #[trigger] discarded@.contains(x) <==> old(self).entries().contains(x)
                    && !keys_of(snapshot@).contains(x.id.key()),
    {
        proof {
            use_type_invariant(&*self);
        }
        let ghost snap = keys_of(snapshot@);
        let ghost orig = self.entries@;
        let ghost fresh = opened@;
        let mut rest: Vec<Watched<S>> = Vec::new();
        std::mem::swap(&mut self.entries, &mut rest);
        let count: usize = rest.len();
        let mut opened = opened;
        let mut kept: Vec<Watched<S>> = Vec::new();
        let mut discarded: Vec<Watched<S>> = Vec::new();
        let mut n: usize = 0;
        proof {
            assert(orig.take(0) =~= Seq::<Watched<S>>::empty());
            assert(entry_keys(kept@) =~= entry_keys(orig.take(0)).intersect(snap));
        }
        while rest.len() > 0
            invariant
                snap == keys_of(snapshot@),
                n + rest@.len() == orig.len(),
                orig.len() == count,
                rest@ == orig.skip(n as int),
                distinct_entries(orig),
                distinct_entries(kept@),
                entry_keys(kept@) == entry_keys(orig.take(n as int)).intersect(snap),
                forall|x: Watched<S>|
                    #[trigger] kept@.contains(x) <==> orig.take(n as int).contains(x)
                        && snap.contains(x.id.key()),
                forall|x: Watched<S>|
                    #[trigger] discarded@.contains(x) <==> orig.take(n as int).contains(x)
                        && !snap.contains(x.id.key()),
            decreases rest@.len(),
        {
            let e = rest.remove(0);
            let ghost kb = kept@;
            let ghost db = discarded@;
            proof {
                assert(e == orig[n as int]);
                assert(orig.take(n + 1) =~= orig.take(n as int).push(e));
                assert(rest@ =~= orig.skip(n + 1));
                lemma_entry_keys_push(orig.take(n as int), e);
                lemma_distinct_entry_fresh(orig, n as int);
            }
            if contains_key(snapshot, &e.id) {
                kept.push(e);
                proof {
                    lemma_entry_keys_push(kb, e);
                    lemma_distinct_push(kb, e);
                    assert(entry_keys(kept@) =~= entry_keys(orig.take(n + 1)).intersect(snap));
                }
            } else {
                discarded.push(e);
                proof {
                    assert(entry_keys(kept@) =~= entry_keys(orig.take(n + 1)).intersect(snap));
                }
            }
            proof {
                assert forall|x: Watched<S>|
                    #[trigger] kept@.contains(x) <==> orig.take(n + 1).contains(x)
                        && snap.contains(x.id.key()) by {
                    lemma_contains_push(orig.take(n as int), e, x);
                    lemma_contains_push(kb, e, x);
                }
                assert forall|x: Watched<S>|
                    #[trigger] discarded@.contains(x) <==> orig.take(n + 1).contains(x)
                        && !snap.contains(x.id.key()) by {
                    lemma_contains_push(orig.take(n as int), e, x);
                    lemma_contains_push(db, e, x);
                }
            }
            n = n + 1;
        }
        proof {
            assert(orig.take(n as int) =~= orig);
        }
        let mut m: usize = 0;
        let total: usize = opened.len();
        proof {
            assert(fresh.take(0) =~= Seq::<Watched<S>>::empty());
            assert(entry_keys(kept@) =~= entry_keys(orig).intersect(snap).union(entry_keys(fresh.take(0))));
        }
        while opened.len() > 0
            invariant
                snap == keys_of(snapshot@),
                m + opened@.len() == fresh.len(),
                fresh.len() == total,
                opened@ == fresh.skip(m as int),
                distinct_entries(fresh),
                entry_keys(fresh).subset_of(added_keys(entry_keys(orig), snap)),
                distinct_entries(kept@),
                entry_keys(kept@) == entry_keys(orig).intersect(snap).union(
                    entry_keys(fresh.take(m as int)),
                ),
                forall|x: Watched<S>|
                    #[trigger] kept@.contains(x) <==> (orig.contains(x) && snap.contains(x.id.key()))
                        || fresh.take(m as int).contains(x),
                forall|x: Watched<S>|
                    #[trigger] discarded@.contains(x) <==> orig.contains(x)
                        && !snap.contains(x.id.key()),
            decreases opened@.len(),
        {
            let o = opened.remove(0);
            let ghost kb = kept@;
            proof {
                assert(o == fresh[m as int]);
                assert(fresh.take(m + 1) =~= fresh.take(m as int).push(o));
                assert(opened@ =~= fresh.skip(m + 1));
                lemma_entry_keys_push(fresh.take(m as int), o);
                lemma_distinct_entry_fresh(fresh, m as int);
                assert(entry_keys(fresh).contains(o.id.key())) by {
                    assert(fresh[m as int].id.key() == o.id.key());
                }
                assert(!entry_keys(orig).contains(o.id.key()));
            }
            kept.push(o);
            proof {
                lemma_entry_keys_push(kb, o);
                lemma_distinct_push(kb, o);
                assert(entry_keys(kept@) =~= entry_keys(orig).intersect(snap).union(
                    entry_keys(fresh.take(m + 1)),
                ));
                assert forall|x: Watched<S>|
                    #[trigger] kept@.contains(x) <==> (orig.contains(x) && snap.contains(x.id.key()))
                        || fresh.take(m + 1).contains(x) by {
                    lemma_contains_push(fresh.take(m as int), o, x);
                    lemma_contains_push(kb, o, x);
                }
            }
            m = m + 1;
        }
        proof {
            assert(fresh.take(m as int) =~= fresh);
        }
        self.entries = kept;
        discarded
    }
    /// First step of a refresh: reads the runtime's container list from
    /// `body` (see `parse_snapshot`) and compares it with the tracked set. It
    /// changes nothing, so a body that cannot be read leaves every tracked
    /// container and session as it was.
    pub fn prepare_refresh(&self, body: &[u8]) -> (r: Result<Refresh, FetchError>)
        ensures
            r is Ok <==> (json_id_texts(body@) matches Some(t) && valid_texts(t)),
            r matches Err(e) ==> e == FetchError::Malformed,
            r matches Ok(p) ==> (json_id_texts(body@) matches Some(t) && ids_match(p.snapshot@, t)),
            r matches Ok(p) ==> {
                &&& keys_of(p.delta.added@) == added_keys(self.running(), keys_of(p.snapshot@))
                &&& distinct_ids(p.delta.added@)
                &&& digests_from(p.delta.added@, p.snapshot@)
                &&& keys_of(p.delta.removed@) == removed_keys(self.running(), keys_of(p.snapshot@))
                &&& distinct_ids(p.delta.removed@)
            },
    {
        match parse_snapshot(body) {
            Ok(snapshot) => {
                let delta = self.plan(&snapshot);
                Ok(Refresh { snapshot, delta })
            },
            Err(e) => Err(e),
        }
    }
}

} // verus!
