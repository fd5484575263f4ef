//! The shared sink registry and the per-session known-set.
//!
//! A sink is any destination that accepts written bytes: a network
//! connection, a subprocess input pipe, or a liveness-only probe.  The
//! registry maps an opaque consumer key (a string such as a remote
//! address or a synthesized snapshot key) to the kind of its sink; the
//! I/O handles themselves live with the caller, keyed identically.
//! Keys are unique.  Probe sinks are excluded from the demand test that
//! gates session creation.

use vstd::prelude::*;

verus! {

/// The capability kind standing behind a registered key.
#[derive(Clone, Copy, PartialEq, Eq, Structural, Debug)]
pub enum SinkKind {
    /// A network connection to a live consumer.
    Network,
    /// The input pipe of a spawned subprocess.
    Pipe,
    /// A no-op liveness probe; never counts as a real consumer.
    Probe,
}

/// No two elements are equal.
pub open spec fn distinct_seq<T>(s: Seq<T>) -> bool {
    forall|i: int, j: int| 0 <= i < j < s.len() ==> s[i] != s[j]
}

/// The elements of `s` whose flag in `ok` is set, in order.
pub open spec fn keep_flags<T>(s: Seq<T>, ok: Seq<bool>) -> Seq<T>
    decreases s.len(),
{
    if s.len() == 0 {
        Seq::empty()
    } else {
        (if ok[0] {
            seq![s[0]]
        } else {
            Seq::empty()
        }) + keep_flags(s.skip(1), ok.skip(1))
    }
}

/// Whatever `keep_flags` returns was already in `s`.
pub proof fn lemma_keep_flags_member<T>(s: Seq<T>, ok: Seq<bool>, x: T)
    requires
        s.len() == ok.len(),
        keep_flags(s, ok).contains(x),
    ensures
        s.contains(x),
    decreases s.len(),
{
    if s.len() > 0 {
        if ok[0] && keep_flags(s, ok)[0] == x {
            assert(s[0] == x);
        } else {
            assert(keep_flags(s.skip(1), ok.skip(1)).contains(x)) by {
                let r = keep_flags(s, ok);
                let head: Seq<T> = if ok[0] {
                    seq![s[0]]
                } else {
                    Seq::empty()
                };
                let i = choose|i: int| 0 <= i < r.len() && r[i] == x;
                assert(r[i] == keep_flags(s.skip(1), ok.skip(1))[i - head.len()]);
            }
            lemma_keep_flags_member(s.skip(1), ok.skip(1), x);
            let i = choose|i: int| 0 <= i < s.skip(1).len() && s.skip(1)[i] == x;
            assert(s[i + 1] == x);
        }
    }
}

/// An element whose flag is cleared does not survive the filter, as long
/// as the sequence is duplicate-free.
pub proof fn lemma_keep_flags_dropped<T>(s: Seq<T>, ok: Seq<bool>, i: int)
    requires
        s.len() == ok.len(),
        distinct_seq(s),
        0 <= i < s.len(),
        !ok[i],
    ensures
        !keep_flags(s, ok).contains(s[i]),
    decreases s.len(),
{
    let r = keep_flags(s, ok);
    let tail = keep_flags(s.skip(1), ok.skip(1));
    assert(distinct_seq(s.skip(1))) by {
        assert(forall|m: int, j: int|
            0 <= m < j < s.skip(1).len() ==> s.skip(1)[m] == s[m + 1] && s.skip(1)[j] == s[j + 1]);
    }
    if i == 0 {
        if r.contains(s[0]) {
            let m = choose|m: int| 0 <= m < r.len() && r[m] == s[0];
            assert(r[m] == tail[m]);
            lemma_keep_flags_member(s.skip(1), ok.skip(1), s[0]);
            let p = choose|p: int| 0 <= p < s.skip(1).len() && s.skip(1)[p] == s[0];
            assert(s[p + 1] == s[0]);
        }
    } else {
        lemma_keep_flags_dropped(s.skip(1), ok.skip(1), i - 1);
        assert(s.skip(1)[i - 1] == s[i]);
        if r.contains(s[i]) {
            let m = choose|m: int| 0 <= m < r.len() && r[m] == s[i];
            if ok[0] && m == 0 {
                assert(s[0] == s[i]);
            } else {
                let head: Seq<T> = if ok[0] {
                    seq![s[0]]
                } else {
                    Seq::empty()
                };
                assert(r[m] == tail[m - head.len()]);
                assert(tail.contains(s[i]));
            }
        }
    }
}

/// How many of the registered kinds stand for a real consumer.
pub open spec fn count_consumers(kinds: Seq<SinkKind>) -> nat
    decreases kinds.len(),
{
    if kinds.len() == 0 {
        0
    } else {
        count_consumers(kinds.drop_last()) + (if kinds.last() != SinkKind::Probe {
            1nat
        } else {
            0nat
        })
    }
}

/// The count never exceeds the number of entries.
pub proof fn lemma_count_consumers_le(kinds: Seq<SinkKind>)
    ensures
        count_consumers(kinds) <= kinds.len(),
    decreases kinds.len(),
{
    if kinds.len() > 0 {
        lemma_count_consumers_le(kinds.drop_last());
    }
}

/// The keyed collection of sinks, shared by every task of the system.
/// Entries are inserted by listeners and by the snapshot path, and
/// removed when a write to the sink fails.
pub struct SinkRegistry {
    keys: Vec<String>,
    kinds: Vec<SinkKind>,
}

impl SinkRegistry {
    /// The registered keys, in iteration order.
    pub closed spec fn keys(&self) -> Seq<Seq<char>> {
        self.keys@.map_values(|k: String| k@)
    }

    /// The registered kinds, aligned with `keys`.
    pub closed spec fn kinds(&self) -> Seq<SinkKind> {
        self.kinds@
    }

    /// Keys are unique and every key has a kind.
    pub open spec fn wf(&self) -> bool {
        &&& self.keys().len() == self.kinds().len()
        &&& distinct_seq(self.keys())
    }

    /// `k` is registered.
    pub open spec fn contains_key(&self, k: Seq<char>) -> bool {
        self.keys().contains(k)
    }

    /// An empty registry.
    pub fn new() -> (r: Self)
        ensures
            r.wf(),
            r.keys() == Seq::<Seq<char>>::empty(),
            r.kinds() == Seq::<SinkKind>::empty(),
    {
        let r = SinkRegistry { keys: Vec::new(), kinds: Vec::new() };
        proof {
            assert(r.keys() =~= Seq::<Seq<char>>::empty());
        }
        r
    }

    /// Number of registered sinks.
    pub fn len(&self) -> (n: usize)
        requires
            self.wf(),
        ensures
            n == self.keys().len(),
    {
        self.keys.len()
    }

    /// The key at position `i`.
    pub fn key_at(&self, i: usize) -> (k: &String)
        requires
            self.wf(),
            i < self.keys().len(),
        ensures
            k@ == self.keys()[i as int],
    {
        &self.keys[i]
    }

    /// The kind at position `i`.
    pub fn kind_at(&self, i: usize) -> (k: SinkKind)
        requires
            self.wf(),
            i < self.kinds().len(),
        ensures
            k == self.kinds()[i as int],
    {
        self.kinds[i]
    }

    /// Position of `key`, if registered.
    fn find(&self, key: &String) -> (r: Option<usize>)
        requires
            self.wf(),
        ensures
            match r {
                Some(i) => i < self.keys().len() && self.keys()[i as int] == key@,
                None => !self.contains_key(key@),
            },
    {
        let mut i: usize = 0;
        while i < self.keys.len()
            invariant
                self.wf(),
                i <= self.keys().len(),
                forall|j: int| 0 <= j < i ==> self.keys()[j] != key@,
            decreases self.keys().len() - i,
        {
            if self.keys[i].eq(key) {
                return Some(i);
            }
            i = i + 1;
        }
        proof {
            if self.contains_key(key@) {
                let j = choose|j: int| 0 <= j < self.keys().len() && self.keys()[j] == key@;
                assert(self.keys()[j] != key@);
            }
        }
        None
    }

    /// Register `key` with the given sink kind.  A fresh key is appended;
    /// re-registering an existing key replaces its sink.
    pub fn register(&mut self, key: String, kind: SinkKind)
        requires
            old(self).wf(),
        ensures
            final(self).wf(),
            final(self).contains_key(key@),
            old(self).contains_key(key@) ==> final(self).keys() == old(self).keys()
                && (exists|i: int|
                0 <= i < old(self).keys().len() && old(self).keys()[i] == key@ && final(self).kinds() == old(self).kinds().update(i, kind)),
            !old(self).contains_key(key@) ==> final(self).keys() == old(self).keys().push(key@)
                && final(self).kinds() == old(self).kinds().push(kind),
    {
        let found = self.find(&key);
        match found {
            Some(i) => {
                self.kinds[i] = kind;
                proof {
                    assert(self.keys() =~= old(self).keys());
                    assert(self.keys()[i as int] == key@);
                }
            },
            None => {
                self.keys.push(key);
                self.kinds.push(kind);
                proof {
                    assert(self.keys() =~= old(self).keys().push(key@));
                    assert(self.keys()[self.keys().len() - 1] == key@);
                }
            },
        }
    }

    /// Remove `key` if it is registered; without it nothing changes.
    pub fn remove(&mut self, key: &String)
        requires
            old(self).wf(),
        ensures
            final(self).wf(),
            !final(self).contains_key(key@),
            !old(self).contains_key(key@) ==> final(self).keys() == old(self).keys() && final(self).kinds() == old(self).kinds(),
            old(self).contains_key(key@) ==> exists|i: int|
                0 <= i < old(self).keys().len() && old(self).keys()[i] == key@ && final(self).keys() == old(self).keys().remove(i) && final(self).kinds() == old(
                    self,
                ).kinds().remove(i),
    {
        let found = self.find(key);
        match found {
            Some(i) => {
                self.remove_at(i);
                proof {
                    let ks = self.keys();
                    if ks.contains(key@) {
                        let j = choose|j: int| 0 <= j < ks.len() && ks[j] == key@;
                        if j < i {
                            assert(old(self).keys()[j] == key@);
                        } else {
                            assert(old(self).keys()[j + 1] == key@);
                        }
                    }
                }
            },
            None => {},
        }
    }

    /// Remove the entry at position `i`.
    pub fn remove_at(&mut self, i: usize)
        requires
            old(self).wf(),
            i < old(self).keys().len(),
        ensures
            final(self).wf(),
            final(self).keys() == old(self).keys().remove(i as int),
            final(self).kinds() == old(self).kinds().remove(i as int),
    {
        self.keys.remove(i);
        self.kinds.remove(i);
        proof {
            assert(self.keys() =~= old(self).keys().remove(i as int));
        }
    }

    /// How many registered sinks are real consumers (probes excluded).
    pub fn consumer_count(&self) -> (n: usize)
        requires
            self.wf(),
        ensures
            n == count_consumers(self.kinds()),
    {
        proof {
            lemma_count_consumers_le(self.kinds());
        }
        let mut n: usize = 0;
        let mut i: usize = 0;
        proof {
            assert(count_consumers(self.kinds().take(0)) == 0) by {
                assert(self.kinds().take(0) =~= Seq::<SinkKind>::empty());
            }
        }
        while i < self.kinds.len()
            invariant
                self.wf(),
                i <= self.kinds().len(),
                n == count_consumers(self.kinds().take(i as int)),
                n <= i,
            decreases self.kinds().len() - i,
        {
            let is_consumer = match self.kinds[i] {
                SinkKind::Probe => false,
                _ => true,
            };
            proof {
                let t1 = self.kinds().take(i + 1);
                assert(t1.drop_last() =~= self.kinds().take(i as int));
                assert(t1.last() == self.kinds()[i as int]);
            }
            if is_consumer {
                n = n + 1;
            }
            i = i + 1;
        }
        proof {
            assert(self.kinds().take(self.kinds().len() as int) =~= self.kinds());
        }
        n
    }

    /// Whether any real consumer is registered: the demand test that
    /// gates session creation.
    pub fn has_consumers(&self) -> (r: bool)
        requires
            self.wf(),
        ensures
            r == (count_consumers(self.kinds()) > 0),
    {
        self.consumer_count() > 0
    }
}

/// The set of registry keys that already received a catch-up bundle in
/// the current session.  Session-scoped: a new session starts empty.
pub struct KnownSet {
    items: Vec<String>,
}

impl KnownSet {
    /// The keys in the set.
    pub closed spec fn keys(&self) -> Seq<Seq<char>> {
        self.items@.map_values(|k: String| k@)
    }

    /// `k` is in the set.
    pub open spec fn contains(&self, k: Seq<char>) -> bool {
        self.keys().contains(k)
    }

    /// No duplicates.
    pub open spec fn wf(&self) -> bool {
        distinct_seq(self.keys())
    }

    /// The empty set.
    pub fn new() -> (r: Self)
        ensures
            r.wf(),
            forall|k: Seq<char>| !r.contains(k),
    {
        let r = KnownSet { items: Vec::new() };
        proof {
            assert(r.keys() =~= Seq::<Seq<char>>::empty());
        }
        r
    }

    /// Membership test.
    pub fn contains_key(&self, key: &String) -> (r: bool)
        requires
            self.wf(),
        ensures
            r == self.contains(key@),
    {
        let mut i: usize = 0;
        while i < self.items.len()
            invariant
                i <= self.keys().len(),
                forall|j: int| 0 <= j < i ==> self.keys()[j] != key@,
            decreases self.keys().len() - i,
        {
            if self.items[i].eq(key) {
                proof {
                    assert(self.keys()[i as int] == key@);
                }
                return true;
            }
            i = i + 1;
        }
        proof {
            if self.contains(key@) {
                let j = choose|j: int| 0 <= j < self.keys().len() && self.keys()[j] == key@;
                assert(self.keys()[j] != key@);
            }
        }
        false
    }

    /// Add `key` to the set.
    pub fn insert(&mut self, key: String)
        requires
            old(self).wf(),
        ensures
            final(self).wf(),
            forall|k: Seq<char>| final(self).contains(k) == (old(self).contains(k) || k == key@),
    {
        if !self.contains_key(&key) {
            self.items.push(key);
            proof {
                assert(self.keys() =~= old(self).keys().push(key@));
                assert forall|k: Seq<char>| self.contains(k) == (old(self).contains(k) || k
                    == key@) by {
                    let ks = self.keys();
                    if self.contains(k) {
                        let j = choose|j: int| 0 <= j < ks.len() && ks[j] == k;
                        if j < old(self).keys().len() {
                            assert(old(self).keys()[j] == k);
                        }
                    }
                    if old(self).contains(k) {
                        let j = choose|j: int|
                            0 <= j < old(self).keys().len() && old(self).keys()[j] == k;
                        assert(ks[j] == k);
                    }
                    if k == key@ {
                        assert(ks[ks.len() - 1] == k);
                    }
                }
            }
        }
    }

    /// Remove `key` from the set.
    pub fn remove(&mut self, key: &String)
        requires
            old(self).wf(),
        ensures
            final(self).wf(),
            forall|k: Seq<char>| final(self).contains(k) == (old(self).contains(k) && k != key@),
    {
        let mut i: usize = 0;
        while i < self.items.len()
            invariant
                self.wf(),
                i <= self.keys().len(),
                self.keys() == old(self).keys(),
                self == old(self),
                forall|j: int| 0 <= j < i ==> self.keys()[j] != key@,
            decreases self.keys().len() - i,
        {
            if self.items[i].eq(key) {
                let ghost pos = i as int;
                self.items.remove(i);
                proof {
                    assert(self.keys() =~= old(self).keys().remove(pos));
                    assert(old(self).keys()[pos] == key@);
                    assert forall|k: Seq<char>| self.contains(k) == (old(self).contains(k)
                        && k != key@) by {
                        let ks = self.keys();
                        let os = old(self).keys();
                        assert(os[pos] == key@);
                        if self.contains(k) {
                            let j = choose|j: int| 0 <= j < ks.len() && ks[j] == k;
                            if j < pos {
                                assert(os[j] == k);
                                assert(k != key@);
                            } else {
                                assert(os[j + 1] == k);
                                assert(k != key@);
                            }
                        }
                        if old(self).contains(k) && k != key@ {
                            let j = choose|j: int| 0 <= j < os.len() && os[j] == k;
                            if j < pos {
                                assert(ks[j] == k);
                            } else {
                                assert(j != pos);
                                assert(ks[j - 1] == k);
                            }
                        }
                    }
                }
                return ;
            }
            i = i + 1;
        }
        proof {
            if old(self).contains(key@) {
                let j = choose|j: int| 0 <= j < self.keys().len() && self.keys()[j] == key@;
                assert(self.keys()[j] != key@);
            }
        }
    }
}

} // verus!
