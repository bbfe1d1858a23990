//! The in-memory cache of stored packages, a least-recently-used cache of
//! bounded size keyed by package name.
use std::sync::Arc;

use lru::LruCache;
use vstd::prelude::*;

use crate::document::MinimalPackageData;
use crate::error::ServerError;
use crate::text::string_of;

verus! {

/// How many packages the cache holds at most.
pub const PACKAGE_CACHE_CAPACITY: usize = 500;

#[verifier::external_type_specification]
#[verifier::external_body]
#[verifier::reject_recursive_types(K)]
#[verifier::reject_recursive_types(V)]
#[verifier::reject_recursive_types(S)]
pub struct ExLruCache<K, V, S>(LruCache<K, V, S>);

#[verifier::external_type_specification]
#[verifier::external_body]
pub struct ExLruDefaultHasher(lru::DefaultHasher);

/// An LRU cache of packages keyed by name.
pub type PackageLru = LruCache<String, Arc<MinimalPackageData>>;

/// The packages that an LRU cache holds, by name.
pub uninterp spec fn lru_packages(cache: PackageLru) -> Map<
    Seq<char>,
    MinimalPackageData,
>;

/// The names that an LRU cache holds, most recently used first.
pub uninterp spec fn lru_recency(cache: PackageLru) -> Seq<Seq<char>>;

/// The capacity that an LRU cache was made with.
pub uninterp spec fn lru_capacity(cache: PackageLru) -> nat;

/// `s` without the occurrences of `k`, the rest in order.
pub open spec fn without(s: Seq<Seq<char>>, k: Seq<char>) -> Seq<Seq<char>>
    decreases s.len(),
{
    if s.len() == 0 {
        s
    } else if s.last() == k {
        without(s.drop_last(), k)
    } else {
        without(s.drop_last(), k).push(s.last())
    }
}

/// The recency order after `k` is used: `k` first, the others in order.
pub open spec fn touched(s: Seq<Seq<char>>, k: Seq<char>) -> Seq<Seq<char>> {
    seq![k] + without(s, k)
}

/// A recency order that lists each key of `map` once, and no other, and
/// holds at most `cap` keys.
pub open spec fn recency_consistent(
    order: Seq<Seq<char>>,
    map: Map<Seq<char>, MinimalPackageData>,
    cap: nat,
) -> bool {
    &&& order.no_duplicates()
    &&& order.to_set() == map.dom()
    &&& order.len() <= cap
}

/// The packages a cache holds after the store's answer `p` for `k` is
/// recorded: `k` gets `p`; a new name in a full cache first evicts the least
/// recently used package (the last of `order`).
pub open spec fn recorded_map(
    m: Map<Seq<char>, MinimalPackageData>,
    order: Seq<Seq<char>>,
    k: Seq<char>,
    p: MinimalPackageData,
) -> Map<Seq<char>, MinimalPackageData> {
    if m.dom().contains(k) || order.len() < PACKAGE_CACHE_CAPACITY {
        m.insert(k, p)
    } else {
        m.remove(order.last()).insert(k, p)
    }
}

/// No stale read after a write: a write of `name` invalidates its cached
/// copy, so a lookup of `name` misses and reads the store; recording what the
/// store gave caches exactly that package, so later lookups of `name` return
/// it. Records of other names in between never make `name` cached again.
pub proof fn lemma_write_then_read(
    cached: Map<Seq<char>, MinimalPackageData>,
    order: Seq<Seq<char>>,
    name: Seq<char>,
    stored: MinimalPackageData,
    other: Seq<char>,
    other_pkg: MinimalPackageData,
)
    requires
        other != name,
    ensures
        !cached.remove(name).dom().contains(name),
        !cached.dom().contains(name) ==> !recorded_map(cached, order, other, other_pkg).dom().contains(
            name,
        ),
        recorded_map(cached, order, name, stored).dom().contains(name),
        recorded_map(cached, order, name, stored)[name] == stored,
{
}

/// What `without` keeps, and its length.
pub proof fn lemma_without(s: Seq<Seq<char>>, k: Seq<char>)
    ensures
        forall|x: Seq<char>| #[trigger] without(s, k).contains(x) <==> (s.contains(x) && x != k),
        s.no_duplicates() ==> without(s, k).no_duplicates(),
        s.no_duplicates() && s.contains(k) ==> without(s, k).len() + 1 == s.len(),
        !s.contains(k) ==> without(s, k) == s,
    decreases s.len(),
{
    if s.len() > 0 {
        let t: Seq<Seq<char>> = s.drop_last();
        lemma_without(t, k);
        assert forall|x: Seq<char>| #[trigger] s.contains(x) <==> (t.contains(x) || x == s.last()) by {
            if s.contains(x) {
                let i: int = choose|i: int| 0 <= i < s.len() && s[i] == x;
                if i < t.len() {
                    assert(t[i] == x);
                }
            }
            if t.contains(x) {
                let i: int = choose|i: int| 0 <= i < t.len() && t[i] == x;
                assert(s[i] == x);
            }
            if x == s.last() {
                assert(s[s.len() - 1] == x);
            }
        }
        if s.no_duplicates() {
            assert(t.no_duplicates());
            assert(!t.contains(s.last())) by {
                if t.contains(s.last()) {
                    let i: int = choose|i: int| 0 <= i < t.len() && t[i] == s.last();
                    assert(s[i] == s[s.len() - 1]);
                }
            }
        }
        if s.last() != k {
            let w: Seq<Seq<char>> = without(t, k);
            assert forall|x: Seq<char>| #[trigger] w.push(s.last()).contains(x) <==> (w.contains(x)
                || x == s.last()) by {
                if w.push(s.last()).contains(x) {
                    let i: int = choose|i: int| 0 <= i < w.len() + 1 && w.push(s.last())[i] == x;
                    if i < w.len() {
                        assert(w[i] == x);
                    }
                }
                if w.contains(x) {
                    let i: int = choose|i: int| 0 <= i < w.len() && w[i] == x;
                    assert(w.push(s.last())[i] == x);
                }
                if x == s.last() {
                    assert(w.push(s.last())[w.len() as int] == x);
                }
            }
            if s.no_duplicates() {
                assert(!w.contains(s.last()));
                assert forall|i: int, j: int|
                    0 <= i < w.len() + 1 && 0 <= j < w.len() + 1 && i != j implies w.push(
                    s.last(),
                )[i] != w.push(s.last())[j] by {
                    if i == w.len() {
                        assert(w.contains(w.push(s.last())[j]) || j == w.len());
                        if j < w.len() {
                            assert(w[j] == w.push(s.last())[j]);
                        }
                    } else if j == w.len() {
                        assert(w[i] == w.push(s.last())[i]);
                    }
                }
            }
            if !s.contains(k) {
                assert(without(s, k) =~= t.push(s.last()));
                assert(s =~= t.push(s.last()));
            }
        } else {
            if s.no_duplicates() && s.contains(k) {
                assert(!t.contains(k));
            }
        }
    }
}

/// Dropping the last of a list without repetitions drops exactly that key.
pub proof fn lemma_drop_last_contains(s: Seq<Seq<char>>)
    requires
        s.no_duplicates(),
        s.len() > 0,
    ensures
        forall|x: Seq<char>| #[trigger] s.drop_last().contains(x) <==> (s.contains(x) && x
            != s.last()),
        s.drop_last().no_duplicates(),
{
    let t: Seq<Seq<char>> = s.drop_last();
    assert forall|x: Seq<char>| #[trigger] t.contains(x) <==> (s.contains(x) && x != s.last()) by {
        if t.contains(x) {
            let i: int = choose|i: int| 0 <= i < t.len() && t[i] == x;
            assert(s[i] == x);
            assert(s[i] != s[s.len() - 1]);
        }
        if s.contains(x) && x != s.last() {
            let i: int = choose|i: int| 0 <= i < s.len() && s[i] == x;
            assert(t[i] == x);
        }
    }
}

/// Putting a key not yet listed in front keeps the list free of repetitions.
pub proof fn lemma_prepend(s: Seq<Seq<char>>, k: Seq<char>)
    requires
        s.no_duplicates(),
        !s.contains(k),
    ensures
        (seq![k] + s).no_duplicates(),
        forall|x: Seq<char>| #[trigger] (seq![k] + s).contains(x) <==> (s.contains(x) || x == k),
{
    let t: Seq<Seq<char>> = seq![k] + s;
    assert forall|i: int, j: int| 0 <= i < t.len() && 0 <= j < t.len() && i != j implies t[i]
        != t[j] by {
        if i == 0 {
            assert(t[j] == s[j - 1]);
        } else if j == 0 {
            assert(t[i] == s[i - 1]);
        } else {
            assert(t[i] == s[i - 1] && t[j] == s[j - 1]);
        }
    }
    assert forall|x: Seq<char>| #[trigger] t.contains(x) <==> (s.contains(x) || x == k) by {
        if t.contains(x) {
            let i: int = choose|i: int| 0 <= i < t.len() && t[i] == x;
            if i > 0 {
                assert(s[i - 1] == x);
            }
        }
        if s.contains(x) {
            let i: int = choose|i: int| 0 <= i < s.len() && s[i] == x;
            assert(t[i + 1] == x);
        }
        if x == k {
            assert(t[0] == x);
        }
    }
}

/// An empty cache of capacity `cap`.
///
/// Trusted: calls `lru::LruCache::new`, which makes an empty cache of that
/// capacity (the capacity must be non-zero, which `requires` asks).
#[verifier::external_body]
fn lru_new(cap: usize) -> (r: PackageLru)
    requires
        cap > 0,
    ensures
        lru_packages(r).dom() == Set::<Seq<char>>::empty(),
        lru_recency(r) == Seq::<Seq<char>>::empty(),
        lru_capacity(r) == cap,
{
    LruCache::new(std::num::NonZeroUsize::new(cap).unwrap())
}

/// The package cached under `name`, if any (a shared handle to it).
///
/// Trusted: calls `lru::LruCache::get`, which finds the entry of the key,
/// moves it to the front of the recency list (most recently used) and keeps
/// every entry; a missing key changes nothing. The handle is cloned
/// (`Arc::clone`, which points to the same package).
#[verifier::external_body]
fn lru_get(cache: &mut PackageLru, name: &String) -> (r: Option<Arc<MinimalPackageData>>)
    ensures
        lru_packages(*final(cache)) == lru_packages(*old(cache)),
        lru_capacity(*final(cache)) == lru_capacity(*old(cache)),
        lru_recency(*final(cache)) == (if lru_packages(*old(cache)).dom().contains(name@) {
            touched(lru_recency(*old(cache)), name@)
        } else {
            lru_recency(*old(cache))
        }),
        match r {
            Some(p) => lru_packages(*old(cache)).dom().contains(name@) && *p == lru_packages(
                *old(cache),
            )[name@],
            None => !lru_packages(*old(cache)).dom().contains(name@),
        },
{
    match cache.get(name.as_str()) {
        Some(p) => Some(Arc::clone(p)),
        None => None,
    }
}

/// Caches `pkg` under `name`.
///
/// Trusted: calls `lru::LruCache::put`. A key already cached gets the new
/// value and moves to the front of the recency list. A new key goes to the
/// front; when the cache already holds as many entries as its capacity, the
/// entry at the back (the least recently used) is evicted first. No other
/// entry changes.
#[verifier::external_body]
fn lru_put(
    cache: &mut PackageLru,
    name: String,
    pkg: Arc<MinimalPackageData>,
)
    ensures
        lru_capacity(*final(cache)) == lru_capacity(*old(cache)),
        lru_packages(*old(cache)).dom().contains(name@) ==> {
            &&& lru_packages(*final(cache)) == lru_packages(*old(cache)).insert(name@, *pkg)
            &&& lru_recency(*final(cache)) == touched(lru_recency(*old(cache)), name@)
        },
        !lru_packages(*old(cache)).dom().contains(name@) && lru_recency(*old(cache)).len()
            < lru_capacity(*old(cache)) ==> {
            &&& lru_packages(*final(cache)) == lru_packages(*old(cache)).insert(name@, *pkg)
            &&& lru_recency(*final(cache)) == seq![name@] + lru_recency(*old(cache))
        },
        !lru_packages(*old(cache)).dom().contains(name@) && lru_recency(*old(cache)).len()
            >= lru_capacity(*old(cache)) ==> {
            &&& lru_packages(*final(cache)) == lru_packages(*old(cache)).remove(
                lru_recency(*old(cache)).last(),
            ).insert(name@, *pkg)
            &&& lru_recency(*final(cache)) == seq![name@] + lru_recency(*old(cache)).drop_last()
        },
{
    cache.put(name, pkg);
}

/// Drops the entry of `name`, if there is one.
///
/// Trusted: calls `lru::LruCache::pop`, which removes the entry of the key
/// (and its place in the recency list) and no other.
#[verifier::external_body]
fn lru_pop(cache: &mut PackageLru, name: &String)
    ensures
        lru_capacity(*final(cache)) == lru_capacity(*old(cache)),
        lru_packages(*final(cache)) == lru_packages(*old(cache)).remove(name@),
        lru_recency(*final(cache)) == without(lru_recency(*old(cache)), name@),
{
    cache.pop(name.as_str());
}

/// Another handle to the package behind `p`.
///
/// Trusted: calls `Arc::clone`, which std documents as making another
/// pointer to the same allocation.
#[verifier::external_body]
fn share_again(p: &Arc<MinimalPackageData>) -> (r: Arc<MinimalPackageData>)
    ensures
        *r == **p,
{
    Arc::clone(p)
}

/// The cache of stored packages, keyed by name, least recently used first
/// to go.
pub struct PackageCache {
    lru: PackageLru,
}

impl View for PackageCache {
    type V = Map<Seq<char>, MinimalPackageData>;

    closed spec fn view(&self) -> Map<Seq<char>, MinimalPackageData> {
        lru_packages(self.lru)
    }
}

impl PackageCache {
    /// The cached names, most recently used first.
    pub closed spec fn recency(&self) -> Seq<Seq<char>> {
        lru_recency(self.lru)
    }

    /// The capacity of the cache.
    pub closed spec fn capacity(&self) -> nat {
        lru_capacity(self.lru)
    }

    /// The recency order lists each cached name once, the cache holds at most
    /// `PACKAGE_CACHE_CAPACITY` packages, and that is its capacity.
    pub open spec fn wf(&self) -> bool {
        &&& recency_consistent(self.recency(), self@, PACKAGE_CACHE_CAPACITY as nat)
        &&& self.capacity() == PACKAGE_CACHE_CAPACITY
    }

    /// An empty cache of capacity `PACKAGE_CACHE_CAPACITY`.
    pub fn new() -> (r: Self)
        ensures
            r.wf(),
            r@ == Map::<Seq<char>, MinimalPackageData>::empty(),
            r.recency() == Seq::<Seq<char>>::empty(),
    {
        let r: Self = PackageCache { lru: lru_new(PACKAGE_CACHE_CAPACITY) };
        assert(r@ =~= Map::<Seq<char>, MinimalPackageData>::empty());
        assert(r.recency().to_set() =~= r@.dom());
        r
    }

    /// The package cached under `name`, if any; a hit makes `name` the most
    /// recently used, and the cached packages stay.
    pub fn lookup(&mut self, name: &String) -> (r: Option<Arc<MinimalPackageData>>)
        requires
            old(self).wf(),
        ensures
            final(self).wf(),
            final(self)@ == old(self)@,
            match r {
                Some(p) => {
                    &&& old(self)@.dom().contains(name@)
                    &&& *p == old(self)@[name@]
                    &&& final(self).recency() == touched(old(self).recency(), name@)
                },
                None => {
                    &&& !old(self)@.dom().contains(name@)
                    &&& final(self).recency() == old(self).recency()
                },
            },
    {
        let ghost o: Seq<Seq<char>> = self.recency();
        let r: Option<Arc<MinimalPackageData>> = lru_get(&mut self.lru, name);
        proof {
            lemma_without(o, name@);
            if old(self)@.dom().contains(name@) {
                assert(o.to_set().contains(name@));
                assert(o.contains(name@));
                let w: Seq<Seq<char>> = without(o, name@);
                assert(!w.contains(name@));
                lemma_prepend(w, name@);
                assert(self.recency().to_set() =~= self@.dom());
            }
        }
        r
    }

    /// Forgets the package cached under `name` (after the store changed it).
    pub fn invalidate(&mut self, name: &String)
        requires
            old(self).wf(),
        ensures
            final(self).wf(),
            final(self)@ == old(self)@.remove(name@),
            !final(self)@.dom().contains(name@),
            final(self).recency() == without(old(self).recency(), name@),
    {
        let ghost o: Seq<Seq<char>> = self.recency();
        lru_pop(&mut self.lru, name);
        proof {
            lemma_without(o, name@);
            assert(o.to_set().contains(name@) == o.contains(name@));
            assert(self.recency().to_set() =~= self@.dom());
            if o.contains(name@) {
            } else {
                assert(self.recency() == o);
            }
        }
    }

    /// The answer of a store lookup of `name` that the cache could not give:
    /// the package read from the store (`found`), which is then cached as the
    /// most recently used (a full cache first evicts its least recently used
    /// package), or a missing package where the store had none.
    pub fn record_lookup(&mut self, name: &str, found: Option<MinimalPackageData>) -> (r: Result<
        Arc<MinimalPackageData>,
        ServerError,
    >)
        requires
            old(self).wf(),
        ensures
            final(self).wf(),
            match found {
                Some(pkg) => {
                    &&& r matches Ok(p) && *p == pkg
                    &&& final(self)@ == recorded_map(old(self)@, old(self).recency(), name@, pkg)
                    &&& old(self)@.dom().contains(name@) ==> {
                        &&& final(self)@ == old(self)@.insert(name@, pkg)
                        &&& final(self).recency() == touched(old(self).recency(), name@)
                    }
                    &&& !old(self)@.dom().contains(name@) && old(self).recency().len()
                        < PACKAGE_CACHE_CAPACITY ==> {
                        &&& final(self)@ == old(self)@.insert(name@, pkg)
                        &&& final(self).recency() == seq![name@] + old(self).recency()
                    }
                    &&& !old(self)@.dom().contains(name@) && old(self).recency().len()
                        >= PACKAGE_CACHE_CAPACITY ==> {
                        &&& final(self)@ == old(self)@.remove(old(self).recency().last()).insert(
                            name@,
                            pkg,
                        )
                        &&& final(self).recency() == seq![name@] + old(
                            self,
                        ).recency().drop_last()
                    }
                },
                None => {
                    &&& r matches Err(ServerError::PackageNotFound(n)) && n@ == name@
                    &&& final(self)@ == old(self)@
                    &&& final(self).recency() == old(self).recency()
                },
            },
    {
        match found {
            Some(pkg) => {
                let ghost o: Seq<Seq<char>> = self.recency();
                let ghost m: Map<Seq<char>, MinimalPackageData> = self@;
                let shared: Arc<MinimalPackageData> = Arc::new(pkg);
                let key: String = string_of(name);
                let kept: Arc<MinimalPackageData> = share_again(&shared);
                lru_put(&mut self.lru, key, kept);
                proof {
                    let k: Seq<char> = name@;
                    assert(o.to_set().contains(k) == o.contains(k));
                    if m.dom().contains(k) {
                        lemma_without(o, k);
                        lemma_prepend(without(o, k), k);
                        assert(self.recency().to_set() =~= self@.dom());
                    } else if o.len() < PACKAGE_CACHE_CAPACITY {
                        lemma_prepend(o, k);
                        assert(self.recency().to_set() =~= self@.dom());
                    } else {
                        lemma_drop_last_contains(o);
                        assert(o.to_set().contains(o.last())) by {
                            assert(o[o.len() - 1] == o.last());
                        }
                        lemma_prepend(o.drop_last(), k);
                        assert(self.recency().to_set() =~= self@.dom());
                    }
                }
                Ok(shared)
            },
            None => Err(ServerError::PackageNotFound(string_of(name))),
        }
    }
}

} // verus!
