//! The retry policy of dependency resolution: a resolution that fails for
//! want of a package is retried after refreshing that package from the
//! registry, each package at most once per request, and the attempts are
//! bounded.
use vstd::prelude::*;
use vstd::string::StringExecFns;

use crate::error::ServerError;
use crate::strmap::{distinct_keys, pairs_map, StringMap};
use crate::text::{decimal, decimal_string, string_views};

verus! {

/// How many times one request may run the resolver.
pub const MAX_RESOLVE_ATTEMPTS: usize = 100;

/// How long, in seconds, a resolution reply may be cached.
pub const DEPS_CACHE_TTL: u64 = 3600;

/// The package that error `err` asks to refresh, given the packages already
/// refreshed (`fetched`, by name): the package of a missing package or of a
/// missing version, unless its name is empty or it was refreshed already.
pub open spec fn spec_pkg_to_fetch(err: ServerError, fetched: Seq<Seq<char>>) -> Option<Seq<char>> {
    let name: Option<Seq<char>> = match err {
        ServerError::PackageVersionNotFound(pkg_name, _) => Some(pkg_name@),
        ServerError::PackageNotFound(pkg_name) => Some(pkg_name@),
        _ => None,
    };
    match name {
        Some(n) => if n.len() == 0 || fetched.contains(n) {
            None
        } else {
            Some(n)
        },
        None => None,
    }
}

/// A package that the retry policy asks to refresh has a non-empty name
/// and was not refreshed before in the same request.
pub proof fn lemma_fetch_is_new(err: ServerError, fetched: Seq<Seq<char>>)
    ensures
        spec_pkg_to_fetch(err, fetched) matches Some(n) ==> n.len() > 0 && !fetched.contains(n),
{
}

/// The package to refresh is the one the error names, exactly when that name
/// is non-empty and was not refreshed itself before; which other packages
/// were refreshed makes no difference. Errors that name no package refresh
/// nothing.
pub proof fn lemma_pkg_to_fetch_law(err: ServerError, fetched: Seq<Seq<char>>, other: Seq<Seq<char>>)
    ensures
        spec_pkg_to_fetch(err, fetched) matches Some(n) ==> n.len() > 0 && !fetched.contains(n),
        err matches ServerError::PackageNotFound(n) ==> (n@.len() > 0 && !fetched.contains(n@)
            ==> spec_pkg_to_fetch(err, fetched) == Some(n@)),
        err matches ServerError::PackageVersionNotFound(n, v) ==> (n@.len() > 0
            && !fetched.contains(n@) ==> spec_pkg_to_fetch(err, fetched) == Some(n@)),
        (err matches ServerError::PackageNotFound(n) && other.contains(n@) == fetched.contains(n@))
            ==> spec_pkg_to_fetch(err, other) == spec_pkg_to_fetch(err, fetched),
        (err matches ServerError::PackageVersionNotFound(n, v) && other.contains(n@)
            == fetched.contains(n@)) ==> spec_pkg_to_fetch(err, other) == spec_pkg_to_fetch(
            err,
            fetched,
        ),
        !(err is PackageNotFound || err is PackageVersionNotFound) ==> spec_pkg_to_fetch(
            err,
            fetched,
        ) is None,
{
}

/// Whether `names` holds a string equal to `name`.
fn contains_name(names: &Vec<String>, name: &String) -> (r: bool)
    ensures
        r == string_views(names@).contains(name@),
{
    let mut i: usize = 0;
    while i < names.len()
        invariant
            i <= names@.len(),
            forall|j: int| 0 <= j < i ==> names@[j]@ != name@,
        decreases names@.len() - i,
    {
        if names[i] == *name {
            assert(string_views(names@)[i as int] == name@);
            return true;
        }
        i = i + 1;
    }
    proof {
        if string_views(names@).contains(name@) {
            let j: int = choose|j: int| 0 <= j < names@.len() && string_views(names@)[j] == name@;
            assert(names@[j]@ == name@);
        }
    }
    false
}

/// The package to refresh before retrying a resolution that failed with
/// `err`, or `None` when `err` is to be answered as it is (a version that
/// was never published stays `PackageVersionNotFound` once its package has
/// been refreshed).
pub fn pkg_to_fetch(err: &ServerError, already_fetched: &Vec<String>) -> (r: Option<String>)
    ensures
        match r {
            Some(n) => spec_pkg_to_fetch(*err, string_views(already_fetched@)) == Some(n@),
            None => spec_pkg_to_fetch(*err, string_views(already_fetched@)) is None,
        },
        match *err {
            ServerError::PackageVersionNotFound(n, _) => {
                &&& (r is Some <==> n@.len() > 0 && !string_views(already_fetched@).contains(n@))
                &&& (r matches Some(m) ==> m@ == n@)
            },
            ServerError::PackageNotFound(n) => {
                &&& (r is Some <==> n@.len() > 0 && !string_views(already_fetched@).contains(n@))
                &&& (r matches Some(m) ==> m@ == n@)
            },
            _ => r is None,
        },
{
    let pkg_name: &String = match err {
        ServerError::PackageVersionNotFound(pkg_name, _) => pkg_name,
        ServerError::PackageNotFound(pkg_name) => pkg_name,
        _ => return None,
    };
    if pkg_name.as_str().is_empty() || contains_name(already_fetched, pkg_name) {
        return None;
    }
    Some(pkg_name.clone())
}

/// What the request handler does after one run of the resolver.
pub enum RetryAction<T> {
    /// The resolution succeeded: answer with it.
    Reply(T),
    /// Refresh this package from the registry, then run the resolver again.
    Fetch(String),
    /// Answer with this error.
    Fail(ServerError),
}

/// The state of the retry loop of one request: the packages refreshed so
/// far (each once), the last resolution error, and the runs made.
pub struct ResolveRetry {
    fetched: Vec<String>,
    last_err: Option<ServerError>,
    attempts: usize,
}

/// No name occurs twice in `names`.
pub open spec fn distinct_names(names: Seq<Seq<char>>) -> bool {
    forall|i: int, j: int| 0 <= i < j < names.len() ==> names[i] != names[j]
}

impl ResolveRetry {
    #[verifier::type_invariant]
    spec fn well_formed(self) -> bool {
        &&& distinct_names(string_views(self.fetched@))
        &&& self.attempts <= MAX_RESOLVE_ATTEMPTS
        &&& self.fetched@.len() <= self.attempts
    }

    /// The names of the packages refreshed so far, in order.
    pub closed spec fn fetched_names(self) -> Seq<Seq<char>> {
        string_views(self.fetched@)
    }

    /// The error of the last failed run, if any.
    pub closed spec fn last_error(self) -> Option<ServerError> {
        self.last_err
    }

    /// The runs of the resolver made so far.
    pub closed spec fn attempts_made(self) -> nat {
        self.attempts as nat
    }

    /// The state of a request before its first run.
    pub fn new() -> (r: Self)
        ensures
            r.fetched_names() == Seq::<Seq<char>>::empty(),
            r.last_error() is None,
            r.attempts_made() == 0,
            distinct_names(r.fetched_names()),
    {
        let r: Self = ResolveRetry { fetched: Vec::new(), last_err: None, attempts: 0 };
        assert(r.fetched_names() =~= Seq::<Seq<char>>::empty());
        r
    }

    /// Whether the resolver may run once more.
    pub fn may_attempt(&self) -> (r: bool)
        ensures
            r == (self.attempts_made() < MAX_RESOLVE_ATTEMPTS),
    {
        self.attempts < MAX_RESOLVE_ATTEMPTS
    }

    /// The packages refreshed so far (each name once).
    pub fn fetched(&self) -> (r: &Vec<String>)
        ensures
            string_views(r@) == self.fetched_names(),
            distinct_names(self.fetched_names()),
    {
        proof {
            use_type_invariant(self);
        }
        &self.fetched
    }

    /// The decision after one run of the resolver that gave `outcome`:
    /// a success is answered; an error that names a package not refreshed
    /// yet asks for that package to be refreshed (and records it as
    /// refreshed); any other error is answered as it is.
    pub fn step<T>(&mut self, outcome: Result<T, ServerError>) -> (r: RetryAction<T>)
        requires
            old(self).attempts_made() < MAX_RESOLVE_ATTEMPTS,
        ensures
            final(self).attempts_made() == old(self).attempts_made() + 1,
            distinct_names(final(self).fetched_names()),
            final(self).fetched_names().len() <= final(self).attempts_made(),
            match outcome {
                Ok(v) => {
                    &&& r == RetryAction::Reply(v)
                    &&& final(self).fetched_names() == old(self).fetched_names()
                    &&& final(self).last_error() == old(self).last_error()
                },
                Err(e) => match spec_pkg_to_fetch(e, old(self).fetched_names()) {
                    Some(n) => {
                        &&& r matches RetryAction::Fetch(m) && m@ == n
                        &&& final(self).fetched_names() == old(self).fetched_names().push(n)
                        &&& final(self).last_error() == Some(e)
                    },
                    None => {
                        &&& r == RetryAction::<T>::Fail(e)
                        &&& final(self).fetched_names() == old(self).fetched_names()
                        &&& final(self).last_error() == old(self).last_error()
                    },
                },
            },
    {
        proof {
            use_type_invariant(&*self);
        }
        self.attempts = self.attempts + 1;
        match outcome {
            Ok(v) => RetryAction::Reply(v),
            Err(e) => match pkg_to_fetch(&e, &self.fetched) {
                Some(name) => {
                    let ghost before: Seq<String> = self.fetched@;
                    let recorded: String = name.clone();
                    let mut fetched: Vec<String> = Vec::new();
                    std::mem::swap(&mut fetched, &mut self.fetched);
                    fetched.push(recorded);
                    proof {
                        assert(string_views(fetched@) =~= string_views(before).push(name@));
                        assert forall|i: int, j: int|
                            0 <= i < j < string_views(fetched@).len() implies string_views(
                            fetched@,
                        )[i] != string_views(fetched@)[j] by {
                            if j == before.len() {
                                assert(string_views(before)[i] == string_views(fetched@)[i]);
                            }
                        }
                    }
                    self.fetched = fetched;
                    self.last_err = Some(e);
                    RetryAction::Fetch(name)
                },
                None => RetryAction::Fail(e),
            },
        }
    }

    /// The error that answers a request whose runs are used up: the last
    /// resolution error, or a missing package where there was none.
    pub fn exhausted_error(self) -> (r: ServerError)
        ensures
            match self.last_error() {
                Some(e) => r == e,
                None => r matches ServerError::PackageNotFound(n) && n@ == "unknown"@,
            },
    {
        match self.last_err {
            Some(e) => e,
            None => ServerError::PackageNotFound(String::from_str("unknown")),
        }
    }
}

/// The resolutions after the aliases are folded in, in order: each alias
/// whose target has a resolution gets that resolution too.
pub open spec fn aliased(
    resolutions: Map<Seq<char>, String>,
    aliases: Seq<(String, String)>,
) -> Map<Seq<char>, String>
    decreases aliases.len(),
{
    if aliases.len() == 0 {
        resolutions
    } else {
        let before: Map<Seq<char>, String> = aliased(resolutions, aliases.drop_last());
        let (alias_key, alias_value) = aliases.last();
        if before.dom().contains(alias_value@) {
            before.insert(alias_key@, before[alias_value@])
        } else {
            before
        }
    }
}

/// Gives each alias the resolution of its target, where the target has one.
pub fn apply_aliases(resolutions: &mut StringMap<String>, aliases: &StringMap<String>)
    ensures
        final(resolutions)@ == aliased(old(resolutions)@, aliases.entry_list()),
        forall|i: int|
            0 <= i < aliases.entry_list().len() && old(resolutions)@.dom().contains(
                #[trigger] aliases.entry_list()[i].1@,
            ) && (forall|j: int|
                0 <= j < aliases.entry_list().len() ==> aliases.entry_list()[j].0@
                    != aliases.entry_list()[i].1@) ==> final(resolutions)@.dom().contains(
                aliases.entry_list()[i].0@,
            ) && final(resolutions)@[aliases.entry_list()[i].0@] == old(
                resolutions,
            )@[aliases.entry_list()[i].1@],
{
    let entries: &Vec<(String, String)> = aliases.entries();
    let mut i: usize = 0;
    assert(entries@.take(0) =~= Seq::<(String, String)>::empty());
    while i < entries.len()
        invariant
            i <= entries@.len(),
            entries@ == aliases.entry_list(),
            resolutions@ == aliased(old(resolutions)@, entries@.take(i as int)),
        decreases entries@.len() - i,
    {
        assert(entries@.take(i + 1).drop_last() =~= entries@.take(i as int));
        let alias_key: &String = &entries[i].0;
        let alias_value: &String = &entries[i].1;
        let resolved: Option<String> = match resolutions.get(alias_value) {
            Some(v) => Some(v.clone()),
            None => None,
        };
        match resolved {
            Some(v) => {
                resolutions.insert(alias_key.clone(), v);
            },
            None => {},
        }
        i = i + 1;
    }
    assert(entries@.take(entries@.len() as int) =~= entries@);
    assert forall|k: int|
        0 <= k < aliases.entry_list().len() && old(resolutions)@.dom().contains(
            #[trigger] aliases.entry_list()[k].1@,
        ) && (forall|j: int|
            0 <= j < aliases.entry_list().len() ==> aliases.entry_list()[j].0@
                != aliases.entry_list()[k].1@) implies resolutions@.dom().contains(
        aliases.entry_list()[k].0@,
    ) && resolutions@[aliases.entry_list()[k].0@] == old(resolutions)@[aliases.entry_list()[k].1@] by {
        lemma_aliased_entry(old(resolutions)@, entries@, k);
    }
}

/// Folding in aliases changes no key that is not an alias.
pub proof fn lemma_aliases_touch_only_alias_keys(
    resolutions: Map<Seq<char>, String>,
    aliases: Seq<(String, String)>,
    k: Seq<char>,
)
    requires
        forall|i: int| 0 <= i < aliases.len() ==> aliases[i].0@ != k,
    ensures
        aliased(resolutions, aliases).dom().contains(k) == resolutions.dom().contains(k),
        resolutions.dom().contains(k) ==> aliased(resolutions, aliases)[k] == resolutions[k],
    decreases aliases.len(),
{
    if aliases.len() > 0 {
        lemma_aliases_touch_only_alias_keys(resolutions, aliases.drop_last(), k);
    }
}

/// Every alias whose target is resolved before the fold, and is not itself
/// an alias, ends up with its target's resolved version (aliases have
/// distinct keys).
pub proof fn lemma_aliased_entry(
    resolutions: Map<Seq<char>, String>,
    aliases: Seq<(String, String)>,
    i: int,
)
    requires
        distinct_keys(aliases),
        0 <= i < aliases.len(),
        resolutions.dom().contains(aliases[i].1@),
        forall|j: int| 0 <= j < aliases.len() ==> aliases[j].0@ != aliases[i].1@,
    ensures
        aliased(resolutions, aliases).dom().contains(aliases[i].0@),
        aliased(resolutions, aliases)[aliases[i].0@] == resolutions[aliases[i].1@],
    decreases aliases.len(),
{
    let n: int = aliases.len() - 1;
    let init: Seq<(String, String)> = aliases.drop_last();
    let before: Map<Seq<char>, String> = aliased(resolutions, init);
    if i == n {
        lemma_aliases_touch_only_alias_keys(resolutions, init, aliases[i].1@);
        assert(before.dom().contains(aliases[i].1@));
    } else {
        assert(distinct_keys(init));
        lemma_aliased_entry(resolutions, init, i);
        assert(aliases[n].0@ != aliases[i].0@);
    }
}

/// The cache headers of a resolution reply: `Cache-Control` and
/// `CDN-Cache-Control`, both allowing `DEPS_CACHE_TTL` seconds.
pub fn deps_cache_headers() -> (r: (String, String))
    ensures
        r.0@ == "public, max-age="@ + decimal(DEPS_CACHE_TTL as nat),
        r.1@ == "max-age="@ + decimal(DEPS_CACHE_TTL as nat),
{
    let ttl: String = decimal_string(DEPS_CACHE_TTL);
    let cache_control: String = String::from_str("public, max-age=").concat(ttl.as_str());
    let cdn_cache_control: String = String::from_str("max-age=").concat(ttl.as_str());
    (cache_control, cdn_cache_control)
}

} // verus!
