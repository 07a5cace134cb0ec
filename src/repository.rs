use vstd::prelude::*;
use vstd::string::*;

use crate::cache::{
    copy_entries, entries_view, CachePolicy, CacheValue, Cached, CachedView, CachesForAddress,
    ValueView,
};
use crate::error::Error;
use crate::reads::{after_payload_read, payload_read_ok, payload_result_view};
use crate::cache::value_of_result;
use crate::component::{parsed_as, Component};
use crate::ident::{build_path, build_tag, pkg_root, AnyIdent, BuildIdent};
use crate::stored::{components_ok, is_component_at, is_stored, stored_ok, StoredPackage};
use crate::name::{is_valid_name, validate_name};
use crate::store::{
    copy_path, entry_view, has_entry, path_view, EntryType, Tag, TagPathBuf, TagStore,
};
use crate::name::is_valid_name as valid_name;

verus! {

/// Whether a listing view is exactly the folder `f` of the namespace `m`, each entry once.
pub open spec fn listing_ok(
    m: Map<Seq<Seq<char>>, Seq<Tag>>,
    f: Seq<Seq<char>>,
    es: Seq<(Seq<char>, bool)>,
) -> bool {
    &&& forall|name: Seq<char>, is_tag: bool|
        #[trigger] es.contains((name, is_tag)) <==> has_entry(m, f, name, is_tag)
    &&& forall|i: int, j: int| 0 <= i < j < es.len() ==> es[i] != es[j]
}

/// Whether a cached resolution of `p` agrees with the namespace `m`.
pub open spec fn tag_entry_ok(m: Map<Seq<Seq<char>>, Seq<Tag>>, p: Seq<Seq<char>>, v: ValueView) -> bool {
    match v {
        ValueView::Success(CachedView::Tag(t)) => m.contains_key(p) && m[p].last() == t,
        ValueView::PackageNotFound(_) => !m.contains_key(p),
        _ => false,
    }
}

pub open spec fn is_entries_value(v: ValueView) -> bool {
    v matches ValueView::Success(CachedView::Entries(_))
}

pub open spec fn is_tag_value(v: ValueView) -> bool {
    v matches ValueView::Success(CachedView::Tag(_))
}

/// A repository of packages over a tag store, with its caches.
pub struct SpfsRepository {
    pub(crate) address: String,
    pub(crate) name: String,
    pub(crate) inner: TagStore,
    pub(crate) cache_policy: CachePolicy,
    pub(crate) caches: CachesForAddress,
}

impl SpfsRepository {
    /// The tag namespace of the store.
    pub closed spec fn tags(&self) -> Map<Seq<Seq<char>>, Seq<Tag>> {
        self.inner.view_tags()
    }

    /// The blobs of the store.
    pub closed spec fn blobs(&self) -> Seq<Seq<char>> {
        self.inner.view_blobs()
    }

    pub closed spec fn policy(&self) -> CachePolicy {
        self.cache_policy
    }

    pub closed spec fn repo_name(&self) -> Seq<char> {
        self.name@
    }

    pub closed spec fn repo_address(&self) -> Seq<char> {
        self.address@
    }

    pub closed spec fn ls_cache(&self) -> Map<Seq<Seq<char>>, ValueView> {
        self.caches.ls_tags.view()
    }

    pub closed spec fn tag_cache(&self) -> Map<Seq<Seq<char>>, ValueView> {
        self.caches.tag_spec.view()
    }

    pub closed spec fn recipe_cache(&self) -> Map<Seq<Seq<char>>, ValueView> {
        self.caches.recipe.view()
    }

    pub closed spec fn package_cache(&self) -> Map<Seq<Seq<char>>, ValueView> {
        self.caches.package.view()
    }

    pub closed spec fn versions_cache(&self) -> Map<Seq<Seq<char>>, ValueView> {
        self.caches.package_versions.view()
    }

    pub closed spec fn components_cache(&self) -> Map<Seq<Seq<char>>, ValueView> {
        self.caches.list_build_components.view()
    }

    /// The payload cache of recipes (`true`) or of packages and embed stubs (`false`).
    pub open spec fn payload_cache(&self, recipe: bool) -> Map<Seq<Seq<char>>, ValueView> {
        if recipe {
            self.recipe_cache()
        } else {
            self.package_cache()
        }
    }

    pub closed spec fn wf(&self) -> bool {
        self.inner.wf()
    }

    /// All caches are empty.
    pub open spec fn caches_empty(&self) -> bool {
        &&& self.ls_cache().dom().is_empty()
        &&& self.tag_cache().dom().is_empty()
        &&& self.recipe_cache().dom().is_empty()
        &&& self.package_cache().dom().is_empty()
        &&& self.versions_cache().dom().is_empty()
        &&& self.components_cache().dom().is_empty()
    }

    /// The caches that the other reads go through agree with the store.
    pub open spec fn coherent(&self) -> bool {
        &&& forall|f: Seq<Seq<char>>| #[trigger]
            self.ls_cache().contains_key(f) ==> (self.ls_cache()[f] matches ValueView::Success(
                CachedView::Entries(es),
            ) && listing_ok(self.tags(), f, es))
        &&& forall|p: Seq<Seq<char>>| #[trigger]
            self.tag_cache().contains_key(p) ==> tag_entry_ok(self.tags(), p, self.tag_cache()[p])
    }

    /// Reads through the caches give what the store holds now.
    pub open spec fn fresh(&self) -> bool {
        self.coherent() || self.policy() is BypassCache
    }

    /// From `self` to `other` only the two caches that the other reads go through changed,
    /// and they stayed coherent.
    pub open spec fn reads_only(&self, other: &Self) -> bool {
        &&& other.wf()
        &&& other.tags() == self.tags()
        &&& other.blobs() == self.blobs()
        &&& other.policy() == self.policy()
        &&& other.repo_name() == self.repo_name()
        &&& other.repo_address() == self.repo_address()
        &&& other.recipe_cache() == self.recipe_cache()
        &&& other.package_cache() == self.package_cache()
        &&& other.versions_cache() == self.versions_cache()
        &&& other.components_cache() == self.components_cache()
        &&& self.coherent() ==> other.coherent()
    }

    pub proof fn lemma_reads_only_trans(a: &Self, b: &Self, c: &Self)
        requires
            a.reads_only(b),
            b.reads_only(c),
        ensures
            a.reads_only(c),
    {
    }

    /// A repository called `name` over an empty store at `address`.
    pub fn new(name: &str, address: &str) -> (r: Result<SpfsRepository, Error>)
        ensures
            r is Ok <==> is_valid_name(name@),
            r matches Ok(repo) ==> {
                &&& repo.wf()
                &&& repo.tags().dom().is_empty()
                &&& repo.blobs().len() == 0
                &&& repo.policy() is CacheOk
                &&& repo.caches_empty()
                &&& repo.repo_name() == name@
                &&& repo.repo_address() == address@
            },
    {
        if !validate_name(name) {
            return Err(Error::InvalidName(String::from_str(name)));
        }
        Ok(SpfsRepository {
            address: String::from_str(address),
            name: String::from_str(name),
            inner: TagStore::new(),
            cache_policy: CachePolicy::CacheOk,
            caches: CachesForAddress::new(),
        })
    }

    pub fn name(&self) -> (r: &str)
        ensures
            r@ == self.repo_name(),
    {
        self.name.as_str()
    }

    pub fn address(&self) -> (r: &str)
        ensures
            r@ == self.repo_address(),
    {
        self.address.as_str()
    }

    /// Pins this repository to the store as it was at the logical time `ts`:
    /// each tag stream keeps the entries written by then. The address gains
    /// `?when=<ts>`, and the caches start empty.
    pub fn pin_at_time(&mut self, ts: u64)
        requires
            old(self).wf(),
        ensures
            final(self).wf(),
            final(self).blobs() == old(self).blobs(),
            final(self).policy() == old(self).policy(),
            final(self).repo_name() == old(self).repo_name(),
            final(self).repo_address() == old(self).repo_address() + "?when="@ + crate::version::decimal(
                ts as nat,
            ),
            final(self).caches_empty(),
            final(self).coherent(),
            forall|p: Seq<Seq<char>>|
                #[trigger] final(self).tags().contains_key(p) <==> (old(self).tags().contains_key(p)
                    && crate::store::tags_until(old(self).tags()[p], ts).len() > 0),
            forall|p: Seq<Seq<char>>|
                #[trigger] final(self).tags().contains_key(p) ==> final(self).tags()[p]
                    == crate::store::tags_until(old(self).tags()[p], ts),
    {
        let pinned = self.inner.pinned_at(ts);
        self.inner = pinned;
        self.address.append("?when=");
        crate::version::push_decimal(&mut self.address, ts);
        self.invalidate_caches();
    }

    /// Sets the cache policy and returns the previous one.
    pub fn set_cache_policy(&mut self, cache_policy: CachePolicy) -> (r: CachePolicy)
        ensures
            r == old(self).policy(),
            final(self).policy() == cache_policy,
            final(self).tags() == old(self).tags(),
            final(self).blobs() == old(self).blobs(),
            final(self).wf() == old(self).wf(),
            final(self).coherent() == old(self).coherent(),
            final(self).caches_empty() == old(self).caches_empty(),
            final(self).recipe_cache() == old(self).recipe_cache(),
            final(self).package_cache() == old(self).package_cache(),
            final(self).versions_cache() == old(self).versions_cache(),
            final(self).components_cache() == old(self).components_cache(),
    {
        let orig = self.cache_policy;
        self.cache_policy = cache_policy;
        proof {
            assert(self.ls_cache() == old(self).ls_cache());
            assert(self.tag_cache() == old(self).tag_cache());
            assert(self.tags() == old(self).tags());
        }
        orig
    }

    pub(crate) fn cached_result_permitted(&self) -> (r: bool)
        ensures
            r == (self.policy() is CacheOk),
    {
        self.cache_policy.cached_result_permitted()
    }

    /// Clears all cached results.
    pub fn invalidate_caches(&mut self)
        requires
            old(self).wf(),
        ensures
            final(self).wf(),
            final(self).caches_empty(),
            final(self).coherent(),
            final(self).tags() == old(self).tags(),
            final(self).blobs() == old(self).blobs(),
            final(self).policy() == old(self).policy(),
            final(self).repo_name() == old(self).repo_name(),
            final(self).repo_address() == old(self).repo_address(),
    {
        self.caches.invalidate();
    }

    /// Writes a tag straight into the store, leaving the caches as they are.
    pub fn push_tag_uncached(&mut self, path: &TagPathBuf, target: crate::store::Digest) -> (r: Tag)
        requires
            old(self).wf(),
        ensures
            final(self).wf(),
            r.target == target,
            final(self).tags() == old(self).tags().insert(
                path_view(path@),
                if old(self).tags().contains_key(path_view(path@)) {
                    old(self).tags()[path_view(path@)].push(r)
                } else {
                    seq![r]
                },
            ),
            final(self).blobs() == old(self).blobs(),
            final(self).policy() == old(self).policy(),
            final(self).repo_name() == old(self).repo_name(),
            final(self).repo_address() == old(self).repo_address(),
            final(self).ls_cache() == old(self).ls_cache(),
            final(self).tag_cache() == old(self).tag_cache(),
            final(self).recipe_cache() == old(self).recipe_cache(),
            final(self).package_cache() == old(self).package_cache(),
            final(self).versions_cache() == old(self).versions_cache(),
            final(self).components_cache() == old(self).components_cache(),
    {
        self.inner.push_tag(path, target)
    }

    /// Whether the store holds a tag at `path`, bypassing the cache.
    pub fn store_has_tag(&self, path: &TagPathBuf) -> (r: bool)
        requires
            self.wf(),
        ensures
            r == self.tags().contains_key(path_view(path@)),
    {
        self.inner.has_tag(path)
    }

    /// Stores a payload in the store, leaving the caches as they are.
    pub fn commit_blob(&mut self, payload: String) -> (r: crate::store::Digest)
        requires
            old(self).wf(),
            old(self).blobs().len() < u64::MAX,
        ensures
            final(self).wf(),
            final(self).tags() == old(self).tags(),
            r.value < final(self).blobs().len(),
            final(self).blobs()[r.value as int] == payload@,
            old(self).blobs().is_prefix_of(final(self).blobs()),
            final(self).blobs() == old(self).blobs() || final(self).blobs() == old(self).blobs().push(
                payload@,
            ),
            final(self).policy() == old(self).policy(),
            final(self).repo_name() == old(self).repo_name(),
            final(self).repo_address() == old(self).repo_address(),
    {
        self.inner.commit_blob(payload)
    }

    /// Reads the payload that the tag at `path` points at, through the
    /// recipe cache (`recipe`) or the package cache.
    pub(crate) fn read_payload(&mut self, recipe: bool, id: &AnyIdent, path: &TagPathBuf) -> (r: Result<
        String,
        Error,
    >)
        requires
            old(self).wf(),
        ensures
            after_payload_read(&*old(self), &*final(self), recipe, path_view(path@), crate::error::any_view(*id), r),
    {
        if self.cached_result_permitted() {
            let hit = if recipe {
                self.caches.recipe.get(path)
            } else {
                self.caches.package.get(path)
            };
            if let Some(v) = hit {
                return match v.into_result() {
                    Ok(Cached::Payload(s)) => Ok(s),
                    Ok(_) => Err(Error::String(String::from_str("unexpected cache entry"))),
                    Err(e) => Err(e),
                };
            }
        }
        let res: Result<Cached, Error> = match self.resolve_tag(id, path) {
            Ok(tag) => match self.inner.open_payload(tag.target) {
                Ok(s) => match crate::encoding::yaml_error(s.as_str()) {
                    None => Ok(Cached::Payload(s)),
                    Some(msg) => Err(Error::InvalidPackageSpec(id.duplicate(), msg)),
                },
                Err(_) => Err(Error::FileReadError(String::from_str("payload"))),
            },
            Err(e) => Err(e),
        };
        let ghost s1 = *self;
        let v = CacheValue::from_result(&res);
        let key = copy_path(path);
        if recipe {
            self.caches.recipe.insert(key, v);
        } else {
            self.caches.package.insert(key, v);
        }
        proof {
            assert(self.ls_cache() == s1.ls_cache());
            assert(self.tag_cache() == s1.tag_cache());
            assert(self.tags() == old(self).tags());
            assert(old(self).coherent() ==> self.coherent());
        }
        let r = match res {
            Ok(Cached::Payload(s)) => Ok(s),
            Ok(_) => Err(Error::String(String::from_str("unexpected cache entry"))),
            Err(e) => Err(e),
        };
        proof {
            assert(payload_result_view(r) == crate::cache::result_view(res));
            assert(self.payload_cache(recipe) == old(self).payload_cache(recipe).insert(
                path_view(path@),
                value_of_result(payload_result_view(r)),
            ));
            assert(old(self).fresh() ==> payload_read_ok(old(self).tags(), old(self).blobs(), path_view(path@), crate::error::any_view(*id), r));
        }
        r
    }

    /// Removes a tag stream from the store, leaving the caches as they are.
    pub fn remove_tag_stream_uncached(&mut self, path: &TagPathBuf) -> (r: Result<(), crate::store::StoreError>)
        requires
            old(self).wf(),
        ensures
            final(self).wf(),
            r is Ok <==> old(self).tags().contains_key(path_view(path@)),
            final(self).tags() == old(self).tags().remove(path_view(path@)),
            final(self).blobs() == old(self).blobs(),
            final(self).policy() == old(self).policy(),
            final(self).repo_name() == old(self).repo_name(),
            final(self).repo_address() == old(self).repo_address(),
            final(self).ls_cache() == old(self).ls_cache(),
            final(self).tag_cache() == old(self).tag_cache(),
            final(self).recipe_cache() == old(self).recipe_cache(),
            final(self).package_cache() == old(self).package_cache(),
            final(self).versions_cache() == old(self).versions_cache(),
            final(self).components_cache() == old(self).components_cache(),
            final(self).caches_empty() == old(self).caches_empty(),
    {
        self.inner.remove_tag_stream(path)
    }

    /// The versions of the package `name`, sorted and once each up to trailing
    /// zeros, as named by the folder `spk/spec/<name>`; through the cache.
    pub fn list_package_versions(&mut self, name: &str) -> (r: Result<Vec<crate::version::Version>, Error>)
        requires
            old(self).wf(),
        ensures
            final(self).wf(),
            final(self).tags() == old(self).tags(),
            final(self).blobs() == old(self).blobs(),
            final(self).policy() == old(self).policy(),
            final(self).repo_name() == old(self).repo_name(),
            final(self).repo_address() == old(self).repo_address(),
            final(self).recipe_cache() == old(self).recipe_cache(),
            final(self).package_cache() == old(self).package_cache(),
            final(self).components_cache() == old(self).components_cache(),
            old(self).coherent() ==> final(self).coherent(),
            ({
                let p = crate::ident::spk_root(crate::ident::spec_root()).push(name@);
                if old(self).policy() is CacheOk && old(self).versions_cache().contains_key(p) {
                    &&& final(self).versions_cache() == old(self).versions_cache()
                    &&& (old(self).versions_cache()[p] matches ValueView::Success(CachedView::Versions(w))
                        ==> (r matches Ok(vs) && crate::cache::versions_view(vs@) == w))
                } else {
                    &&& r is Ok
                    &&& r matches Ok(vs) && final(self).versions_cache() == old(self).versions_cache().insert(
                        p,
                        ValueView::Success(CachedView::Versions(crate::cache::versions_view(vs@))),
                    )
                    &&& old(self).fresh() ==> (r matches Ok(vs) && crate::listing::versions_in_store(
                        old(self).tags(),
                        p,
                        crate::cache::versions_view(vs@),
                    ))
                }
            }),
    {
        proof {
            reveal_strlit("spec");
        }
        let mut path = crate::ident::root_path("spec");
        let ghost base = path@;
        let n = String::from_str(name);
        path.push(n);
        proof {
            assert(path@ == base.push(n));
            assert(path_view(path@) =~= crate::ident::spk_root(crate::ident::spec_root()).push(name@));
        }
        if self.cached_result_permitted() {
            if let Some(v) = self.caches.package_versions.get(&path) {
                return match v.into_result() {
                    Ok(Cached::Versions(vs)) => Ok(vs),
                    Ok(_) => Err(Error::String(String::from_str("unexpected cache entry"))),
                    Err(e) => Err(e),
                };
            }
        }
        let ghost s0 = *self;
        let entries = self.ls_tags(&path);
        let vs = crate::listing::versions_of_entries(&entries);
        proof {
            if s0.fresh() {
                crate::listing::lemma_versions_in_store(
                    s0.tags(),
                    path_view(path@),
                    entries_view(entries@),
                    crate::cache::versions_view(vs@),
                );
            }
        }
        let ghost s1 = *self;
        let key = copy_path(&path);
        self.caches.package_versions.insert(
            key,
            CacheValue::Success(Cached::Versions(crate::cache::copy_versions(&vs))),
        );
        proof {
            assert(self.ls_cache() == s1.ls_cache());
            assert(self.tag_cache() == s1.tag_cache());
        }
        Ok(vs)
    }

    /// The newest entry of the stream at `path`, bypassing the cache.
    pub fn resolve_tag_uncached(&self, path: &TagPathBuf) -> (r: Result<Tag, crate::store::StoreError>)
        requires
            self.wf(),
        ensures
            self.tags().contains_key(path_view(path@)) <==> r is Ok,
            r matches Ok(t) ==> t == self.tags()[path_view(path@)].last(),
    {
        self.inner.resolve_tag(path)
    }

    /// The payload of a blob, bypassing the cache.
    pub fn open_payload(&self, digest: crate::store::Digest) -> (r: Result<String, crate::store::StoreError>)
        ensures
            r is Ok <==> digest.value < self.blobs().len(),
            r matches Ok(s) ==> s@ == self.blobs()[digest.value as int],
    {
        self.inner.open_payload(digest)
    }

    /// Appends a whole tag to the stream at `path`, leaving the caches as they are.
    pub fn insert_tag_uncached(&mut self, path: &TagPathBuf, tag: Tag)
        requires
            old(self).wf(),
        ensures
            final(self).wf(),
            final(self).tags() == crate::publish::pushed(old(self).tags(), path_view(path@), tag),
            final(self).blobs() == old(self).blobs(),
            final(self).policy() == old(self).policy(),
            final(self).repo_name() == old(self).repo_name(),
            final(self).repo_address() == old(self).repo_address(),
    {
        self.inner.insert_tag(path, tag)
    }

    /// The components of a build, through the cache: none for an embedded build
    /// or one that is not stored.
    pub fn list_build_components(&mut self, pkg: &BuildIdent) -> (r: Result<Vec<Component>, Error>)
        requires
            old(self).wf(),
        ensures
            final(self).wf(),
            final(self).tags() == old(self).tags(),
            final(self).blobs() == old(self).blobs(),
            final(self).policy() == old(self).policy(),
            final(self).recipe_cache() == old(self).recipe_cache(),
            final(self).package_cache() == old(self).package_cache(),
            final(self).versions_cache() == old(self).versions_cache(),
            old(self).coherent() ==> final(self).coherent(),
            ({
                let p = build_path(pkg_root(), pkg@);
                if old(self).policy() is CacheOk && old(self).components_cache().contains_key(p) {
                    &&& final(self).components_cache() == old(self).components_cache()
                    &&& (old(self).components_cache()[p] matches ValueView::Success(CachedView::Components(w))
                        ==> (r matches Ok(v) && crate::cache::components_view(v@) == w))
                } else {
                    &&& (r matches Ok(v) ==> final(self).components_cache() == old(self).components_cache().insert(
                        p,
                        ValueView::Success(CachedView::Components(crate::cache::components_view(v@))),
                    ))
                    &&& (pkg.build is Embedded ==> (r matches Ok(v) && v.len() == 0))
                    &&& (!(pkg.build is Embedded) && old(self).fresh()) ==> (r matches Ok(v) && if is_stored(old(self).tags(), p) {
                        exists|s: StoredPackage| stored_ok(old(self).tags(), p, s) && #[trigger] crate::stored::stored_components(s) == v@
                    } else {
                        v.len() == 0
                    })
                }
            }),
    {
        proof {
            reveal_strlit("pkg");
        }
        let path = build_tag("pkg", pkg);
        if self.cached_result_permitted() {
            if let Some(v) = self.caches.list_build_components.get(&path) {
                return match v.into_result() {
                    Ok(Cached::Components(cs)) => Ok(cs),
                    Ok(_) => Err(Error::String(String::from_str("unexpected cache entry"))),
                    Err(e) => Err(e),
                };
            }
        }
        let ghost s0 = *self;
        let r: Result<Vec<Component>, Error> = if pkg.build.is_embedded() {
            Ok(Vec::new())
        } else {
            match self.lookup_package(pkg) {
                Ok(p) => {
                    let ghost sp = p;
                    let tags = p.into_components();
                    let mut names: Vec<Component> = Vec::new();
                    let mut i: usize = 0;
                    while i < tags.len()
                        invariant
                            i <= tags.len(),
                            names@ == tags@.take(i as int).map_values(|c: (Component, TagPathBuf)| c.0),
                        decreases tags.len() - i,
                    {
                        names.push(tags[i].0.duplicate());
                        i = i + 1;
                        proof {
                            assert(names@ =~= tags@.take(i as int).map_values(|c: (Component, TagPathBuf)| c.0));
                        }
                    }
                    proof {
                        assert(tags@.take(i as int) =~= tags@);
                        assert(crate::stored::stored_components(sp) =~= names@);
                    }
                    Ok(names)
                },
                Err(Error::PackageNotFound(_)) => Ok(Vec::new()),
                Err(e) => Err(e),
            }
        };
        let ghost s1 = *self;
        match &r {
            Ok(v) => {
                let key = copy_path(&path);
                self.caches.list_build_components.insert(
                    key,
                    CacheValue::Success(Cached::Components(crate::cache::copy_components(v))),
                );
            },
            Err(_) => {},
        }
        proof {
            assert(self.ls_cache() == s1.ls_cache());
            assert(self.tag_cache() == s1.tag_cache());
        }
        r
    }

    /// Lists a tag folder, through the cache.
    pub fn ls_tags(&mut self, path: &TagPathBuf) -> (r: Vec<EntryType>)
        requires
            old(self).wf(),
        ensures
            old(self).reads_only(&*final(self)),
            old(self).fresh() ==> listing_ok(old(self).tags(), path_view(path@), entries_view(r@)),
            old(self).policy() is CacheOk && old(self).ls_cache().contains_key(path_view(path@))
                && is_entries_value(old(self).ls_cache()[path_view(path@)]) ==> old(self).ls_cache()[path_view(path@)]
                == ValueView::Success(CachedView::Entries(entries_view(r@))),
            final(self).tag_cache() == old(self).tag_cache(),
    {
        if self.cached_result_permitted() {
            if let Some(v) = self.caches.ls_tags.get(path) {
                match v {
                    CacheValue::Success(Cached::Entries(es)) => {
                        return es;
                    },
                    _ => {},
                }
            }
        }
        let r = self.inner.ls_tags(path);
        proof {
            lemma_listing_view(self.inner.view_tags(), path_view(path@), r@);
        }
        let key = copy_path(path);
        self.caches.ls_tags.insert(key, CacheValue::Success(Cached::Entries(copy_entries(&r))));
        r
    }

    /// Resolves a tag, through the cache; a missing tag is `PackageNotFound(id)`.
    pub fn resolve_tag(&mut self, id: &AnyIdent, path: &TagPathBuf) -> (r: Result<Tag, Error>)
        requires
            old(self).wf(),
        ensures
            old(self).reads_only(&*final(self)),
            final(self).ls_cache() == old(self).ls_cache(),
            old(self).fresh() ==> {
                &&& (r is Ok <==> old(self).tags().contains_key(path_view(path@)))
                &&& (r matches Ok(t) ==> t == old(self).tags()[path_view(path@)].last())
                &&& (r is Err ==> crate::ident::not_found_for(r->Err_0, crate::error::any_view(*id)))
            },
            old(self).policy() is CacheOk && old(self).tag_cache().contains_key(path_view(path@))
                && is_tag_value(old(self).tag_cache()[path_view(path@)]) ==> (r matches Ok(t)
                && old(self).tag_cache()[path_view(path@)] == ValueView::Success(CachedView::Tag(t))),
    {
        if self.cached_result_permitted() {
            if let Some(v) = self.caches.tag_spec.get(path) {
                match v {
                    CacheValue::Success(Cached::Tag(t)) => {
                        return Ok(t);
                    },
                    CacheValue::PackageNotFound(_) => {
                        return Err(Error::PackageNotFound(id.duplicate()));
                    },
                    _ => {},
                }
            }
        }
        let r = match self.inner.resolve_tag(path) {
            Ok(t) => Ok(t),
            Err(_) => Err(Error::PackageNotFound(id.duplicate())),
        };
        let v = match &r {
            Ok(t) => CacheValue::Success(Cached::Tag(*t)),
            Err(_) => CacheValue::PackageNotFound(id.duplicate()),
        };
        let key = copy_path(path);
        self.caches.tag_spec.insert(key, v);
        r
    }

    /// Whether a tag exists, through the cache.
    pub fn has_tag(&mut self, id: &AnyIdent, path: &TagPathBuf) -> (r: bool)
        requires
            old(self).wf(),
        ensures
            old(self).reads_only(&*final(self)),
            final(self).ls_cache() == old(self).ls_cache(),
            old(self).fresh() ==> (r <==> old(self).tags().contains_key(path_view(path@))),
    {
        self.resolve_tag(id, path).is_ok()
    }
}

impl SpfsRepository {
    /// Finds how a build is stored: with one tag per component, or with a legacy tag.
    pub fn lookup_package(&mut self, id: &BuildIdent) -> (r: Result<StoredPackage, Error>)
        requires
            old(self).wf(),
        ensures
            old(self).reads_only(&*final(self)),
            old(self).fresh() ==> {
                &&& (r is Ok <==> is_stored(old(self).tags(), build_path(pkg_root(), id@)))
                &&& (r matches Ok(s) ==> stored_ok(old(self).tags(), build_path(pkg_root(), id@), s))
                &&& (r is Err ==> crate::ident::not_found_for(r->Err_0, crate::ident::build_any(id@)))
            },
    {
        proof {
            reveal_strlit("pkg");
        }
        let tag_path = build_tag("pkg", id);
        let ghost p = build_path(pkg_root(), id@);
        let ghost m = self.tags();
        let ghost fresh0 = self.fresh();
        let ghost s0 = *self;
        let entries = self.ls_tags(&tag_path);
        let ghost es = entries_view(entries@);
        let specs = collect_component_tags(&entries, &tag_path);
        if specs.len() > 0 {
            proof {
                if fresh0 {
                    assert forall|n: Seq<char>| #[trigger] is_component_at(m, p, n) implies exists|
                        k: int,
                    | 0 <= k < specs.len() && (#[trigger] specs@[k]).0.text() == n by {
                        assert(has_entry(m, p, n, true));
                        assert(es.contains((n, true)));
                    }
                    assert forall|k: int| 0 <= k < specs.len() implies is_component_at(
                        m,
                        p,
                        (#[trigger] specs@[k]).0.text(),
                    ) by {
                        assert(es.contains((specs@[k].0.text(), true)));
                        assert(has_entry(m, p, specs@[k].0.text(), true));
                    }
                    assert(components_ok(m, p, specs@));
                    assert(is_component_at(m, p, specs@[0].0.text()));
                    assert(stored_ok(m, p, StoredPackage::WithComponents(specs)));
                }
            }
            return Ok(StoredPackage::WithComponents(specs));
        }
        proof {
            if fresh0 {
                assert forall|n: Seq<char>| !#[trigger] is_component_at(m, p, n) by {
                    if is_component_at(m, p, n) {
                        assert(has_entry(m, p, n, true));
                        assert(es.contains((n, true)));
                    }
                }
            }
        }
        let any = id.to_any();
        if self.has_tag(&any, &tag_path) {
            return Ok(StoredPackage::WithoutComponents(tag_path));
        }
        Err(Error::PackageNotFound(any))
    }
}

/// The component tags among the entries of the folder `tag_path`, each once.
fn collect_component_tags(entries: &Vec<EntryType>, tag_path: &TagPathBuf) -> (specs: Vec<
    (Component, TagPathBuf),
>)
    ensures
        forall|k: int|
            0 <= k < specs.len() ==> valid_name((#[trigger] specs@[k]).0.text()) && parsed_as(
                specs@[k].0,
                specs@[k].0.text(),
            ) && path_view(specs@[k].1@) == path_view(tag_path@).push(specs@[k].0.text())
                && entries_view(entries@).contains((specs@[k].0.text(), true)),
        forall|n: Seq<char>|
            entries_view(entries@).contains((n, true)) && valid_name(n) ==> exists|k: int|
                0 <= k < specs.len() && (#[trigger] specs@[k]).0.text() == n,
        forall|a: int, b: int|
            0 <= a < b < specs.len() ==> (#[trigger] specs@[a]).0.text() != (
            #[trigger] specs@[b]).0.text(),
{
    let ghost es = entries_view(entries@);
    let ghost p = path_view(tag_path@);
    let mut specs: Vec<(Component, TagPathBuf)> = Vec::new();
    let mut i: usize = 0;
    while i < entries.len()
        invariant
            i <= entries.len(),
            es == entries_view(entries@),
            p == path_view(tag_path@),
            forall|k: int|
                0 <= k < specs.len() ==> valid_name((#[trigger] specs@[k]).0.text()) && parsed_as(
                    specs@[k].0,
                    specs@[k].0.text(),
                ) && path_view(specs@[k].1@) == p.push(specs@[k].0.text()) && es.take(
                    i as int,
                ).contains((specs@[k].0.text(), true)),
            forall|n: Seq<char>|
                es.take(i as int).contains((n, true)) && valid_name(n) ==> exists|k: int|
                    0 <= k < specs.len() && (#[trigger] specs@[k]).0.text() == n,
            forall|a: int, b: int|
                0 <= a < b < specs.len() ==> (#[trigger] specs@[a]).0.text() != (
                #[trigger] specs@[b]).0.text(),
        decreases entries.len() - i,
    {
        let ghost specs0 = specs@;
        proof {
            assert(es[i as int] == entry_view(entries@[i as int]));
        }
        match &entries[i] {
            EntryType::Tag(name) => {
                if let Ok(c) = Component::parse(name.as_str()) {
                    if !has_component_text(&specs, name.as_str()) {
                        let mut path = copy_path(tag_path);
                        let ghost before = path@;
                        let n = name.clone();
                        path.push(n);
                        proof {
                            assert(path@ == before.push(n));
                            assert(path_view(path@) =~= p.push(c.text()));
                        }
                        specs.push((c, path));
                    }
                }
            },
            EntryType::Folder(_) => {},
        }
        proof {
            let t0 = es.take(i as int);
            let t1 = es.take(i as int + 1);
            assert(t1 =~= t0.push(es[i as int]));
            assert forall|k: int|
                0 <= k < specs.len() implies valid_name((#[trigger] specs@[k]).0.text())
                && parsed_as(specs@[k].0, specs@[k].0.text()) && path_view(specs@[k].1@) == p.push(
                specs@[k].0.text(),
            ) && t1.contains((specs@[k].0.text(), true)) by {
                if k < specs0.len() {
                    assert(specs@[k] == specs0[k]);
                    let j = choose|j: int| 0 <= j < t0.len() && t0[j] == (specs0[k].0.text(), true);
                    assert(t1[j] == t0[j]);
                } else {
                    assert(t1[i as int] == (specs@[k].0.text(), true));
                }
            }
            assert forall|n: Seq<char>|
                t1.contains((n, true)) && valid_name(n) implies exists|k: int|
                0 <= k < specs.len() && (#[trigger] specs@[k]).0.text() == n by {
                let j = choose|j: int| 0 <= j < t1.len() && t1[j] == (n, true);
                if j < i {
                    assert(t0[j] == (n, true));
                    let k = choose|k: int| 0 <= k < specs0.len() && (#[trigger] specs0[k]).0.text() == n;
                    assert(specs@[k] == specs0[k]);
                } else if specs@.len() > specs0.len() {
                    assert(specs@[specs0.len() as int].0.text() == n);
                }
            }
        }
        i = i + 1;
    }
    proof {
        assert(es.take(i as int) =~= es);
    }
    specs
}

/// Whether some entry of `specs` is the component named `n`.
fn has_component_text(specs: &Vec<(Component, TagPathBuf)>, n: &str) -> (r: bool)
    ensures
        r == exists|k: int| 0 <= k < specs.len() && (#[trigger] specs@[k]).0.text() == n@,
{
    let mut k: usize = 0;
    while k < specs.len()
        invariant
            k <= specs.len(),
            forall|j: int| 0 <= j < k ==> (#[trigger] specs@[j]).0.text() != n@,
        decreases specs.len() - k,
    {
        if crate::component::str_eq(specs[k].0.as_str(), n) {
            return true;
        }
        k = k + 1;
    }
    false
}

/// A fresh listing of the store meets `listing_ok`.
pub proof fn lemma_listing_view(m: Map<Seq<Seq<char>>, Seq<Tag>>, f: Seq<Seq<char>>, r: Seq<EntryType>)
    requires
        forall|name: Seq<char>, is_tag: bool|
            #[trigger] crate::store::listed(r, name, is_tag) <==> has_entry(m, f, name, is_tag),
        forall|i: int, j: int|
            0 <= i < j < r.len() ==> entry_view(#[trigger] r[i]) != entry_view(#[trigger] r[j]),
    ensures
        listing_ok(m, f, entries_view(r)),
{
    let es = entries_view(r);
    assert forall|name: Seq<char>, is_tag: bool|
        #[trigger] es.contains((name, is_tag)) <==> has_entry(m, f, name, is_tag) by {
        if es.contains((name, is_tag)) {
            let i = choose|i: int| 0 <= i < es.len() && es[i] == (name, is_tag);
            assert(entry_view(r[i]) == (name, is_tag));
            assert(crate::store::listed(r, name, is_tag));
        }
        if crate::store::listed(r, name, is_tag) {
            let i = choose|i: int| 0 <= i < r.len() && entry_view(#[trigger] r[i]) == (name, is_tag);
            assert(es[i] == (name, is_tag));
        }
    }
    assert forall|i: int, j: int| 0 <= i < j < es.len() implies es[i] != es[j] by {
        assert(es[i] == entry_view(r[i]));
        assert(es[j] == entry_view(r[j]));
    }
}

} // verus!
