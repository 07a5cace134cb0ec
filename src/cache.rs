use vstd::prelude::*;
use vstd::string::*;

use dashmap::DashMap;

use crate::component::Component;
use crate::error::{any_view, error_kind, AnyView, Error};
use crate::ident::AnyIdent;
use crate::store::{entry_view, path_view, EntryType, Tag, TagPathBuf};
use crate::version::Version;

verus! {

/// The concurrent map of the `dashmap` crate, which holds each cache.
#[verifier::external_type_specification]
#[verifier::external_body]
#[verifier::reject_recursive_types(K)]
#[verifier::reject_recursive_types(V)]
#[verifier::reject_recursive_types(S)]
pub struct ExDashMap<K, V, S>(DashMap<K, V, S>);

/// Whether reads may be answered from the cache.
#[derive(Clone, Copy, PartialEq, Eq, Structural, Debug)]
pub enum CachePolicy {
    CacheOk,
    BypassCache,
}

impl CachePolicy {
    pub fn cached_result_permitted(&self) -> (r: bool)
        ensures
            r == (*self is CacheOk),
    {
        matches!(self, CachePolicy::CacheOk)
    }
}

/// A successful result kept in a cache.
pub enum Cached {
    /// A YAML payload.
    Payload(String),
    /// A resolved tag.
    Tag(Tag),
    /// The listing of a tag folder.
    Entries(Vec<EntryType>),
    /// The versions of a package.
    Versions(Vec<Version>),
    /// The components of a build.
    Components(Vec<Component>),
}

/// A cache entry: a success, or an error kept with enough structure to be rebuilt.
pub enum CacheValue {
    InvalidPackageSpec(AnyIdent, String),
    PackageNotFound(AnyIdent),
    StringError(String),
    StringifiedError(String),
    Success(Cached),
}

/// The view of a cached success.
pub enum CachedView {
    Payload(Seq<char>),
    Tag(Tag),
    Entries(Seq<(Seq<char>, bool)>),
    Versions(Seq<Seq<u32>>),
    Components(Seq<Seq<char>>),
}

/// The view of a cache entry.
pub enum ValueView {
    InvalidPackageSpec(AnyView, Seq<char>),
    PackageNotFound(AnyView),
    StringError(Seq<char>),
    StringifiedError(Seq<char>),
    Success(CachedView),
}

pub open spec fn entries_view(v: Seq<EntryType>) -> Seq<(Seq<char>, bool)> {
    v.map_values(|e: EntryType| entry_view(e))
}

pub open spec fn versions_view(v: Seq<Version>) -> Seq<Seq<u32>> {
    v.map_values(|x: Version| x@)
}

pub open spec fn components_view(v: Seq<Component>) -> Seq<Seq<char>> {
    v.map_values(|c: Component| c.text())
}

pub open spec fn cached_view(c: Cached) -> CachedView {
    match c {
        Cached::Payload(s) => CachedView::Payload(s@),
        Cached::Tag(t) => CachedView::Tag(t),
        Cached::Entries(v) => CachedView::Entries(entries_view(v@)),
        Cached::Versions(v) => CachedView::Versions(versions_view(v@)),
        Cached::Components(v) => CachedView::Components(components_view(v@)),
    }
}

pub open spec fn value_view(v: CacheValue) -> ValueView {
    match v {
        CacheValue::InvalidPackageSpec(i, m) => ValueView::InvalidPackageSpec(any_view(i), m@),
        CacheValue::PackageNotFound(i) => ValueView::PackageNotFound(any_view(i)),
        CacheValue::StringError(s) => ValueView::StringError(s@),
        CacheValue::StringifiedError(s) => ValueView::StringifiedError(s@),
        CacheValue::Success(c) => ValueView::Success(cached_view(c)),
    }
}

/// The entry that caching `r` stores: the principal errors keep their
/// structure, any other error keeps its text, after `Cached error: `.
pub open spec fn value_of_result(r: Result<CachedView, Error>) -> ValueView {
    match r {
        Ok(c) => ValueView::Success(c),
        Err(Error::InvalidPackageSpec(i, m)) => ValueView::InvalidPackageSpec(any_view(i), m@),
        Err(Error::PackageNotFound(i)) => ValueView::PackageNotFound(any_view(i)),
        Err(Error::String(s)) => ValueView::StringError(s@),
        Err(e) => ValueView::StringifiedError("Cached error: "@ + crate::error::error_message(e)),
    }
}

/// The view of a result of a read that may be cached.
pub open spec fn result_view(r: Result<Cached, Error>) -> Result<CachedView, Error> {
    match r {
        Ok(c) => Ok(cached_view(c)),
        Err(e) => Err(e),
    }
}

/// Whether `r` is the result rebuilt from the cache entry `v`.
pub open spec fn rebuilt_from(r: Result<Cached, Error>, v: ValueView) -> bool {
    match v {
        ValueView::Success(c) => r matches Ok(x) && cached_view(x) == c,
        ValueView::InvalidPackageSpec(i, m) => r matches Err(Error::InvalidPackageSpec(j, n))
            && any_view(j) == i && n@ == m,
        ValueView::PackageNotFound(i) => r matches Err(Error::PackageNotFound(j)) && any_view(j)
            == i,
        ValueView::StringError(s) => r matches Err(Error::String(t)) && t@ == s,
        ValueView::StringifiedError(s) => r matches Err(Error::String(t)) && t@ == s,
    }
}

pub fn copy_entries(v: &Vec<EntryType>) -> (r: Vec<EntryType>)
    ensures
        entries_view(r@) == entries_view(v@),
{
    let mut r: Vec<EntryType> = Vec::new();
    let mut i: usize = 0;
    while i < v.len()
        invariant
            i <= v.len(),
            r@.len() == i,
            forall|j: int| 0 <= j < i ==> entry_view(#[trigger] r@[j]) == entry_view(v@[j]),
        decreases v.len() - i,
    {
        let e = match &v[i] {
            EntryType::Folder(n) => EntryType::Folder(n.clone()),
            EntryType::Tag(n) => EntryType::Tag(n.clone()),
        };
        r.push(e);
        i = i + 1;
    }
    proof {
        assert(entries_view(r@) =~= entries_view(v@));
    }
    r
}

pub fn copy_versions(v: &Vec<Version>) -> (r: Vec<Version>)
    ensures
        versions_view(r@) == versions_view(v@),
{
    let mut r: Vec<Version> = Vec::new();
    let mut i: usize = 0;
    while i < v.len()
        invariant
            i <= v.len(),
            r@.len() == i,
            forall|j: int| 0 <= j < i ==> (#[trigger] r@[j])@ == v@[j]@,
        decreases v.len() - i,
    {
        r.push(v[i].duplicate());
        i = i + 1;
    }
    proof {
        assert(versions_view(r@) =~= versions_view(v@));
    }
    r
}

impl Component {
    pub fn duplicate(&self) -> (r: Component)
        ensures
            r.text() == self.text(),
            r == *self,
    {
        match self {
            Component::All => Component::All,
            Component::Build => Component::Build,
            Component::Run => Component::Run,
            Component::Source => Component::Source,
            Component::Named(s) => Component::Named(s.clone()),
        }
    }
}

pub fn copy_components(v: &Vec<Component>) -> (r: Vec<Component>)
    ensures
        components_view(r@) == components_view(v@),
        r@ == v@,
{
    let mut r: Vec<Component> = Vec::new();
    let mut i: usize = 0;
    while i < v.len()
        invariant
            i <= v.len(),
            r@ == v@.take(i as int),
        decreases v.len() - i,
    {
        r.push(v[i].duplicate());
        i = i + 1;
        proof {
            assert(r@ =~= v@.take(i as int));
        }
    }
    proof {
        assert(v@.take(i as int) =~= v@);
    }
    r
}

impl AnyIdent {
    pub fn duplicate(&self) -> (r: AnyIdent)
        ensures
            any_view(r) == any_view(*self),
    {
        AnyIdent {
            name: self.name.clone(),
            version: match &self.version {
                Some(v) => Some(v.duplicate()),
                None => None,
            },
            build: match &self.build {
                Some(b) => Some(b.duplicate()),
                None => None,
            },
        }
    }
}

impl Cached {
    pub fn duplicate(&self) -> (r: Cached)
        ensures
            cached_view(r) == cached_view(*self),
    {
        match self {
            Cached::Payload(s) => Cached::Payload(s.clone()),
            Cached::Tag(t) => Cached::Tag(*t),
            Cached::Entries(v) => Cached::Entries(copy_entries(v)),
            Cached::Versions(v) => Cached::Versions(copy_versions(v)),
            Cached::Components(v) => Cached::Components(copy_components(v)),
        }
    }
}

impl CacheValue {
    pub fn duplicate(&self) -> (r: CacheValue)
        ensures
            value_view(r) == value_view(*self),
    {
        match self {
            CacheValue::InvalidPackageSpec(i, m) => CacheValue::InvalidPackageSpec(
                i.duplicate(),
                m.clone(),
            ),
            CacheValue::PackageNotFound(i) => CacheValue::PackageNotFound(i.duplicate()),
            CacheValue::StringError(s) => CacheValue::StringError(s.clone()),
            CacheValue::StringifiedError(s) => CacheValue::StringifiedError(s.clone()),
            CacheValue::Success(c) => CacheValue::Success(c.duplicate()),
        }
    }

    /// The entry that keeps the result `r`.
    pub fn from_result(r: &Result<Cached, Error>) -> (v: CacheValue)
        ensures
            value_view(v) == value_of_result(result_view(*r)),
    {
        match r {
            Ok(c) => CacheValue::Success(c.duplicate()),
            Err(Error::InvalidPackageSpec(i, m)) => CacheValue::InvalidPackageSpec(
                i.duplicate(),
                m.clone(),
            ),
            Err(Error::PackageNotFound(i)) => CacheValue::PackageNotFound(i.duplicate()),
            Err(Error::String(s)) => CacheValue::StringError(s.clone()),
            Err(e) => {
                let mut s = String::from_str("Cached error: ");
                proof {
                    reveal_strlit("Cached error: ");
                }
                let text = e.message();
                s.append(text.as_str());
                CacheValue::StringifiedError(s)
            },
        }
    }

    /// The result that this entry stands for.
    pub fn into_result(self) -> (r: Result<Cached, Error>)
        ensures
            rebuilt_from(r, value_view(self)),
    {
        match self {
            CacheValue::InvalidPackageSpec(i, m) => Err(Error::InvalidPackageSpec(i, m)),
            CacheValue::PackageNotFound(i) => Err(Error::PackageNotFound(i)),
            CacheValue::StringError(s) => Err(Error::String(s)),
            CacheValue::StringifiedError(s) => Err(Error::String(s)),
            CacheValue::Success(c) => Ok(c),
        }
    }
}

/// What a cache map holds: the view of the value under each key.
pub uninterp spec fn cache_contents(m: DashMap<TagPathBuf, CacheValue>) -> Map<Seq<Seq<char>>, ValueView>;

/// Relies on `DashMap::new`: an empty map.
#[verifier::external_body]
fn map_new() -> (r: DashMap<TagPathBuf, CacheValue>)
    ensures
        cache_contents(r).dom().is_empty(),
{
    DashMap::new()
}

/// Relies on `DashMap::get`: the value last inserted under `k`, if any, which
/// is handed out as a copy made by the verified `CacheValue::duplicate`.
#[verifier::external_body]
fn map_get(m: &DashMap<TagPathBuf, CacheValue>, k: &TagPathBuf) -> (r: Option<CacheValue>)
    ensures
        r is Some <==> cache_contents(*m).contains_key(path_view(k@)),
        r matches Some(v) ==> value_view(v) == cache_contents(*m)[path_view(k@)],
{
    m.get(k).map(|e| e.value().duplicate())
}

/// Relies on `DashMap::insert`: the value under `k` becomes `v`.
#[verifier::external_body]
fn map_insert(m: &mut DashMap<TagPathBuf, CacheValue>, k: TagPathBuf, v: CacheValue)
    ensures
        cache_contents(*final(m)) == cache_contents(*old(m)).insert(path_view(k@), value_view(v)),
{
    m.insert(k, v);
}

/// Relies on `DashMap::clear`: the map becomes empty.
#[verifier::external_body]
fn map_clear(m: &mut DashMap<TagPathBuf, CacheValue>)
    ensures
        cache_contents(*final(m)).dom().is_empty(),
{
    m.clear();
}

/// One cache map: a view of its contents, by key.
pub struct CacheMap {
    map: DashMap<TagPathBuf, CacheValue>,
}

impl CacheMap {
    pub closed spec fn view(&self) -> Map<Seq<Seq<char>>, ValueView> {
        cache_contents(self.map)
    }

    pub fn new() -> (r: CacheMap)
        ensures
            r.view().dom().is_empty(),
    {
        CacheMap { map: map_new() }
    }

    pub fn get(&self, k: &TagPathBuf) -> (r: Option<CacheValue>)
        ensures
            r is Some <==> self.view().contains_key(path_view(k@)),
            r matches Some(v) ==> value_view(v) == self.view()[path_view(k@)],
    {
        map_get(&self.map, k)
    }

    pub fn insert(&mut self, k: TagPathBuf, v: CacheValue)
        ensures
            final(self).view() == old(self).view().insert(path_view(k@), value_view(v)),
    {
        map_insert(&mut self.map, k, v)
    }

    pub fn clear(&mut self)
        ensures
            final(self).view() == Map::<Seq<Seq<char>>, ValueView>::empty(),
    {
        map_clear(&mut self.map);
        proof {
            assert(self.view() =~= Map::<Seq<Seq<char>>, ValueView>::empty());
        }
    }
}

/// The caches of one repository: each maps the text of a key to an entry.
pub struct CachesForAddress {
    /// Components of a build, by its package tag path.
    pub list_build_components: CacheMap,
    /// Tag folder listings, by folder path.
    pub ls_tags: CacheMap,
    /// Package and embed-stub payloads, by spec tag path.
    pub package: CacheMap,
    /// Versions of a package, by name.
    pub package_versions: CacheMap,
    /// Recipe payloads, by spec tag path.
    pub recipe: CacheMap,
    /// Resolved tags, by tag path.
    pub tag_spec: CacheMap,
}

impl CachesForAddress {
    pub open spec fn all_empty(&self) -> bool {
        &&& self.list_build_components.view().dom().is_empty()
        &&& self.ls_tags.view().dom().is_empty()
        &&& self.package.view().dom().is_empty()
        &&& self.package_versions.view().dom().is_empty()
        &&& self.recipe.view().dom().is_empty()
        &&& self.tag_spec.view().dom().is_empty()
    }

    pub fn new() -> (r: CachesForAddress)
        ensures
            r.all_empty(),
    {
        CachesForAddress {
            list_build_components: CacheMap::new(),
            ls_tags: CacheMap::new(),
            package: CacheMap::new(),
            package_versions: CacheMap::new(),
            recipe: CacheMap::new(),
            tag_spec: CacheMap::new(),
        }
    }

    /// Clears all six maps.
    pub fn invalidate(&mut self)
        ensures
            final(self).all_empty(),
    {
        self.list_build_components.clear();
        self.ls_tags.clear();
        self.package.clear();
        self.package_versions.clear();
        self.recipe.clear();
        self.tag_spec.clear();
    }
}

} // verus!
