use vstd::prelude::*;

use crate::cache::CachePolicy;
use crate::error::Error;
use crate::ident::{build_path, build_tag, pkg_root, spec_root, version_path, version_tag, BuildIdent, VersionIdent};
use crate::name::is_valid_name;
use crate::repository::SpfsRepository;
use crate::store::{path_view, Tag, TagPathBuf};
use crate::stored::{is_component_at, is_stored, stored_ok, stored_tags, StoredPackage};

verus! {

/// One step of combining the outcomes of the three deletions of a package
/// removal: an error other than `PackageNotFound` dominates; having deleted
/// something outweighs `PackageNotFound`; otherwise the prevailing error stays.
pub open spec fn combine(acc: Result<bool, Error>, x: Result<bool, Error>) -> Result<bool, Error> {
    match (acc, x) {
        (Err(e), _) if !(e is PackageNotFound) => Err(e),
        (_, Err(e)) if !(e is PackageNotFound) => Err(e),
        (Ok(a), Ok(b)) => Ok(a || b),
        (Ok(true), Err(_)) => Ok(true),
        (Err(_), Ok(true)) => Ok(true),
        (Err(e), _) => Err(e),
        (_, Err(e)) => Err(e),
    }
}

/// `combine`, computed.
pub fn combine_results(acc: Result<bool, Error>, x: Result<bool, Error>) -> (r: Result<bool, Error>)
    ensures
        r == combine(acc, x),
{
    match (acc, x) {
        (Err(e), x) => {
            if !e.is_package_not_found() {
                return Err(e);
            }
            match x {
                Err(f) => {
                    if !f.is_package_not_found() {
                        Err(f)
                    } else {
                        Err(e)
                    }
                },
                Ok(true) => Ok(true),
                Ok(false) => Err(e),
            }
        },
        (Ok(a), Err(f)) => {
            if !f.is_package_not_found() {
                Err(f)
            } else if a {
                Ok(true)
            } else {
                Err(f)
            }
        },
        (Ok(a), Ok(b)) => Ok(a || b),
    }
}

/// The paths of a list of tag paths.
pub open spec fn path_list(t: Seq<TagPathBuf>) -> Seq<Seq<Seq<char>>> {
    t.map_values(|p: TagPathBuf| path_view(p@))
}

/// `m2` is `m` without the valid component tags below `l`, except perhaps at `l` itself.
pub open spec fn cleared(m: Map<Seq<Seq<char>>, Seq<Tag>>, m2: Map<Seq<Seq<char>>, Seq<Tag>>, l: Seq<Seq<char>>) -> bool {
    &&& forall|q: Seq<Seq<char>>|
        q != l ==> (#[trigger] m2.contains_key(q) <==> m.contains_key(q) && !exists|n: Seq<char>|
            #[trigger] is_valid_name(n) && q == l.push(n))
    &&& forall|q: Seq<Seq<char>>| #[trigger] m2.contains_key(q) ==> m.contains_key(q) && m2[q] == m[q]
}

/// Whether a removal of the package whose legacy tag path is `l` and spec tag
/// path is `s` deletes the tag at `q`.
pub open spec fn doomed(q: Seq<Seq<char>>, l: Seq<Seq<char>>, s: Seq<Seq<char>>) -> bool {
    q == l || q == s || exists|n: Seq<char>| #[trigger] is_valid_name(n) && q == l.push(n)
}

impl SpfsRepository {
    /// Removes the recipe at `spk/spec/<name>/<version>`.
    pub fn remove_recipe(&mut self, pkg: &VersionIdent) -> (r: Result<(), Error>)
        requires
            old(self).wf(),
        ensures
            final(self).wf(),
            r is Ok <==> old(self).tags().contains_key(version_path(spec_root(), pkg@.0, pkg@.1)),
            r is Err ==> crate::ident::not_found_for(r->Err_0, crate::ident::version_any(pkg@)),
            final(self).tags() == old(self).tags().remove(version_path(spec_root(), pkg@.0, pkg@.1)),
            final(self).blobs() == old(self).blobs(),
            final(self).policy() == old(self).policy(),
            r is Ok ==> final(self).caches_empty() && final(self).coherent(),
            old(self).coherent() ==> final(self).coherent(),
    {
        proof {
            reveal_strlit("spec");
        }
        let tag_path = version_tag("spec", &pkg.name, &pkg.version);
        let ghost s0 = *self;
        match self.remove_tag_stream_uncached(&tag_path) {
            Ok(_) => {
                self.invalidate_caches();
                Ok(())
            },
            Err(_) => {
                proof {
                    assert(self.tags() =~= s0.tags());
                }
                Err(Error::PackageNotFound(pkg.to_any()))
            },
        }
    }
}

impl SpfsRepository {
    /// Removes the embed stub at `spk/spec/<name>/<version>/<build>`.
    pub fn remove_embed_stub_from_storage(&mut self, pkg: &BuildIdent) -> (r: Result<(), Error>)
        requires
            old(self).wf(),
        ensures
            final(self).wf(),
            r is Ok <==> old(self).tags().contains_key(build_path(spec_root(), pkg@)),
            r is Err ==> crate::ident::not_found_for(r->Err_0, crate::ident::build_any(pkg@)),
            final(self).tags() == old(self).tags().remove(build_path(spec_root(), pkg@)),
            final(self).blobs() == old(self).blobs(),
            final(self).policy() == old(self).policy(),
            r is Ok ==> final(self).caches_empty() && final(self).coherent(),
            old(self).coherent() ==> final(self).coherent(),
    {
        proof {
            reveal_strlit("spec");
        }
        let tag_path = build_tag("spec", pkg);
        let ghost s0 = *self;
        match self.remove_tag_stream_uncached(&tag_path) {
            Ok(_) => {
                self.invalidate_caches();
                Ok(())
            },
            Err(_) => {
                proof {
                    assert(self.tags() =~= s0.tags());
                }
                Err(Error::PackageNotFound(pkg.to_any()))
            },
        }
    }

    /// Removes every tag in `tags`; the result says whether any was there.
    fn remove_all(&mut self, tags: &Vec<TagPathBuf>) -> (deleted: bool)
        requires
            old(self).wf(),
        ensures
            final(self).wf(),
            final(self).blobs() == old(self).blobs(),
            final(self).policy() == old(self).policy(),
            final(self).repo_name() == old(self).repo_name(),
            final(self).repo_address() == old(self).repo_address(),
            forall|q: Seq<Seq<char>>|
                #[trigger] final(self).tags().contains_key(q) <==> old(self).tags().contains_key(q)
                    && !path_list(tags@).contains(q),
            forall|q: Seq<Seq<char>>|
                #[trigger] final(self).tags().contains_key(q) ==> final(self).tags()[q] == old(self).tags()[q],
            deleted || forall|k: int| 0 <= k < tags.len() ==> !old(self).tags().contains_key(
                path_view((#[trigger] tags@[k])@),
            ),
    {
        let ghost m = self.tags();
        let ghost pl = path_list(tags@);
        let mut deleted = false;
        let mut i: usize = 0;
        while i < tags.len()
            invariant
                self.wf(),
                i <= tags.len(),
                m == old(self).tags(),
                self.blobs() == old(self).blobs(),
                self.policy() == old(self).policy(),
                self.repo_name() == old(self).repo_name(),
                self.repo_address() == old(self).repo_address(),
                forall|q: Seq<Seq<char>>|
                    #[trigger] self.tags().contains_key(q) <==> m.contains_key(q) && !(exists|k: int|
                        0 <= k < i && q == path_view((#[trigger] tags@[k])@)),
                forall|q: Seq<Seq<char>>|
                    #[trigger] self.tags().contains_key(q) ==> self.tags()[q] == m[q],
                deleted || forall|k: int| 0 <= k < i ==> !m.contains_key(path_view((#[trigger] tags@[k])@)),
            decreases tags.len() - i,
        {
            let ghost before = self.tags();
            let ghost t = path_view(tags@[i as int]@);
            if self.remove_tag_stream_uncached(&tags[i]).is_ok() {
                deleted = true;
            } else {
                proof {
                    if m.contains_key(t) && !deleted {
                        let k = choose|k: int| 0 <= k < i && t == path_view((#[trigger] tags@[k])@);
                        assert(!m.contains_key(path_view(tags@[k]@)));
                    }
                }
            }
            proof {
                assert forall|q: Seq<Seq<char>>|
                    #[trigger] self.tags().contains_key(q) <==> m.contains_key(q) && !(exists|k: int|
                        0 <= k < i + 1 && q == path_view((#[trigger] tags@[k])@)) by {
                    if q == t {
                        assert(path_view(tags@[i as int]@) == q);
                    } else if m.contains_key(q) && !(exists|k: int|
                        0 <= k < i && q == path_view((#[trigger] tags@[k])@)) {
                        assert(before.contains_key(q));
                    }
                }
            }
            i = i + 1;
        }
        proof {
            assert forall|q: Seq<Seq<char>>|
                #[trigger] self.tags().contains_key(q) <==> m.contains_key(q) && !pl.contains(q) by {
                if pl.contains(q) {
                    let k = choose|k: int| 0 <= k < pl.len() && pl[k] == q;
                    assert(q == path_view(tags@[k]@));
                }
                if exists|k: int| 0 <= k < tags.len() && q == path_view((#[trigger] tags@[k])@) {
                    let k = choose|k: int| 0 <= k < tags.len() && q == path_view((#[trigger] tags@[k])@);
                    assert(pl[k] == q);
                }
            }
        }
        deleted
    }

    /// Removes a build: its component tags (found with the cache bypassed),
    /// its legacy tag and its spec tag. The removal succeeds when any of these
    /// deleted something, and otherwise fails with `PackageNotFound`.
    pub fn remove_package_from_storage(&mut self, pkg: &BuildIdent) -> (r: Result<(), Error>)
        requires
            old(self).wf(),
        ensures
            final(self).wf(),
            final(self).caches_empty(),
            final(self).coherent(),
            final(self).policy() == old(self).policy(),
            final(self).blobs() == old(self).blobs(),
            r is Ok <==> (is_stored(old(self).tags(), build_path(pkg_root(), pkg@))
                || old(self).tags().contains_key(build_path(spec_root(), pkg@))),
            r is Err ==> crate::ident::not_found_for(r->Err_0, crate::ident::build_any(pkg@)),
            forall|q: Seq<Seq<char>>|
                #[trigger] final(self).tags().contains_key(q) <==> old(self).tags().contains_key(q)
                    && !doomed(q, build_path(pkg_root(), pkg@), build_path(spec_root(), pkg@)),
            forall|q: Seq<Seq<char>>|
                #[trigger] final(self).tags().contains_key(q) ==> final(self).tags()[q] == old(
                    self,
                ).tags()[q],
    {
        proof {
            reveal_strlit("spec");
            reveal_strlit("pkg");
        }
        let ghost m = self.tags();
        let ghost l = build_path(pkg_root(), pkg@);
        let ghost s = build_path(spec_root(), pkg@);
        proof {
            assert(l != s) by {
                assert(l[1] != s[1]) by {
                    assert(l[1].len() != s[1].len());
                }
            }
        }
        let orig = self.set_cache_policy(CachePolicy::BypassCache);
        let looked = self.lookup_package(pkg);
        self.set_cache_policy(orig);
        let ghost m1 = self.tags();
        let component_result: Result<bool, Error> = match looked {
            Err(e) => {
                proof {
                    assert(!is_stored(m, l));
                    assert forall|q: Seq<Seq<char>>| q != l implies (#[trigger] self.tags().contains_key(q)
                        <==> m.contains_key(q) && !exists|n: Seq<char>|
                        #[trigger] is_valid_name(n) && q == l.push(n)) by {
                        if m.contains_key(q) && exists|n: Seq<char>| #[trigger] is_valid_name(n) && q == l.push(n) {
                            let n = choose|n: Seq<char>| #[trigger] is_valid_name(n) && q == l.push(n);
                            assert(is_component_at(m, l, n));
                        }
                    }
                    assert(cleared(m, self.tags(), l));
                }
                Err(e)
            },
            Ok(stored) => {
                let tags = stored.tags();
                proof {
                    lemma_stored_tags(m, l, stored);
                }
                let deleted = self.remove_all(&tags);
                proof {
                    let st = stored_tags(stored);
                    assert(tags@.map_values(|t: TagPathBuf| path_view(t@)) == st);
                    assert(path_list(tags@) == st);
                    assert forall|q: Seq<Seq<char>>| q != l implies (#[trigger] self.tags().contains_key(q)
                        <==> m.contains_key(q) && !exists|n: Seq<char>|
                        #[trigger] is_valid_name(n) && q == l.push(n)) by {
                        assert(self.tags().contains_key(q) == (m.contains_key(q) && !st.contains(q)));
                        if m.contains_key(q) && exists|n: Seq<char>| #[trigger] is_valid_name(n) && q == l.push(n) {
                            let n = choose|n: Seq<char>| #[trigger] is_valid_name(n) && q == l.push(n);
                            assert(is_component_at(m, l, n));
                        }
                    }
                    assert(cleared(m, self.tags(), l));
                    if !deleted {
                        lemma_stored_nonempty(m, l, stored);
                        assert(path_list(tags@)[0] == path_view(tags@[0]@));
                    }
                }
                Ok(deleted)
            },
        };
        let ghost m2 = self.tags();
        let legacy = build_tag("pkg", pkg);
        let legacy_result: Result<bool, Error> = match self.remove_tag_stream_uncached(&legacy) {
            Ok(_) => Ok(true),
            Err(_) => Ok(false),
        };
        let ghost m3 = self.tags();
        let spec_path = build_tag("spec", pkg);
        let spec_result: Result<bool, Error> = match self.remove_tag_stream_uncached(&spec_path) {
            Ok(_) => Ok(true),
            Err(_) => Err(Error::PackageNotFound(pkg.to_any())),
        };
        self.invalidate_caches();
        let acc = combine_results(Ok(false), component_result);
        let acc = combine_results(acc, spec_result);
        let acc = combine_results(acc, legacy_result);
        proof {
            assert(m1 == m);
            if looked is Err {
                assert(!is_stored(m, l));
            }
            assert(cleared(m, m2, l));
            assert forall|q: Seq<Seq<char>>|
                #[trigger] self.tags().contains_key(q) <==> m.contains_key(q) && !doomed(q, l, s) by {
                if q != l && q != s {
                    assert(self.tags().contains_key(q) == m2.contains_key(q));
                }
            }
            assert forall|q: Seq<Seq<char>>| #[trigger] self.tags().contains_key(q) implies self.tags()[q]
                == m[q] by {
                assert(m3.contains_key(q));
                assert(m2.contains_key(q));
            }
            if m2.contains_key(l) {
                assert(m.contains_key(l));
            }
        }
        match acc {
            Ok(true) => Ok(()),
            Ok(false) => Err(Error::PackageNotFound(pkg.to_any())),
            Err(e) => Err(e),
        }
    }
}

/// The tags of a stored package are the existing valid component tags, or the legacy tag.
proof fn lemma_stored_tags(m: Map<Seq<Seq<char>>, Seq<Tag>>, l: Seq<Seq<char>>, s: StoredPackage)
    requires
        stored_ok(m, l, s),
    ensures
        forall|q: Seq<Seq<char>>|
            #[trigger] stored_tags(s).contains(q) <==> (
            m.contains_key(q) && ((s is WithoutComponents && q == l) || (s is WithComponents && exists|
                n: Seq<char>,
            | #[trigger] is_valid_name(n) && q == l.push(n)))),
{
    match s {
        StoredPackage::WithComponents(cs) => {
            let st = stored_tags(s);
            assert forall|q: Seq<Seq<char>>|
                #[trigger] st.contains(q) <==> (m.contains_key(q)
                    && exists|n: Seq<char>| #[trigger] is_valid_name(n) && q == l.push(n)) by {
                if st.contains(q) {
                    let k = choose|k: int| 0 <= k < st.len() && st[k] == q;
                    assert(st[k] == path_view(cs@[k].1@));
                    assert(is_component_at(m, l, cs@[k].0.text()));
                    assert(is_valid_name(cs@[k].0.text()) && q == l.push(cs@[k].0.text()));
                }
                if m.contains_key(q) && exists|n: Seq<char>| #[trigger] is_valid_name(n) && q == l.push(n) {
                    let n = choose|n: Seq<char>| #[trigger] is_valid_name(n) && q == l.push(n);
                    assert(is_component_at(m, l, n));
                    let i = choose|i: int| 0 <= i < cs@.len() && (#[trigger] cs@[i]).0.text() == n;
                    assert(st[i] == path_view(cs@[i].1@));
                    assert(q == st[i]);
                }
            }
        },
        StoredPackage::WithoutComponents(t) => {
            assert(stored_tags(s)[0] == l);
            assert(stored_tags(s).contains(l));
        },
    }
}

proof fn lemma_stored_nonempty(m: Map<Seq<Seq<char>>, Seq<Tag>>, l: Seq<Seq<char>>, s: StoredPackage)
    requires
        stored_ok(m, l, s),
    ensures
        stored_tags(s).len() > 0,
        m.contains_key(stored_tags(s)[0]),
{
    match s {
        StoredPackage::WithComponents(cs) => {
            assert(stored_tags(s)[0] == path_view(cs@[0].1@));
            assert(is_component_at(m, l, cs@[0].0.text()));
        },
        StoredPackage::WithoutComponents(t) => {},
    }
}

} // verus!
