use vstd::prelude::*;
use vstd::string::*;

use crate::component::Component;
use crate::error::Error;
use crate::ident::{
    build_path, build_tag, component_tag, pkg_root, spec_root, version_path, version_tag, Build,
    BuildIdent, VersionIdent,
};
use crate::repository::SpfsRepository;
use crate::store::{path_view, Digest, Tag, TagPathBuf};

verus! {

/// Whether a recipe publish may overwrite an existing version.
#[derive(Clone, Copy, PartialEq, Eq, Structural, Debug)]
pub enum PublishPolicy {
    OverwriteVersion,
    DoNotOverwriteVersion,
}

/// A recipe as stored: its identifier and its YAML text.
#[derive(Debug)]
pub struct Recipe {
    pub ident: VersionIdent,
    pub yaml: String,
}

/// A built package (or embed stub) as stored: its identifier and its YAML text.
#[derive(Debug)]
pub struct Package {
    pub ident: BuildIdent,
    pub yaml: String,
}

/// `m` after one more entry `t` on the stream at `p`.
pub open spec fn pushed(m: Map<Seq<Seq<char>>, Seq<Tag>>, p: Seq<Seq<char>>, t: Tag) -> Map<
    Seq<Seq<char>>,
    Seq<Tag>,
> {
    m.insert(
        p,
        if m.contains_key(p) {
            m[p].push(t)
        } else {
            seq![t]
        },
    )
}

/// Whether the stream at `p` of `m` ends at a blob holding `payload`.
pub open spec fn points_at_payload(
    m: Map<Seq<Seq<char>>, Seq<Tag>>,
    blobs: Seq<Seq<char>>,
    p: Seq<Seq<char>>,
    payload: Seq<char>,
) -> bool {
    &&& m.contains_key(p)
    &&& m[p].last().target.value < blobs.len()
    &&& blobs[m[p].last().target.value as int] == payload
}

/// The component that must be present for a build to be published: `src` for
/// a source package, `run` otherwise.
pub open spec fn required_component(b: Build) -> Component {
    if b is Source {
        Component::Source
    } else {
        Component::Run
    }
}

/// The error text when the component that a publish needs is missing.
pub open spec fn missing_component_message(b: Build) -> Seq<char> {
    if b is Source {
        "Package must have a source component to be published"@
    } else {
        "Package must have a run component to be published"@
    }
}

/// The digest given for the component named `n`, if any.
pub open spec fn digest_of(cs: Seq<(Component, Digest)>, n: Seq<char>) -> Option<Digest> {
    if exists|i: int| 0 <= i < cs.len() && (#[trigger] cs[i]).0.text() == n {
        Some(cs[choose|i: int| 0 <= i < cs.len() && (#[trigger] cs[i]).0.text() == n].1)
    } else {
        None
    }
}

/// Whether `q` is the tag of one of the first `n` components, below `legacy`.
pub open spec fn hits(q: Seq<Seq<char>>, legacy: Seq<Seq<char>>, cs: Seq<(Component, Digest)>, n: int) -> bool {
    exists|k: int| 0 <= k < n && q == legacy.push((#[trigger] cs[k]).0.text())
}

/// Whether a publish of the build `id` with components `cs` leaves the tag at `q` alone.
pub open spec fn untouched(
    q: Seq<Seq<char>>,
    id: (Seq<char>, Seq<u32>, Seq<char>),
    cs: Seq<(Component, Digest)>,
) -> bool {
    &&& q != build_path(pkg_root(), id)
    &&& q != build_path(spec_root(), id)
    &&& !hits(q, build_path(pkg_root(), id), cs, cs.len() as int)
}

/// No two entries name the same component.
pub open spec fn distinct_components(cs: Seq<(Component, Digest)>) -> bool {
    forall|i: int, j: int|
        0 <= i < j < cs.len() ==> (#[trigger] cs[i]).0.text() != (#[trigger] cs[j]).0.text()
}

/// The finishing state of a successful publish: caches empty and coherent, policy kept.
pub open spec fn settled(old: &SpfsRepository, new: &SpfsRepository) -> bool {
    &&& new.wf()
    &&& new.caches_empty()
    &&& new.coherent()
    &&& new.policy() == old.policy()
    &&& new.repo_name() == old.repo_name()
    &&& new.repo_address() == old.repo_address()
    &&& old.blobs().is_prefix_of(new.blobs())
    &&& new.blobs().len() <= old.blobs().len() + 1
}

fn find_digest(cs: &Vec<(Component, Digest)>, c: &Component) -> (r: Option<Digest>)
    requires
        distinct_components(cs@),
    ensures
        r == digest_of(cs@, c.text()),
{
    let mut i: usize = 0;
    while i < cs.len()
        invariant
            i <= cs.len(),
            distinct_components(cs@),
            forall|j: int| 0 <= j < i ==> (#[trigger] cs@[j]).0.text() != c.text(),
        decreases cs.len() - i,
    {
        if crate::component::str_eq(cs[i].0.as_str(), c.as_str()) {
            proof {
                let k = choose|k: int| 0 <= k < cs.len() && (#[trigger] cs@[k]).0.text() == c.text();
                if k != i {
                    assert(cs@[k].0.text() != cs@[i as int].0.text());
                }
            }
            return Some(cs[i].1);
        }
        i = i + 1;
    }
    None
}

impl SpfsRepository {
    /// Pushes one tag per component below the legacy tag of `id`.
    fn push_component_tags(&mut self, id: &BuildIdent, components: &Vec<(Component, Digest)>)
        requires
            old(self).wf(),
            distinct_components(components@),
        ensures
            final(self).wf(),
            final(self).blobs() == old(self).blobs(),
            final(self).policy() == old(self).policy(),
            final(self).repo_name() == old(self).repo_name(),
            final(self).repo_address() == old(self).repo_address(),
            forall|k: int|
                0 <= k < components.len() ==> final(self).tags().contains_key(
                    build_path(pkg_root(), id@).push((#[trigger] components@[k]).0.text()),
                ) && final(self).tags()[build_path(pkg_root(), id@).push(
                    components@[k].0.text(),
                )].last().target == components@[k].1,
            forall|q: Seq<Seq<char>>|
                !#[trigger] hits(q, build_path(pkg_root(), id@), components@, components@.len() as int)
                    ==> final(self).tags().contains_key(q) == old(self).tags().contains_key(q)
                    && final(self).tags()[q] == old(self).tags()[q],
    {
        let ghost legacy = build_path(pkg_root(), id@);
        let mut i: usize = 0;
        while i < components.len()
            invariant
                self.wf(),
                i <= components.len(),
                distinct_components(components@),
                legacy == build_path(pkg_root(), id@),
                self.blobs() == old(self).blobs(),
                self.policy() == old(self).policy(),
                self.repo_name() == old(self).repo_name(),
                self.repo_address() == old(self).repo_address(),
                forall|k: int|
                    0 <= k < i ==> self.tags().contains_key(
                        legacy.push((#[trigger] components@[k]).0.text()),
                    ) && self.tags()[legacy.push(components@[k].0.text())].last().target
                        == components@[k].1,
                forall|q: Seq<Seq<char>>|
                    !#[trigger] hits(q, legacy, components@, i as int) ==> self.tags().contains_key(q)
                        == old(self).tags().contains_key(q) && self.tags()[q] == old(self).tags()[q],
            decreases components.len() - i,
        {
            let path = component_tag(id, components[i].0.as_str());
            let ghost before = self.tags();
            let ghost np = legacy.push(components@[i as int].0.text());
            self.push_tag_uncached(&path, components[i].1);
            proof {
                assert forall|k: int| 0 <= k < i implies legacy.push(
                    (#[trigger] components@[k]).0.text(),
                ) != np by {
                    assert(components@[k].0.text() != components@[i as int].0.text());
                    assert(legacy.push(components@[k].0.text())[legacy.len() as int]
                        == components@[k].0.text());
                }
                assert forall|q: Seq<Seq<char>>|
                    !#[trigger] hits(q, legacy, components@, i as int + 1) implies self.tags().contains_key(q)
                        == old(self).tags().contains_key(q) && self.tags()[q] == old(self).tags()[q] by {
                    assert(q != legacy.push(components@[i as int].0.text()));
                    assert(!hits(q, legacy, components@, i as int));
                    assert(self.tags().contains_key(q) == before.contains_key(q));
                }
            }
            i = i + 1;
        }
    }

    /// Commits a payload and points the tag at `path` at it.
    fn push_payload(&mut self, path: &TagPathBuf, payload: String) -> (t: Tag)
        requires
            old(self).wf(),
            old(self).blobs().len() < u64::MAX,
        ensures
            final(self).wf(),
            old(self).blobs().is_prefix_of(final(self).blobs()),
            final(self).blobs() == old(self).blobs() || final(self).blobs() == old(self).blobs().push(
                payload@,
            ),
            final(self).tags() == pushed(old(self).tags(), path_view(path@), t),
            final(self).blobs()[t.target.value as int] == payload@,
            t.target.value < final(self).blobs().len(),
            final(self).policy() == old(self).policy(),
            final(self).repo_name() == old(self).repo_name(),
            final(self).repo_address() == old(self).repo_address(),
    {
        let ghost p = payload@;
        let digest = self.commit_blob(payload);
        let t = self.push_tag_uncached(path, digest);
        proof {
            assert(self.tags() == pushed(old(self).tags(), path_view(path@), t));
        }
        t
    }

    /// Publishes a recipe at `spk/spec/<name>/<version>`.
    pub fn publish_recipe_to_storage(&mut self, spec: &Recipe, publish_policy: PublishPolicy) -> (r:
        Result<(), Error>)
        requires
            old(self).wf(),
            old(self).blobs().len() < u64::MAX,
        ensures
            final(self).wf(),
            r is Err <==> (publish_policy is DoNotOverwriteVersion && old(self).tags().contains_key(
                version_path(spec_root(), spec.ident@.0, spec.ident@.1),
            )),
            r matches Err(e) ==> (e matches Error::VersionExists(i) && i@ == spec.ident@)
                && *final(self) == *old(self),
            r is Ok ==> settled(&*old(self), &*final(self)) && exists|t: Tag|
                final(self).tags() == pushed(
                    old(self).tags(),
                    version_path(spec_root(), spec.ident@.0, spec.ident@.1),
                    t,
                ) && points_at_payload(
                    final(self).tags(),
                    final(self).blobs(),
                    version_path(spec_root(), spec.ident@.0, spec.ident@.1),
                    spec.yaml@,
                ),
    {
        proof {
            reveal_strlit("spec");
        }
        let tag_path = version_tag("spec", &spec.ident.name, &spec.ident.version);
        if matches!(publish_policy, PublishPolicy::DoNotOverwriteVersion) && self.store_has_tag(
            &tag_path,
        ) {
            return Err(Error::VersionExists(spec.ident.duplicate()));
        }
        let ghost s1 = *self;
        let t = self.push_payload(&tag_path, spec.yaml.clone());
        let ghost s2 = *self;
        self.invalidate_caches();
        proof {
            assert(self.tags() == s2.tags());
            assert(self.tags() == pushed(old(self).tags(), path_view(tag_path@), t));
            assert(self.tags()[path_view(tag_path@)].last() == t);
            assert(points_at_payload(self.tags(), self.blobs(), path_view(tag_path@), spec.yaml@));
            assert(settled(&*old(self), &*self));
            let vp = version_path(spec_root(), spec.ident@.0, spec.ident@.1);
            assert(self.tags() == pushed(old(self).tags(), vp, t) && points_at_payload(
                self.tags(),
                self.blobs(),
                vp,
                spec.yaml@,
            ));
        }
        Ok(())
    }

    /// Publishes an embed stub at `spk/spec/<name>/<version>/<build>`.
    pub fn publish_embed_stub_to_storage(&mut self, spec: &Package) -> (r: Result<(), Error>)
        requires
            old(self).wf(),
            old(self).blobs().len() < u64::MAX,
        ensures
            r is Ok,
            settled(&*old(self), &*final(self)),
            exists|t: Tag|
                final(self).tags() == pushed(
                    old(self).tags(),
                    build_path(spec_root(), spec.ident@),
                    t,
                ) && points_at_payload(
                    final(self).tags(),
                    final(self).blobs(),
                    build_path(spec_root(), spec.ident@),
                    spec.yaml@,
                ),
    {
        proof {
            reveal_strlit("spec");
        }
        let tag_path = build_tag("spec", &spec.ident);
        let t = self.push_payload(&tag_path, spec.yaml.clone());
        self.invalidate_caches();
        proof {
            let bp = build_path(spec_root(), spec.ident@);
            assert(self.tags()[bp].last() == t);
            assert(self.tags() == pushed(old(self).tags(), bp, t) && points_at_payload(
                self.tags(),
                self.blobs(),
                bp,
                spec.yaml@,
            ));
        }
        Ok(())
    }

    /// Publishes a build: first the legacy tag `spk/pkg/<name>/<version>/<build>`
    /// at the `run` (or, for a source package, `src`) component, then one tag
    /// per component below it, and last the spec at `spk/spec/...`.
    pub fn publish_package_to_storage(
        &mut self,
        package: &Package,
        components: &Vec<(Component, Digest)>,
    ) -> (r: Result<(), Error>)
        requires
            old(self).wf(),
            old(self).blobs().len() < u64::MAX,
            distinct_components(components@),
        ensures
            final(self).wf(),
            r is Err <==> digest_of(components@, required_component(package.ident.build).text())
                is None,
            r is Err ==> (r matches Err(Error::String(s)) && s@ == missing_component_message(
                package.ident.build,
            )) && *final(self) == *old(self),
            r is Ok ==> {
                let legacy = build_path(pkg_root(), package.ident@);
                let spec = build_path(spec_root(), package.ident@);
                &&& settled(&*old(self), &*final(self))
                &&& final(self).tags().contains_key(legacy)
                &&& Some(final(self).tags()[legacy].last().target) == digest_of(
                    components@,
                    required_component(package.ident.build).text(),
                )
                &&& forall|i: int|
                    0 <= i < components.len() ==> final(self).tags().contains_key(
                        legacy.push((#[trigger] components@[i]).0.text()),
                    ) && final(self).tags()[legacy.push(components@[i].0.text())].last().target
                        == components@[i].1
                &&& points_at_payload(final(self).tags(), final(self).blobs(), spec, package.yaml@)
                &&& forall|q: Seq<Seq<char>>|
                    #[trigger] untouched(q, package.ident@, components@) ==> final(self).tags().contains_key(q)
                        == old(self).tags().contains_key(q) && final(self).tags()[q] == old(
                        self,
                    ).tags()[q]
            },
    {
        proof {
            reveal_strlit("pkg");
            reveal_strlit("spec");
        }
        let id = &package.ident;
        let ghost legacy = build_path(pkg_root(), id@);
        let ghost spec = build_path(spec_root(), id@);
        let tag_path = build_tag("pkg", id);
        let required = if id.build.is_source() {
            Component::Source
        } else {
            Component::Run
        };
        let legacy_component = match find_digest(components, &required) {
            Some(d) => d,
            None => {
                proof {
                    reveal_strlit("Package must have a source component to be published");
                    reveal_strlit("Package must have a run component to be published");
                }
                if id.build.is_source() {
                    return Err(
                        Error::String(
                            String::from_str(
                                "Package must have a source component to be published",
                            ),
                        ),
                    );
                } else {
                    return Err(
                        Error::String(
                            String::from_str("Package must have a run component to be published"),
                        ),
                    );
                }
            },
        };
        self.push_tag_uncached(&tag_path, legacy_component);
        let ghost m1 = self.tags();
        self.push_component_tags(id, components);
        proof {
            assert forall|q: Seq<Seq<char>>|
                q != legacy && (forall|k: int|
                    0 <= k < components.len() ==> q != legacy.push(
                        (#[trigger] components@[k]).0.text(),
                    )) implies self.tags().contains_key(q) == old(self).tags().contains_key(q)
                && self.tags()[q] == old(self).tags()[q] by {
                assert(!hits(q, legacy, components@, components@.len() as int));
                assert(m1.contains_key(q) == old(self).tags().contains_key(q));
            }
            assert(!hits(legacy, legacy, components@, components@.len() as int)) by {
                if hits(legacy, legacy, components@, components@.len() as int) {
                    let k = choose|k: int|
                        0 <= k < components@.len() && legacy == legacy.push(
                            (#[trigger] components@[k]).0.text(),
                        );
                    assert(legacy.len() != legacy.push(components@[k].0.text()).len());
                }
            }
            assert forall|k: int| 0 <= k < components.len() implies legacy != legacy.push(
                (#[trigger] components@[k]).0.text(),
            ) by {
                assert(legacy.len() != legacy.push(components@[k].0.text()).len());
            }
            assert(self.tags()[legacy] == m1[legacy]);
        }
        proof {
            assert(spec != legacy) by {
                assert(spec[1] != legacy[1]) by {
                    reveal_strlit("spec");
                    reveal_strlit("pkg");
                    assert(spec[1].len() != legacy[1].len());
                }
            }
            assert forall|k: int| 0 <= k < components.len() implies legacy.push(
                (#[trigger] components@[k]).0.text(),
            ) != spec by {
                assert(legacy.push(components@[k].0.text()).len() != spec.len());
            }
        }
        let spec_path = build_tag("spec", id);
        let ghost m2 = self.tags();
        let t = self.push_payload(&spec_path, package.yaml.clone());
        self.invalidate_caches();
        proof {
            assert(self.tags()[spec].last() == t);
            assert(self.tags()[legacy] == m2[legacy]);
            assert forall|k: int| 0 <= k < components.len() implies self.tags().contains_key(
                legacy.push((#[trigger] components@[k]).0.text()),
            ) && self.tags()[legacy.push(components@[k].0.text())].last().target
                == components@[k].1 by {
                assert(legacy.push(components@[k].0.text()) != spec);
            }
            assert(points_at_payload(self.tags(), self.blobs(), spec, package.yaml@));
            assert(Some(self.tags()[legacy].last().target) == digest_of(
                components@,
                required_component(package.ident.build).text(),
            ));
            assert(settled(&*old(self), &*self));
            assert(self.tags().contains_key(legacy));
            assert forall|q: Seq<Seq<char>>|
                #[trigger] untouched(q, package.ident@, components@) implies self.tags().contains_key(q)
                    == old(self).tags().contains_key(q) && self.tags()[q] == old(self).tags()[q] by {
                assert(!hits(q, legacy, components@, components@.len() as int));
                assert(self.tags().contains_key(q) == m2.contains_key(q));
                assert(self.tags()[q] == m2[q]);
            }
        }
        Ok(())
    }
}

} // verus!
