use vstd::prelude::*;

use crate::component::{parsed_as, Component};
use crate::error::Error;
use crate::ident::{build_path, pkg_root, BuildIdent};
use crate::repository::SpfsRepository;
use crate::store::{path_view, Digest, Tag, TagPathBuf};
use crate::stored::{component_tags, is_component_at, is_source_path, stored_ok, StoredPackage};

verus! {

/// Whether `v` is what the namespace `m` gives as the components of the package
/// whose tag path is `p`, each with the digest its tag points at.
pub open spec fn components_read_ok(
    m: Map<Seq<Seq<char>>, Seq<Tag>>,
    p: Seq<Seq<char>>,
    v: Seq<(Component, Digest)>,
) -> bool {
    if exists|n: Seq<char>| #[trigger] is_component_at(m, p, n) {
        &&& forall|i: int|
            0 <= i < v.len() ==> is_component_at(m, p, (#[trigger] v[i]).0.text()) && parsed_as(
                v[i].0,
                v[i].0.text(),
            ) && v[i].1 == m[p.push(v[i].0.text())].last().target
        &&& forall|n: Seq<char>|
            #[trigger] is_component_at(m, p, n) ==> exists|i: int|
                0 <= i < v.len() && (#[trigger] v[i]).0.text() == n
        &&& forall|i: int, j: int|
            0 <= i < j < v.len() ==> (#[trigger] v[i]).0.text() != (#[trigger] v[j]).0.text()
    } else {
        &&& m.contains_key(p)
        &&& v == if is_source_path(p) {
            seq![(Component::Source, m[p].last().target)]
        } else {
            seq![(Component::Build, m[p].last().target), (Component::Run, m[p].last().target)]
        }
    }
}

impl SpfsRepository {
    /// The components of a build, each with the digest its tag points at.
    /// An embedded build has none.
    pub fn read_components_from_storage(&mut self, pkg: &BuildIdent) -> (r: Result<
        Vec<(Component, Digest)>,
        Error,
    >)
        requires
            old(self).wf(),
        ensures
            old(self).reads_only(&*final(self)),
            pkg.build is Embedded ==> (r matches Ok(v) && v.len() == 0),
            !(pkg.build is Embedded) && old(self).fresh() ==> {
                &&& (r is Ok <==> crate::stored::is_stored(
                    old(self).tags(),
                    build_path(pkg_root(), pkg@),
                ))
                &&& (r matches Ok(v) ==> components_read_ok(
                    old(self).tags(),
                    build_path(pkg_root(), pkg@),
                    v@,
                ))
                &&& (r is Err ==> crate::ident::not_found_for(r->Err_0, crate::ident::build_any(pkg@)))
            },
    {
        if pkg.build.is_embedded() {
            return Ok(Vec::new());
        }
        let ghost m = self.tags();
        let ghost p = build_path(pkg_root(), pkg@);
        let ghost fresh0 = self.fresh();
        let ghost s0 = *self;
        let package = match self.lookup_package(pkg) {
            Ok(s) => s,
            Err(e) => {
                return Err(e);
            },
        };
        let ghost stored = package;
        let component_tags = package.into_components();
        let ghost ct = component_tags@.map_values(
            |c: (Component, TagPathBuf)| (c.0, path_view(c.1@)),
        );
        let any = pkg.to_any();
        let mut components: Vec<(Component, Digest)> = Vec::new();
        let mut i: usize = 0;
        while i < component_tags.len()
            invariant
                s0.reads_only(&*self),
                s0 == *old(self),
                fresh0 ==> self.fresh(),
                !(pkg.build is Embedded),
                self.wf(),
                fresh0 == s0.fresh(),
                m == s0.tags(),
                i <= component_tags.len(),
                ct == component_tags@.map_values(
                    |c: (Component, TagPathBuf)| (c.0, path_view(c.1@)),
                ),
                fresh0 ==> stored_ok(m, p, stored),
                ct == crate::stored::component_tags(stored),
                components@.len() == i,
                fresh0 ==> forall|k: int|
                    0 <= k < i ==> (#[trigger] components@[k]).0 == ct[k].0 && components@[k].1
                        == m[ct[k].1].last().target,
            decreases component_tags.len() - i,
        {
            proof {
                assert(ct[i as int] == (component_tags@[i as int].0, path_view(component_tags@[i as int].1@)));
                if fresh0 {
                    lemma_component_tag_in_store(m, p, stored, i as int);
                }
            }
            let ghost before = *self;
            let res = self.resolve_tag(&any, &component_tags[i].1);
            proof {
                SpfsRepository::lemma_reads_only_trans(&s0, &before, &*self);
            }
            let tag = match res {
                Ok(t) => t,
                Err(e) => {
                    return Err(e);
                },
            };
            components.push((component_tags[i].0.duplicate(), tag.target));
            i = i + 1;
        }
        proof {
            if fresh0 {
                lemma_components_read(m, p, stored, components@);
            }
        }
        Ok(components)
    }
}

/// Every tag of a stored package is in the store.
proof fn lemma_component_tag_in_store(
    m: Map<Seq<Seq<char>>, Seq<Tag>>,
    p: Seq<Seq<char>>,
    s: StoredPackage,
    i: int,
)
    requires
        stored_ok(m, p, s),
        0 <= i < component_tags(s).len(),
    ensures
        m.contains_key(component_tags(s)[i].1),
{
    match s {
        StoredPackage::WithComponents(cs) => {
            assert(component_tags(s)[i].1 == path_view(cs@[i].1@));
            assert(is_component_at(m, p, cs@[i].0.text()));
        },
        StoredPackage::WithoutComponents(t) => {},
    }
}

proof fn lemma_components_read(
    m: Map<Seq<Seq<char>>, Seq<Tag>>,
    p: Seq<Seq<char>>,
    s: StoredPackage,
    v: Seq<(Component, Digest)>,
)
    requires
        stored_ok(m, p, s),
        v.len() == component_tags(s).len(),
        forall|k: int|
            0 <= k < v.len() ==> (#[trigger] v[k]).0 == component_tags(s)[k].0 && v[k].1 == m[component_tags(
                s,
            )[k].1].last().target,
    ensures
        components_read_ok(m, p, v),
{
    match s {
        StoredPackage::WithComponents(cs) => {
            let ct = component_tags(s);
            assert(is_component_at(m, p, cs@[0].0.text()));
            assert forall|i: int|
                0 <= i < v.len() implies is_component_at(m, p, (#[trigger] v[i]).0.text())
                && parsed_as(v[i].0, v[i].0.text()) && v[i].1 == m[p.push(
                v[i].0.text(),
            )].last().target by {
                assert(ct[i] == (cs@[i].0, path_view(cs@[i].1@)));
            }
            assert forall|n: Seq<char>| #[trigger] is_component_at(m, p, n) implies exists|i: int|
                0 <= i < v.len() && (#[trigger] v[i]).0.text() == n by {
                let i = choose|i: int| 0 <= i < cs@.len() && (#[trigger] cs@[i]).0.text() == n;
                assert(ct[i] == (cs@[i].0, path_view(cs@[i].1@)));
                assert(v[i].0.text() == n);
            }
            assert forall|i: int, j: int|
                0 <= i < j < v.len() implies (#[trigger] v[i]).0.text() != (#[trigger] v[j]).0.text() by {
                assert(ct[i] == (cs@[i].0, path_view(cs@[i].1@)));
                assert(ct[j] == (cs@[j].0, path_view(cs@[j].1@)));
            }
        },
        StoredPackage::WithoutComponents(t) => {
            assert(!exists|n: Seq<char>| #[trigger] is_component_at(m, p, n));
            assert(v =~= if is_source_path(p) {
                seq![(Component::Source, m[p].last().target)]
            } else {
                seq![(Component::Build, m[p].last().target), (Component::Run, m[p].last().target)]
            });
        },
    }
}

} // verus!
