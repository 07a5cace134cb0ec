use vstd::prelude::*;
use vstd::string::*;

use crate::component::{parsed_as, str_eq, Component};
use crate::name::is_valid_name;
use crate::store::{copy_path, path_view, Tag, TagPathBuf};

verus! {

/// How a package is stored: one legacy tag, or one tag per component.
#[derive(Debug)]
pub enum StoredPackage {
    WithoutComponents(TagPathBuf),
    WithComponents(Vec<(Component, TagPathBuf)>),
}

/// The names of valid components tagged under the folder `p`.
pub open spec fn is_component_at(m: Map<Seq<Seq<char>>, Seq<Tag>>, p: Seq<Seq<char>>, n: Seq<char>) -> bool {
    m.contains_key(p.push(n)) && is_valid_name(n)
}

/// Whether `cs` holds one entry for each component tagged under `p`, and nothing else.
pub open spec fn components_ok(
    m: Map<Seq<Seq<char>>, Seq<Tag>>,
    p: Seq<Seq<char>>,
    cs: Seq<(Component, TagPathBuf)>,
) -> bool {
    &&& forall|i: int|
        0 <= i < cs.len() ==> is_component_at(m, p, (#[trigger] cs[i]).0.text()) && parsed_as(
            cs[i].0,
            cs[i].0.text(),
        ) && path_view(cs[i].1@) == p.push(cs[i].0.text())
    &&& forall|n: Seq<char>|
        #[trigger] is_component_at(m, p, n) ==> exists|i: int|
            0 <= i < cs.len() && (#[trigger] cs[i]).0.text() == n
    &&& forall|i: int, j: int| 0 <= i < j < cs.len() ==> (#[trigger] cs[i]).0.text() != (#[trigger] cs[j]).0.text()
}

/// Whether `s` is how the namespace `m` stores the package whose tag path is `p`.
pub open spec fn stored_ok(m: Map<Seq<Seq<char>>, Seq<Tag>>, p: Seq<Seq<char>>, s: StoredPackage) -> bool {
    match s {
        StoredPackage::WithComponents(cs) => cs.len() > 0 && components_ok(m, p, cs@),
        StoredPackage::WithoutComponents(t) => {
            &&& path_view(t@) == p
            &&& m.contains_key(p)
            &&& forall|n: Seq<char>| !#[trigger] is_component_at(m, p, n)
        },
    }
}

/// Whether the namespace `m` holds the package whose tag path is `p`, in either form.
pub open spec fn is_stored(m: Map<Seq<Seq<char>>, Seq<Tag>>, p: Seq<Seq<char>>) -> bool {
    m.contains_key(p) || exists|n: Seq<char>| #[trigger] is_component_at(m, p, n)
}

/// Whether a legacy tag path is that of a source package.
pub open spec fn is_source_path(t: Seq<Seq<char>>) -> bool {
    t.len() > 0 && t.last() == "src"@
}

/// The components of a stored package, with the tag of each: a legacy source
/// package is its `src` component; any other legacy package serves as both its
/// `build` and its `run` component.
pub open spec fn component_tags(s: StoredPackage) -> Seq<(Component, Seq<Seq<char>>)> {
    match s {
        StoredPackage::WithComponents(cs) => cs@.map_values(
            |c: (Component, TagPathBuf)| (c.0, path_view(c.1@)),
        ),
        StoredPackage::WithoutComponents(t) => if is_source_path(path_view(t@)) {
            seq![(Component::Source, path_view(t@))]
        } else {
            seq![(Component::Build, path_view(t@)), (Component::Run, path_view(t@))]
        },
    }
}

/// The components of a stored package.
pub open spec fn stored_components(s: StoredPackage) -> Seq<Component> {
    component_tags(s).map_values(|c: (Component, Seq<Seq<char>>)| c.0)
}

/// The tags that make up a stored package.
pub open spec fn stored_tags(s: StoredPackage) -> Seq<Seq<Seq<char>>> {
    match s {
        StoredPackage::WithComponents(cs) => cs@.map_values(
            |c: (Component, TagPathBuf)| path_view(c.1@),
        ),
        StoredPackage::WithoutComponents(t) => seq![path_view(t@)],
    }
}

impl StoredPackage {
    /// Whether this package uses one tag per component.
    pub fn has_components(&self) -> (r: bool)
        ensures
            r == (*self is WithComponents),
    {
        matches!(self, StoredPackage::WithComponents(_))
    }

    /// All the tags of this package.
    pub fn tags(&self) -> (r: Vec<TagPathBuf>)
        ensures
            r@.map_values(|t: TagPathBuf| path_view(t@)) == stored_tags(*self),
    {
        let mut r: Vec<TagPathBuf> = Vec::new();
        match self {
            StoredPackage::WithoutComponents(t) => {
                r.push(copy_path(t));
            },
            StoredPackage::WithComponents(cs) => {
                let mut i: usize = 0;
                while i < cs.len()
                    invariant
                        i <= cs.len(),
                        r@.len() == i,
                        forall|j: int| 0 <= j < i ==> path_view((#[trigger] r@[j])@) == path_view(cs@[j].1@),
                    decreases cs.len() - i,
                {
                    r.push(copy_path(&cs[i].1));
                    i = i + 1;
                }
            },
        }
        proof {
            assert(r@.map_values(|t: TagPathBuf| path_view(t@)) =~= stored_tags(*self));
        }
        r
    }

    /// The component tags of this package, converted from the legacy form where needed.
    pub fn into_components(self) -> (r: Vec<(Component, TagPathBuf)>)
        ensures
            r@.map_values(|c: (Component, TagPathBuf)| (c.0, path_view(c.1@))) == component_tags(self),
    {
        match self {
            StoredPackage::WithComponents(cs) => {
                proof {
                    assert(cs@.map_values(|c: (Component, TagPathBuf)| (c.0, path_view(c.1@)))
                        =~= component_tags(self));
                }
                cs
            },
            StoredPackage::WithoutComponents(t) => {
                let n = t.len();
                proof {
                    reveal_strlit("src");
                }
                let src = n > 0 && str_eq(t[n - 1].as_str(), "src");
                let mut r: Vec<(Component, TagPathBuf)> = Vec::new();
                if src {
                    r.push((Component::Source, t));
                } else {
                    let t2 = copy_path(&t);
                    r.push((Component::Build, t2));
                    r.push((Component::Run, t));
                }
                proof {
                    assert(r@.map_values(|c: (Component, TagPathBuf)| (c.0, path_view(c.1@)))
                        =~= component_tags(self));
                }
                r
            },
        }
    }
}

} // verus!
