use vstd::prelude::*;

verus! {

/// A path in the tag namespace, one string per segment.
pub type TagPathBuf = Vec<String>;

/// The segments of a path, as character sequences.
pub open spec fn path_view(p: Seq<String>) -> Seq<Seq<char>> {
    p.map_values(|s: String| s@)
}

/// The identifier of a stored blob.
#[derive(Clone, Copy, PartialEq, Eq, Structural, Debug, Hash)]
pub struct Digest {
    pub value: u64,
}

/// One entry of a tag stream.
#[derive(Clone, Copy, PartialEq, Eq, Structural, Debug)]
pub struct Tag {
    /// The blob or layer the tag points at.
    pub target: Digest,
    /// The target of the entry this one replaced, if any.
    pub parent: Option<Digest>,
    /// The store's logical time at which the entry was written.
    pub time: u64,
}

/// What a folder of the tag namespace holds under one name.
#[derive(Debug)]
pub enum EntryType {
    Folder(String),
    Tag(String),
}

/// The view of a listing entry: its name, and whether it is a tag.
pub open spec fn entry_view(e: EntryType) -> (Seq<char>, bool) {
    match e {
        EntryType::Folder(n) => (n@, false),
        EntryType::Tag(n) => (n@, true),
    }
}

/// Errors of the tag store.
#[derive(Debug)]
pub enum StoreError {
    /// No tag stream or blob under that reference.
    UnknownReference,
}

pub struct TagStream {
    pub path: TagPathBuf,
    pub tags: Vec<Tag>,
}

/// An in-memory content store with an append-only tag namespace.
pub struct TagStore {
    streams: Vec<TagStream>,
    blobs: Vec<String>,
    clock: u64,
    tags: Ghost<Map<Seq<Seq<char>>, Seq<Tag>>>,
}

/// The entries of a stream written at or before the logical time `ts`.
pub open spec fn tags_until(s: Seq<Tag>, ts: u64) -> Seq<Tag>
    decreases s.len(),
{
    if s.len() == 0 {
        s
    } else if s.last().time <= ts {
        tags_until(s.drop_last(), ts).push(s.last())
    } else {
        tags_until(s.drop_last(), ts)
    }
}

/// Whether `p` lies strictly below the folder `f`.
pub open spec fn below(p: Seq<Seq<char>>, f: Seq<Seq<char>>) -> bool {
    p.len() > f.len() && p.take(f.len() as int) == f
}

/// Whether the namespace `m` holds a tag at `p`.
pub open spec fn has_tag_at(m: Map<Seq<Seq<char>>, Seq<Tag>>, p: Seq<Seq<char>>) -> bool {
    m.contains_key(p)
}

/// Whether the namespace `m` holds some tag below the folder `f`.
pub open spec fn has_folder_at(m: Map<Seq<Seq<char>>, Seq<Tag>>, f: Seq<Seq<char>>) -> bool {
    exists|q: Seq<Seq<char>>| #[trigger] m.contains_key(q) && below(q, f)
}

/// Whether a listing holds an entry of the given name and kind.
pub open spec fn listed(r: Seq<EntryType>, name: Seq<char>, is_tag: bool) -> bool {
    exists|i: int| 0 <= i < r.len() && entry_view(#[trigger] r[i]) == (name, is_tag)
}

/// The entry under which the folder `f` lists the path `p`.
pub open spec fn entry_of(p: Seq<Seq<char>>, f: Seq<Seq<char>>) -> (Seq<char>, bool) {
    (p[f.len() as int], p.len() == f.len() + 1)
}

/// Whether the namespace `m` holds, under the folder `f`, an entry of the given name and kind.
pub open spec fn has_entry(
    m: Map<Seq<Seq<char>>, Seq<Tag>>,
    f: Seq<Seq<char>>,
    name: Seq<char>,
    is_tag: bool,
) -> bool {
    if is_tag {
        has_tag_at(m, f.push(name))
    } else {
        has_folder_at(m, f.push(name))
    }
}

/// An entry is listed under `f` exactly when some path below `f` gives it.
pub proof fn lemma_entry_of(
    m: Map<Seq<Seq<char>>, Seq<Tag>>,
    f: Seq<Seq<char>>,
    name: Seq<char>,
    is_tag: bool,
)
    ensures
        has_entry(m, f, name, is_tag) <==> exists|q: Seq<Seq<char>>|
            #[trigger] m.contains_key(q) && below(q, f) && entry_of(q, f) == (name, is_tag),
{
    let g = f.push(name);
    if is_tag {
        if m.contains_key(g) {
            assert(g.take(f.len() as int) =~= f);
            assert(below(g, f) && entry_of(g, f) == (name, is_tag));
        }
        if exists|q: Seq<Seq<char>>|
            #[trigger] m.contains_key(q) && below(q, f) && entry_of(q, f) == (name, is_tag) {
            let q = choose|q: Seq<Seq<char>>|
                #[trigger] m.contains_key(q) && below(q, f) && entry_of(q, f) == (name, is_tag);
            assert(q =~= g) by {
                assert forall|i: int| 0 <= i < q.len() implies q[i] == g[i] by {
                    if i < f.len() {
                        assert(q.take(f.len() as int)[i] == q[i]);
                    }
                }
            }
        }
    } else {
        if has_folder_at(m, g) {
            let q = choose|q: Seq<Seq<char>>| #[trigger] m.contains_key(q) && below(q, g);
            assert(q.take(f.len() as int) =~= g.take(f.len() as int));
            assert(g.take(f.len() as int) =~= f);
            assert(q[f.len() as int] == q.take(g.len() as int)[f.len() as int]);
            assert(below(q, f) && entry_of(q, f) == (name, is_tag));
        }
        if exists|q: Seq<Seq<char>>|
            #[trigger] m.contains_key(q) && below(q, f) && entry_of(q, f) == (name, is_tag) {
            let q = choose|q: Seq<Seq<char>>|
                #[trigger] m.contains_key(q) && below(q, f) && entry_of(q, f) == (name, is_tag);
            assert(q.take(g.len() as int) =~= g) by {
                assert forall|i: int| 0 <= i < g.len() implies q.take(g.len() as int)[i]
                    == g[i] by {
                    if i < f.len() {
                        assert(q.take(f.len() as int)[i] == q[i]);
                    }
                }
            }
            assert(below(q, g));
        }
    }
}

pub fn path_eq(a: &TagPathBuf, b: &TagPathBuf) -> (r: bool)
    ensures
        r == (path_view(a@) == path_view(b@)),
{
    if a.len() != b.len() {
        proof {
            assert(path_view(a@).len() != path_view(b@).len());
        }
        return false;
    }
    let mut i: usize = 0;
    while i < a.len()
        invariant
            a.len() == b.len(),
            i <= a.len(),
            forall|j: int| 0 <= j < i ==> a@[j]@ == b@[j]@,
        decreases a.len() - i,
    {
        if a[i] != b[i] {
            proof {
                assert(path_view(a@)[i as int] != path_view(b@)[i as int]);
            }
            return false;
        }
        i = i + 1;
    }
    proof {
        assert(path_view(a@) =~= path_view(b@));
    }
    true
}

/// Whether `p` lies strictly below the folder `f`.
pub fn path_below(p: &TagPathBuf, f: &TagPathBuf) -> (r: bool)
    ensures
        r == below(path_view(p@), path_view(f@)),
{
    if p.len() <= f.len() {
        return false;
    }
    let mut i: usize = 0;
    while i < f.len()
        invariant
            p.len() > f.len(),
            i <= f.len(),
            forall|j: int| 0 <= j < i ==> p@[j]@ == f@[j]@,
        decreases f.len() - i,
    {
        if p[i] != f[i] {
            proof {
                assert(path_view(p@).take(f.len() as int)[i as int] != path_view(f@)[i as int]);
            }
            return false;
        }
        i = i + 1;
    }
    proof {
        assert(path_view(p@).take(f.len() as int) =~= path_view(f@));
    }
    true
}

pub fn copy_path(p: &TagPathBuf) -> (r: TagPathBuf)
    ensures
        path_view(r@) == path_view(p@),
{
    let mut r: Vec<String> = Vec::new();
    let mut i: usize = 0;
    while i < p.len()
        invariant
            i <= p.len(),
            r@.len() == i,
            forall|j: int| 0 <= j < i ==> (#[trigger] r@[j])@ == p@[j]@,
        decreases p.len() - i,
    {
        let seg = p[i].clone();
        r.push(seg);
        i = i + 1;
    }
    proof {
        assert(path_view(r@) =~= path_view(p@));
    }
    r
}

/// Whether `r` already holds an entry of the given name and kind.
pub fn contains_entry(r: &Vec<EntryType>, name: &String, is_tag: bool) -> (b: bool)
    ensures
        b == listed(r@, name@, is_tag),
{
    let mut i: usize = 0;
    while i < r.len()
        invariant
            i <= r.len(),
            forall|j: int| 0 <= j < i ==> entry_view(#[trigger] r@[j]) != (name@, is_tag),
        decreases r.len() - i,
    {
        let hit = match &r[i] {
            EntryType::Folder(n) => !is_tag && *n == *name,
            EntryType::Tag(n) => is_tag && *n == *name,
        };
        if hit {
            return true;
        }
        i = i + 1;
    }
    false
}

impl TagStore {
    /// The tag streams, by path; the newest entry of each stream comes last.
    pub closed spec fn view_tags(&self) -> Map<Seq<Seq<char>>, Seq<Tag>> {
        self.tags@
    }

    /// The stored blobs: a digest's value is its position.
    pub closed spec fn view_blobs(&self) -> Seq<Seq<char>> {
        self.blobs@.map_values(|s: String| s@)
    }

    pub closed spec fn wf(&self) -> bool {
        &&& forall|i: int|
            0 <= i < self.streams.len() ==> self.tags@.contains_key(
                path_view(#[trigger] self.streams@[i].path@),
            ) && self.tags@[path_view(self.streams@[i].path@)] == self.streams@[i].tags@
        &&& forall|p: Seq<Seq<char>>|
            #[trigger] self.tags@.contains_key(p) ==> exists|i: int|
                0 <= i < self.streams.len() && path_view(#[trigger] self.streams@[i].path@) == p
        &&& forall|i: int, j: int|
            0 <= i < j < self.streams.len() ==> path_view(#[trigger] self.streams@[i].path@)
                != path_view(#[trigger] self.streams@[j].path@)
        &&& forall|p: Seq<Seq<char>>| #[trigger] self.tags@.contains_key(p) ==> self.tags@[p].len() > 0
    }

    /// An empty store.
    pub fn new() -> (r: TagStore)
        ensures
            r.wf(),
            r.view_tags() == Map::<Seq<Seq<char>>, Seq<Tag>>::empty(),
            r.view_blobs() == Seq::<Seq<char>>::empty(),
    {
        let r = TagStore {
            streams: Vec::new(),
            blobs: Vec::new(),
            clock: 0,
            tags: Ghost(Map::empty()),
        };
        proof {
            assert(r.blobs@.map_values(|s: String| s@) =~= Seq::<Seq<char>>::empty());
        }
        r
    }

    fn find(&self, path: &TagPathBuf) -> (r: Option<usize>)
        requires
            self.wf(),
        ensures
            r matches Some(i) ==> i < self.streams.len() && path_view(
                self.streams@[i as int].path@,
            ) == path_view(path@),
            r is None <==> !self.tags@.contains_key(path_view(path@)),
    {
        let mut i: usize = 0;
        while i < self.streams.len()
            invariant
                self.wf(),
                i <= self.streams.len(),
                forall|j: int|
                    0 <= j < i ==> path_view(#[trigger] self.streams@[j].path@) != path_view(
                        path@,
                    ),
            decreases self.streams.len() - i,
        {
            if path_eq(&self.streams[i].path, path) {
                return Some(i);
            }
            i = i + 1;
        }
        None
    }

    /// The newest entry of the stream at `path`.
    pub fn resolve_tag(&self, path: &TagPathBuf) -> (r: Result<Tag, StoreError>)
        requires
            self.wf(),
        ensures
            self.view_tags().contains_key(path_view(path@)) <==> r is Ok,
            r matches Ok(t) ==> t == self.view_tags()[path_view(path@)].last(),
    {
        match self.find(path) {
            Some(i) => {
                let tags = &self.streams[i].tags;
                Ok(tags[tags.len() - 1])
            },
            None => Err(StoreError::UnknownReference),
        }
    }

    /// Whether a tag stream exists at `path`.
    pub fn has_tag(&self, path: &TagPathBuf) -> (r: bool)
        requires
            self.wf(),
        ensures
            r == self.view_tags().contains_key(path_view(path@)),
    {
        self.find(path).is_some()
    }

    /// Appends `tag` to the stream at `path`, creating the stream if needed.
    pub fn insert_tag(&mut self, path: &TagPathBuf, tag: Tag)
        requires
            old(self).wf(),
        ensures
            final(self).wf(),
            final(self).view_blobs() == old(self).view_blobs(),
            final(self).view_tags() == old(self).view_tags().insert(
                path_view(path@),
                if old(self).view_tags().contains_key(path_view(path@)) {
                    old(self).view_tags()[path_view(path@)].push(tag)
                } else {
                    seq![tag]
                },
            ),
    {
        let ghost key = path_view(path@);
        match self.find(path) {
            Some(i) => {
                let mut stream = self.streams.remove(i);
                stream.tags.push(tag);
                self.streams.insert(i, stream);
                proof {
                    self.tags@ = self.tags@.insert(key, self.tags@[key].push(tag));
                    assert forall|p: Seq<Seq<char>>|
                        #[trigger] self.tags@.contains_key(p) implies exists|j: int|
                            0 <= j < self.streams.len() && path_view(
                                #[trigger] self.streams@[j].path@,
                            ) == p by {
                        let j = choose|j: int|
                            0 <= j < old(self).streams.len() && path_view(
                                #[trigger] old(self).streams@[j].path@,
                            ) == p;
                        assert(path_view(self.streams@[j].path@) == p);
                    }
                }
            },
            None => {
                let mut tags: Vec<Tag> = Vec::new();
                tags.push(tag);
                self.streams.push(TagStream { path: copy_path(path), tags });
                proof {
                    self.tags@ = self.tags@.insert(key, seq![tag]);
                    let n = self.streams.len() - 1;
                    assert(path_view(self.streams@[n].path@) == key);
                    assert forall|p: Seq<Seq<char>>|
                        #[trigger] self.tags@.contains_key(p) implies exists|j: int|
                            0 <= j < self.streams.len() && path_view(
                                #[trigger] self.streams@[j].path@,
                            ) == p by {
                        if p != key {
                            let j = choose|j: int|
                                0 <= j < old(self).streams.len() && path_view(
                                    #[trigger] old(self).streams@[j].path@,
                                ) == p;
                            assert(path_view(self.streams@[j].path@) == p);
                        } else {
                            assert(path_view(self.streams@[n].path@) == p);
                        }
                    }
                    assert forall|a: int, b: int|
                        0 <= a < b < self.streams.len() implies path_view(
                            #[trigger] self.streams@[a].path@,
                        ) != path_view(#[trigger] self.streams@[b].path@) by {
                        if b == n {
                            assert(old(self).tags@.contains_key(
                                path_view(old(self).streams@[a].path@),
                            ));
                        }
                    }
                }
            },
        }
    }

    /// Points the stream at `path` at `target`, stamped with the store's clock.
    pub fn push_tag(&mut self, path: &TagPathBuf, target: Digest) -> (r: Tag)
        requires
            old(self).wf(),
        ensures
            final(self).wf(),
            r.target == target,
            final(self).view_blobs() == old(self).view_blobs(),
            final(self).view_tags() == old(self).view_tags().insert(
                path_view(path@),
                if old(self).view_tags().contains_key(path_view(path@)) {
                    old(self).view_tags()[path_view(path@)].push(r)
                } else {
                    seq![r]
                },
            ),
    {
        let parent = match self.resolve_tag(path) {
            Ok(t) => Some(t.target),
            Err(_) => None,
        };
        let tag = Tag { target, parent, time: self.clock };
        let next = if self.clock < u64::MAX {
            self.clock + 1
        } else {
            self.clock
        };
        self.clock = next;
        proof {
            assert(self.streams == old(self).streams);
            assert(self.tags == old(self).tags);
        }
        self.insert_tag(path, tag);
        tag
    }

    /// Removes the whole stream at `path`.
    pub fn remove_tag_stream(&mut self, path: &TagPathBuf) -> (r: Result<(), StoreError>)
        requires
            old(self).wf(),
        ensures
            final(self).wf(),
            old(self).view_tags().contains_key(path_view(path@)) <==> r is Ok,
            final(self).view_tags() == old(self).view_tags().remove(path_view(path@)),
            final(self).view_blobs() == old(self).view_blobs(),
    {
        let ghost key = path_view(path@);
        match self.find(path) {
            Some(i) => {
                self.streams.remove(i);
                proof {
                    self.tags@ = self.tags@.remove(key);
                    assert forall|p: Seq<Seq<char>>|
                        #[trigger] self.tags@.contains_key(p) implies exists|j: int|
                            0 <= j < self.streams.len() && path_view(
                                #[trigger] self.streams@[j].path@,
                            ) == p by {
                        let j = choose|j: int|
                            0 <= j < old(self).streams.len() && path_view(
                                #[trigger] old(self).streams@[j].path@,
                            ) == p;
                        if j < i {
                            assert(path_view(self.streams@[j].path@) == p);
                        } else {
                            assert(path_view(self.streams@[j - 1].path@) == p);
                        }
                    }
                    assert forall|a: int|
                        0 <= a < self.streams.len() implies self.tags@.contains_key(
                            path_view(#[trigger] self.streams@[a].path@),
                        ) && self.tags@[path_view(self.streams@[a].path@)]
                            == self.streams@[a].tags@ by {
                        if a >= i {
                            assert(self.streams@[a] == old(self).streams@[a + 1]);
                        }
                    }
                    assert forall|a: int, b: int|
                        0 <= a < b < self.streams.len() implies path_view(
                            #[trigger] self.streams@[a].path@,
                        ) != path_view(#[trigger] self.streams@[b].path@) by {
                        let oa = if a < i {
                            a
                        } else {
                            a + 1
                        };
                        let ob = if b < i {
                            b
                        } else {
                            b + 1
                        };
                        assert(self.streams@[a] == old(self).streams@[oa]);
                        assert(self.streams@[b] == old(self).streams@[ob]);
                    }
                }
                Ok(())
            },
            None => {
                proof {
                    assert(self.tags@.remove(key) =~= self.tags@);
                }
                Err(StoreError::UnknownReference)
            },
        }
    }

    /// Lists the entries directly under the folder `folder`, each once.
    pub fn ls_tags(&self, folder: &TagPathBuf) -> (r: Vec<EntryType>)
        requires
            self.wf(),
        ensures
            forall|name: Seq<char>, is_tag: bool|
                #[trigger] listed(r@, name, is_tag) <==> has_entry(
                    self.view_tags(),
                    path_view(folder@),
                    name,
                    is_tag,
                ),
            forall|i: int, j: int|
                0 <= i < j < r.len() ==> entry_view(#[trigger] r@[i]) != entry_view(
                    #[trigger] r@[j],
                ),
    {
        let ghost f = path_view(folder@);
        let ghost m = self.tags@;
        let mut r: Vec<EntryType> = Vec::new();
        let mut i: usize = 0;
        while i < self.streams.len()
            invariant
                self.wf(),
                m == self.tags@,
                f == path_view(folder@),
                i <= self.streams.len(),
                forall|name: Seq<char>, is_tag: bool|
                    #[trigger] listed(r@, name, is_tag) <==> exists|j: int|
                        0 <= j < i && below(path_view(#[trigger] self.streams@[j].path@), f)
                            && entry_of(path_view(self.streams@[j].path@), f) == (name, is_tag),
                forall|a: int, b: int|
                    0 <= a < b < r.len() ==> entry_view(#[trigger] r@[a]) != entry_view(
                        #[trigger] r@[b],
                    ),
            decreases self.streams.len() - i,
        {
            let path = &self.streams[i].path;
            let ghost pv = path_view(path@);
            if path_below(path, folder) {
                let k = folder.len();
                let is_tag = path.len() == k + 1;
                let name = path[k].clone();
                proof {
                    assert(pv[k as int] == name@);
                }
                let ghost key = (name@, is_tag);
                if !contains_entry(&r, &name, is_tag) {
                    let ghost before = r@;
                    let e = if is_tag {
                        EntryType::Tag(name)
                    } else {
                        EntryType::Folder(name)
                    };
                    r.push(e);
                    proof {
                        assert forall|n: Seq<char>, t: bool|
                            #[trigger] listed(r@, n, t) <==> exists|j: int|
                                0 <= j < i + 1 && below(
                                    path_view(#[trigger] self.streams@[j].path@),
                                    f,
                                ) && entry_of(path_view(self.streams@[j].path@), f) == (n, t) by {
                            if listed(r@, n, t) {
                                let x = choose|x: int|
                                    0 <= x < r@.len() && entry_view(#[trigger] r@[x]) == (n, t);
                                if x < before.len() {
                                    assert(listed(before, n, t));
                                } else {
                                    assert(entry_of(path_view(self.streams@[i as int].path@), f)
                                        == (n, t));
                                }
                            }
                            if exists|j: int|
                                0 <= j < i + 1 && below(
                                    path_view(#[trigger] self.streams@[j].path@),
                                    f,
                                ) && entry_of(path_view(self.streams@[j].path@), f) == (n, t) {
                                let j = choose|j: int|
                                    0 <= j < i + 1 && below(
                                        path_view(#[trigger] self.streams@[j].path@),
                                        f,
                                    ) && entry_of(path_view(self.streams@[j].path@), f) == (n, t);
                                if j < i {
                                    assert(listed(before, n, t));
                                    let x = choose|x: int|
                                        0 <= x < before.len() && entry_view(#[trigger] before[x])
                                            == (n, t);
                                    assert(r@[x] == before[x]);
                                } else {
                                    assert(entry_view(r@[before.len() as int]) == (n, t));
                                }
                            }
                        }
                        assert forall|a: int, b: int|
                            0 <= a < b < r.len() implies entry_view(#[trigger] r@[a])
                                != entry_view(#[trigger] r@[b]) by {
                            if b == before.len() {
                                assert(r@[a] == before[a]);
                                if entry_view(r@[a]) == key {
                                    assert(listed(before, key.0, key.1));
                                }
                            }
                        }
                    }
                } else {
                    proof {
                        assert forall|n: Seq<char>, t: bool|
                            #[trigger] listed(r@, n, t) <==> exists|j: int|
                                0 <= j < i + 1 && below(
                                    path_view(#[trigger] self.streams@[j].path@),
                                    f,
                                ) && entry_of(path_view(self.streams@[j].path@), f) == (n, t) by {
                            if exists|j: int|
                                0 <= j < i + 1 && below(
                                    path_view(#[trigger] self.streams@[j].path@),
                                    f,
                                ) && entry_of(path_view(self.streams@[j].path@), f) == (n, t) {
                                let j = choose|j: int|
                                    0 <= j < i + 1 && below(
                                        path_view(#[trigger] self.streams@[j].path@),
                                        f,
                                    ) && entry_of(path_view(self.streams@[j].path@), f) == (n, t);
                                if j == i {
                                    assert(listed(r@, key.0, key.1));
                                }
                            }
                        }
                    }
                }
            } else {
                proof {
                    assert forall|n: Seq<char>, t: bool|
                        #[trigger] listed(r@, n, t) <==> exists|j: int|
                            0 <= j < i + 1 && below(path_view(#[trigger] self.streams@[j].path@), f)
                                && entry_of(path_view(self.streams@[j].path@), f) == (n, t) by {
                        if exists|j: int|
                            0 <= j < i + 1 && below(
                                path_view(#[trigger] self.streams@[j].path@),
                                f,
                            ) && entry_of(path_view(self.streams@[j].path@), f) == (n, t) {
                            let j = choose|j: int|
                                0 <= j < i + 1 && below(
                                    path_view(#[trigger] self.streams@[j].path@),
                                    f,
                                ) && entry_of(path_view(self.streams@[j].path@), f) == (n, t);
                            assert(j != i);
                        }
                    }
                }
            }
            i = i + 1;
        }
        proof {
            assert forall|name: Seq<char>, is_tag: bool|
                #[trigger] listed(r@, name, is_tag) <==> has_entry(m, f, name, is_tag) by {
                lemma_entry_of(m, f, name, is_tag);
                if listed(r@, name, is_tag) {
                    let j = choose|j: int|
                        0 <= j < self.streams.len() && below(
                            path_view(#[trigger] self.streams@[j].path@),
                            f,
                        ) && entry_of(path_view(self.streams@[j].path@), f) == (name, is_tag);
                    assert(m.contains_key(path_view(self.streams@[j].path@)));
                }
                if has_entry(m, f, name, is_tag) {
                    let q = choose|q: Seq<Seq<char>>|
                        #[trigger] m.contains_key(q) && below(q, f) && entry_of(q, f) == (
                            name,
                            is_tag,
                        );
                    let j = choose|j: int|
                        0 <= j < self.streams.len() && path_view(#[trigger] self.streams@[j].path@)
                            == q;
                    assert(below(path_view(self.streams@[j].path@), f));
                }
            }
        }
        r
    }

    /// Stores `payload` and returns its digest; the same payload always has the same digest.
    pub fn commit_blob(&mut self, payload: String) -> (r: Digest)
        requires
            old(self).wf(),
            old(self).view_blobs().len() < u64::MAX,
        ensures
            final(self).wf(),
            final(self).view_tags() == old(self).view_tags(),
            r.value < final(self).view_blobs().len(),
            final(self).view_blobs()[r.value as int] == payload@,
            old(self).view_blobs().is_prefix_of(final(self).view_blobs()),
            final(self).view_blobs() == old(self).view_blobs() || final(self).view_blobs()
                == old(self).view_blobs().push(payload@),
    {
        let mut i: usize = 0;
        while i < self.blobs.len()
            invariant
                i <= self.blobs.len(),
                self.wf(),
                self.streams == old(self).streams,
                self.tags == old(self).tags,
                self.blobs@ == old(self).blobs@,
            decreases self.blobs.len() - i,
        {
            if self.blobs[i] == payload {
                return Digest { value: i as u64 };
            }
            i = i + 1;
        }
        let n = self.blobs.len();
        self.blobs.push(payload);
        proof {
            assert(self.streams == old(self).streams);
            assert(self.tags == old(self).tags);
            assert(self.view_blobs() =~= old(self).view_blobs().push(payload@));
            assert(old(self).view_blobs().is_prefix_of(self.view_blobs())) by {
                assert(self.view_blobs().take(n as int) =~= old(self).view_blobs());
            }
        }
        Digest { value: n as u64 }
    }

    /// A read-only view of this store as it was at the logical time `ts`: each
    /// stream keeps the entries written by then, and streams left empty go.
    pub fn pinned_at(&self, ts: u64) -> (r: TagStore)
        requires
            self.wf(),
        ensures
            r.wf(),
            r.view_blobs() == self.view_blobs(),
            forall|p: Seq<Seq<char>>|
                #[trigger] r.view_tags().contains_key(p) <==> (self.view_tags().contains_key(p)
                    && tags_until(self.view_tags()[p], ts).len() > 0),
            forall|p: Seq<Seq<char>>|
                #[trigger] r.view_tags().contains_key(p) ==> r.view_tags()[p] == tags_until(
                    self.view_tags()[p],
                    ts,
                ),
    {
        let mut streams: Vec<TagStream> = Vec::new();
        let ghost mut kept: Map<Seq<Seq<char>>, Seq<Tag>> = Map::empty();
        let mut i: usize = 0;
        while i < self.streams.len()
            invariant
                self.wf(),
                i <= self.streams.len(),
                forall|k: int|
                    0 <= k < streams.len() ==> kept.contains_key(path_view(#[trigger] streams@[k].path@))
                        && kept[path_view(streams@[k].path@)] == streams@[k].tags@,
                forall|p: Seq<Seq<char>>|
                    #[trigger] kept.contains_key(p) ==> exists|k: int|
                        0 <= k < streams.len() && path_view(#[trigger] streams@[k].path@) == p,
                forall|a: int, b: int|
                    0 <= a < b < streams.len() ==> path_view(#[trigger] streams@[a].path@) != path_view(
                        #[trigger] streams@[b].path@,
                    ),
                forall|p: Seq<Seq<char>>| #[trigger] kept.contains_key(p) ==> kept[p].len() > 0,
                forall|p: Seq<Seq<char>>|
                    #[trigger] kept.contains_key(p) <==> (exists|j: int|
                        0 <= j < i && path_view(#[trigger] self.streams@[j].path@) == p)
                        && tags_until(self.tags@[p], ts).len() > 0,
                forall|p: Seq<Seq<char>>|
                    #[trigger] kept.contains_key(p) ==> kept[p] == tags_until(self.tags@[p], ts),
            decreases self.streams.len() - i,
        {
            let src = &self.streams[i];
            let ghost key = path_view(src.path@);
            let mut tags: Vec<Tag> = Vec::new();
            let mut j: usize = 0;
            while j < src.tags.len()
                invariant
                    j <= src.tags.len(),
                    tags@ == tags_until(src.tags@.take(j as int), ts),
                decreases src.tags.len() - j,
            {
                proof {
                    assert(src.tags@.take(j as int + 1).drop_last() =~= src.tags@.take(j as int));
                }
                if src.tags[j].time <= ts {
                    tags.push(src.tags[j]);
                }
                j = j + 1;
            }
            proof {
                assert(src.tags@.take(j as int) =~= src.tags@);
                assert(self.tags@[key] == src.tags@);
                assert forall|k: int| 0 <= k < i implies path_view(#[trigger] self.streams@[k].path@)
                    != key by {
                }
            }
            if tags.len() > 0 {
                let ghost before = streams@;
                streams.push(TagStream { path: copy_path(&src.path), tags });
                proof {
                    kept = kept.insert(key, tags@);
                    assert(path_view(streams@[before.len() as int].path@) == key);
                    assert forall|a: int, b: int|
                        0 <= a < b < streams.len() implies path_view(#[trigger] streams@[a].path@)
                            != path_view(#[trigger] streams@[b].path@) by {
                        if b == before.len() {
                            assert(streams@[a] == before[a]);
                            assert(kept.contains_key(path_view(before[a].path@)));
                        }
                    }
                    assert forall|p: Seq<Seq<char>>|
                        #[trigger] kept.contains_key(p) implies exists|k: int|
                            0 <= k < streams.len() && path_view(#[trigger] streams@[k].path@) == p by {
                        if p != key {
                            let k = choose|k: int|
                                0 <= k < before.len() && path_view(#[trigger] before[k].path@) == p;
                            assert(streams@[k] == before[k]);
                        } else {
                            assert(path_view(streams@[before.len() as int].path@) == p);
                        }
                    }
                    assert forall|k: int|
                        0 <= k < streams.len() implies kept.contains_key(path_view(#[trigger] streams@[k].path@))
                            && kept[path_view(streams@[k].path@)] == streams@[k].tags@ by {
                        if k < before.len() {
                            assert(streams@[k] == before[k]);
                        }
                    }
                }
            }
            proof {
                assert forall|p: Seq<Seq<char>>|
                    #[trigger] kept.contains_key(p) <==> (exists|j: int|
                        0 <= j < i + 1 && path_view(#[trigger] self.streams@[j].path@) == p)
                        && tags_until(self.tags@[p], ts).len() > 0 by {
                    if p == key {
                        assert(path_view(self.streams@[i as int].path@) == p);
                    }
                }
            }
            i = i + 1;
        }
        let mut blobs: Vec<String> = Vec::new();
        let mut b: usize = 0;
        while b < self.blobs.len()
            invariant
                b <= self.blobs.len(),
                blobs@.len() == b,
                forall|k: int| 0 <= k < b ==> (#[trigger] blobs@[k])@ == self.blobs@[k]@,
            decreases self.blobs.len() - b,
        {
            blobs.push(self.blobs[b].clone());
            b = b + 1;
        }
        let r = TagStore { streams, blobs, clock: self.clock, tags: Ghost(kept) };
        proof {
            assert(r.view_blobs() =~= self.view_blobs());
            assert forall|p: Seq<Seq<char>>|
                #[trigger] r.view_tags().contains_key(p) <==> (self.view_tags().contains_key(p)
                    && tags_until(self.view_tags()[p], ts).len() > 0) by {
                if self.view_tags().contains_key(p) {
                    let k = choose|k: int|
                        0 <= k < self.streams.len() && path_view(#[trigger] self.streams@[k].path@) == p;
                }
            }
        }
        r
    }

    /// The payload of the blob `digest`.
    pub fn open_payload(&self, digest: Digest) -> (r: Result<String, StoreError>)
        ensures
            r is Ok <==> digest.value < self.view_blobs().len(),
            r matches Ok(s) ==> s@ == self.view_blobs()[digest.value as int],
    {
        if digest.value < self.blobs.len() as u64 {
            Ok(self.blobs[digest.value as usize].clone())
        } else {
            Err(StoreError::UnknownReference)
        }
    }
}

} // verus!
