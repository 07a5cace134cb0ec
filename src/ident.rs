use vstd::prelude::*;
use vstd::string::*;

use crate::component::str_eq;
use crate::encoding::{base32_decode, base32_encode, base32_of_text, is_base32_char};
use crate::error::Error;
use crate::store::{path_view, TagPathBuf};
use crate::version::{encode_segment, encode_tag_segment, parse_version, parts_text, Version};

verus! {

/// Length of a build id.
pub const BUILD_ID_LEN: usize = 8;

/// Identifies one build of a version.
#[derive(Debug)]
pub enum Build {
    /// The source package.
    Source,
    /// A binary build, by its id.
    BuildId(String),
    /// A stub for a package embedded in another one, by the embedder's identifier.
    Embedded(String),
}

/// A build id: eight symbols of the base32 alphabet.
pub open spec fn is_build_id(s: Seq<char>) -> bool {
    s.len() == BUILD_ID_LEN && forall|i: int| 0 <= i < s.len() ==> is_base32_char(#[trigger] s[i])
}

/// The tag segment of an embed stub: `embedded[<base32 of the embedder>]`.
pub open spec fn embedded_text(t: Seq<char>) -> Seq<char> {
    "embedded["@ + base32_of_text(t) + "]"@
}

/// The text of a build, as it stands in a tag path.
pub open spec fn build_text(b: Build) -> Seq<char> {
    match b {
        Build::Source => "src"@,
        Build::BuildId(s) => s@,
        Build::Embedded(t) => embedded_text(t@),
    }
}

/// Whether a build is well formed.
pub open spec fn build_wf(b: Build) -> bool {
    match b {
        Build::Source => true,
        Build::BuildId(s) => is_build_id(s@),
        Build::Embedded(_) => true,
    }
}

/// Whether `s` starts with the prefix of embed-stub segments.
pub open spec fn has_embedded_prefix(s: Seq<char>) -> bool {
    s.len() >= 9 && s.take(9) == "embedded["@
}

/// The embedder that an embed-stub segment names, if it is one.
pub open spec fn embedded_of(s: Seq<char>) -> Option<Seq<char>> {
    if has_embedded_prefix(s) && s.len() >= 10 && s.last() == ']' && exists|t: Seq<char>|
        base32_of_text(t) == s.subrange(9, s.len() - 1) {
        Some(choose|t: Seq<char>| base32_of_text(t) == s.subrange(9, s.len() - 1))
    } else {
        None
    }
}

/// No character of `s` is a slash.
pub open spec fn slash_free(s: Seq<char>) -> bool {
    forall|i: int| 0 <= i < s.len() ==> #[trigger] s[i] != '/'
}

/// Whether `t` names the package that embeds another: `<name>/<version>/<build>`
/// with a valid name, a version and a build (`src` or a build id).
pub open spec fn is_embedder_text(t: Seq<char>) -> bool {
    exists|a: Seq<char>, v: Seq<char>, b: Seq<char>|
        #[trigger] embedder_parts(t, a, v, b)
}

/// `t` is `a/v/b`, with `a` a valid name, `v` a version text and `b` a build segment.
pub open spec fn embedder_parts(t: Seq<char>, a: Seq<char>, v: Seq<char>, b: Seq<char>) -> bool {
    &&& t == a + "/"@ + v + "/"@ + b
    &&& slash_free(a)
    &&& slash_free(v)
    &&& crate::name::is_valid_name(a)
    &&& crate::version::parse_parts(v) is Some
    &&& parse_build_spec(b) is Some
}

/// The first slash of `t` at or after `from`.
fn find_slash(t: &str, from: usize) -> (r: Option<usize>)
    requires
        from <= t@.len(),
    ensures
        r matches Some(i) ==> from <= i < t@.len() && t@[i as int] == '/' && forall|j: int|
            from <= j < i ==> t@[j] != '/',
        r is None ==> forall|j: int| from <= j < t@.len() ==> t@[j] != '/',
{
    let n = t.unicode_len();
    let mut i = from;
    while i < n
        invariant
            n == t@.len(),
            from <= i <= n,
            forall|j: int| from <= j < i ==> t@[j] != '/',
        decreases n - i,
    {
        if t.get_char(i) == '/' {
            return Some(i);
        }
        i = i + 1;
    }
    None
}

/// Whether `t` names an embedding package, `<name>/<version>/<build>`.
pub fn check_embedder(t: &str) -> (r: bool)
    ensures
        r == is_embedder_text(t@),
{
    proof {
        reveal_strlit("/");
    }
    let n = t.unicode_len();
    let i1 = match find_slash(t, 0) {
        Some(i) => i,
        None => {
            proof {
                if is_embedder_text(t@) {
                    let (a, v, b) = choose|a: Seq<char>, v: Seq<char>, b: Seq<char>| #[trigger] embedder_parts(t@, a, v, b);
                    assert(t@[a.len() as int] == '/');
                }
            }
            return false;
        },
    };
    let i2 = match find_slash(t, i1 + 1) {
        Some(i) => i,
        None => {
            proof {
                if is_embedder_text(t@) {
                    let (a, v, b) = choose|a: Seq<char>, v: Seq<char>, b: Seq<char>| #[trigger] embedder_parts(t@, a, v, b);
                    assert(t@[a.len() as int] == '/');
                    if i1 < a.len() {
                        assert(t@[i1 as int] == a[i1 as int]);
                    }
                    assert(t@[(a.len() + 1 + v.len()) as int] == '/');
                }
            }
            return false;
        },
    };
    let a = t.substring_char(0, i1);
    let v = t.substring_char(i1 + 1, i2);
    let b = t.substring_char(i2 + 1, n);
    let ok = validate_name_str(a) && parse_version(v).is_ok() && parse_build(b).is_ok();
    proof {
        assert(t@ =~= a@ + "/"@ + v@ + "/"@ + b@);
        assert(slash_free(a@));
        assert(slash_free(v@));
        if ok {
            assert(embedder_parts(t@, a@, v@, b@));
        }
        if is_embedder_text(t@) {
            let (a2, v2, b2) = choose|a2: Seq<char>, v2: Seq<char>, b2: Seq<char>| #[trigger] embedder_parts(t@, a2, v2, b2);
            assert(t@[a2.len() as int] == '/');
            if i1 < a2.len() {
                assert(t@[i1 as int] == a2[i1 as int]);
            }
            assert(i1 == a2.len());
            assert(t@[(a2.len() + 1 + v2.len()) as int] == '/');
            if i2 < a2.len() + 1 + v2.len() {
                assert(t@[i2 as int] == v2[i2 - a2.len() - 1]);
            }
            assert(i2 == a2.len() + 1 + v2.len());
            assert(a@ =~= a2);
            assert(v@ =~= v2);
            assert(b@ =~= b2);
        }
    }
    ok
}

fn validate_name_str(s: &str) -> (r: bool)
    ensures
        r == crate::name::is_valid_name(s@),
{
    crate::name::validate_name(s)
}

/// The build that a segment denotes, if any.
pub open spec fn parse_build_spec(s: Seq<char>) -> Option<Build> {
    if s == "src"@ {
        Some(Build::Source)
    } else if is_build_id(s) {
        Some(Build::BuildId(arbitrary()))
    } else {
        None
    }
}

/// A package name with a version.
#[derive(Debug)]
pub struct VersionIdent {
    pub name: String,
    pub version: Version,
}

/// A package name with a version and a build.
#[derive(Debug)]
pub struct BuildIdent {
    pub name: String,
    pub version: Version,
    pub build: Build,
}

/// A package name, with a version and a build where known.
#[derive(Debug)]
pub struct AnyIdent {
    pub name: String,
    pub version: Option<Version>,
    pub build: Option<Build>,
}

impl View for VersionIdent {
    type V = (Seq<char>, Seq<u32>);

    open spec fn view(&self) -> (Seq<char>, Seq<u32>) {
        (self.name@, self.version@)
    }
}

impl View for BuildIdent {
    type V = (Seq<char>, Seq<u32>, Seq<char>);

    open spec fn view(&self) -> (Seq<char>, Seq<u32>, Seq<char>) {
        (self.name@, self.version@, build_text(self.build))
    }
}

/// The view of a version identifier as an identifier of any kind.
pub open spec fn version_any(v: (Seq<char>, Seq<u32>)) -> (Seq<char>, Option<Seq<u32>>, Option<Seq<char>>) {
    (v.0, Some(v.1), None)
}

/// The view of a build identifier as an identifier of any kind.
pub open spec fn build_any(b: (Seq<char>, Seq<u32>, Seq<char>)) -> (Seq<char>, Option<Seq<u32>>, Option<Seq<char>>) {
    (b.0, Some(b.1), Some(b.2))
}

/// Whether `e` is `PackageNotFound` for the identifier whose view is `id`.
pub open spec fn not_found_for(e: crate::error::Error, id: (Seq<char>, Option<Seq<u32>>, Option<Seq<char>>)) -> bool {
    e matches crate::error::Error::PackageNotFound(i) && crate::error::any_view(i) == id
}

pub open spec fn spk_root(root: Seq<char>) -> Seq<Seq<char>> {
    seq!["spk"@, root]
}

/// The tag path of a version under a root (`spec` or `pkg`):
/// `spk/<root>/<name>/<version>`.
pub open spec fn version_path(root: Seq<char>, name: Seq<char>, version: Seq<u32>) -> Seq<
    Seq<char>,
> {
    spk_root(root).push(name).push(encode_segment(parts_text(version)))
}

/// The tag path of a build under a root: `spk/<root>/<name>/<version>/<build>`.
pub open spec fn build_path(root: Seq<char>, id: (Seq<char>, Seq<u32>, Seq<char>)) -> Seq<
    Seq<char>,
> {
    version_path(root, id.0, id.1).push(id.2)
}

pub open spec fn spec_root() -> Seq<char> {
    "spec"@
}

pub open spec fn pkg_root() -> Seq<char> {
    "pkg"@
}

impl Build {
    pub fn duplicate(&self) -> (r: Build)
        ensures
            build_text(r) == build_text(*self),
            r == *self,
    {
        match self {
            Build::Source => Build::Source,
            Build::BuildId(s) => Build::BuildId(s.clone()),
            Build::Embedded(s) => Build::Embedded(s.clone()),
        }
    }

    pub fn is_source(&self) -> (r: bool)
        ensures
            r == (*self is Source),
    {
        matches!(self, Build::Source)
    }

    pub fn is_embedded(&self) -> (r: bool)
        ensures
            r == (*self is Embedded),
    {
        matches!(self, Build::Embedded(_))
    }

    /// The text of this build, as it stands in a tag path.
    pub fn to_text(&self) -> (r: String)
        ensures
            r@ == build_text(*self),
    {
        match self {
            Build::Source => {
                proof {
                    reveal_strlit("src");
                }
                String::from_str("src")
            },
            Build::BuildId(s) => s.clone(),
            Build::Embedded(t) => embedded_key(t.as_str()),
        }
    }
}

/// The tag segment of the embed stub whose embedder is `t`.
pub fn embedded_key(t: &str) -> (r: String)
    ensures
        r@ == embedded_text(t@),
{
    let mut s = String::from_str("embedded[");
    let code = base32_encode(t);
    s.append(code.as_str());
    s.append("]");
    s
}

/// Whether `s` is a build id.
pub fn check_build_id(s: &str) -> (r: bool)
    ensures
        r == is_build_id(s@),
{
    let n = s.unicode_len();
    if n != BUILD_ID_LEN {
        return false;
    }
    let mut i: usize = 0;
    while i < n
        invariant
            n == s@.len(),
            i <= n,
            forall|j: int| 0 <= j < i ==> is_base32_char(#[trigger] s@[j]),
        decreases n - i,
    {
        let c = s.get_char(i);
        if !(('A' <= c && c <= 'Z') || ('2' <= c && c <= '7')) {
            return false;
        }
        i = i + 1;
    }
    true
}

/// Whether `s` starts with `embedded[`.
pub fn starts_with_embedded(s: &str) -> (r: bool)
    ensures
        r == has_embedded_prefix(s@),
{
    let n = s.unicode_len();
    if n < 9 {
        return false;
    }
    str_eq(s.substring_char(0, 9), "embedded[")
}

/// The embedder named by an embed-stub segment `embedded[<base32>]`.
pub fn parse_embedded_key(s: &str) -> (r: Option<String>)
    ensures
        r matches Some(t) ==> embedded_of(s@) == Some(t@) && embedded_text(t@) == s@,
        r is None <==> embedded_of(s@) is None,
{
    proof {
        reveal_strlit("embedded[");
        reveal_strlit("]");
    }
    let n = s.unicode_len();
    if n < 10 || !starts_with_embedded(s) || s.get_char(n - 1) != ']' {
        return None;
    }
    let inner = s.substring_char(9, n - 1);
    let r = base32_decode(inner);
    proof {
        let e = s@.subrange(9, s@.len() - 1);
        if r is Some {
            let t = r->Some_0;
            assert(base32_of_text(t@) == e);
            let c = choose|u: Seq<char>| base32_of_text(u) == e;
            assert(base32_of_text(c) == e);
            assert(c == t@);
            assert(embedded_text(t@) =~= s@) by {
                assert(s@ =~= s@.take(9) + e + seq![s@.last()]);
            }
        }
    }
    r
}

/// Parse the build segment of a tag path: `src` or a build id.
pub fn parse_build(s: &str) -> (r: Result<Build, Error>)
    ensures
        r is Ok <==> parse_build_spec(s@) is Some,
        r matches Ok(b) ==> build_text(b) == s@ && build_wf(b) && !(b is Embedded),
{
    proof {
        reveal_strlit("src");
    }
    if str_eq(s, "src") {
        Ok(Build::Source)
    } else if check_build_id(s) {
        Ok(Build::BuildId(String::from_str(s)))
    } else {
        Err(Error::InvalidBuild(String::from_str(s)))
    }
}

/// Appends `spk/<root>` as the first two segments of a path.
pub fn root_path(root: &str) -> (r: TagPathBuf)
    ensures
        path_view(r@) == spk_root(root@),
{
    let mut p: Vec<String> = Vec::new();
    proof {
        reveal_strlit("spk");
    }
    p.push(String::from_str("spk"));
    p.push(String::from_str(root));
    proof {
        assert(path_view(p@) =~= spk_root(root@));
    }
    p
}

/// `spk/<root>/<name>/<version>`.
pub fn version_tag(root: &str, name: &String, version: &Version) -> (r: TagPathBuf)
    ensures
        path_view(r@) == version_path(root@, name@, version@),
{
    let mut p = root_path(root);
    let ghost base = p@;
    let n = name.clone();
    p.push(n);
    let text = version.to_text();
    let seg = encode_tag_segment(text.as_str());
    p.push(seg);
    proof {
        assert(p@ == base.push(n).push(seg));
        assert(path_view(base).len() == 2);
        assert(path_view(base)[0] == base[0]@);
        assert(path_view(base)[1] == base[1]@);
        assert(path_view(p@) =~= version_path(root@, name@, version@));
    }
    p
}

/// `spk/<root>/<name>/<version>/<build>`.
pub fn build_tag(root: &str, id: &BuildIdent) -> (r: TagPathBuf)
    ensures
        path_view(r@) == build_path(root@, id@),
{
    let mut p = version_tag(root, &id.name, &id.version);
    let ghost base = p@;
    let b = id.build.to_text();
    p.push(b);
    proof {
        assert(p@ == base.push(b));
        assert(path_view(p@) =~= path_view(base).push(build_text(id.build)));
    }
    p
}

/// The tag path of a component of a build: `spk/pkg/<name>/<version>/<build>/<component>`.
pub fn component_tag(id: &BuildIdent, component: &str) -> (r: TagPathBuf)
    ensures
        path_view(r@) == build_path(pkg_root(), id@).push(component@),
{
    proof {
        reveal_strlit("pkg");
    }
    let mut p = build_tag("pkg", id);
    let ghost base = p@;
    let c = String::from_str(component);
    p.push(c);
    proof {
        assert(p@ == base.push(c));
        assert(path_view(p@) =~= path_view(base).push(component@));
    }
    p
}

impl VersionIdent {
    pub fn new(name: String, version: Version) -> (r: VersionIdent)
        ensures
            r.name == name,
            r.version == version,
    {
        VersionIdent { name, version }
    }

    pub fn duplicate(&self) -> (r: VersionIdent)
        ensures
            r@ == self@,
    {
        VersionIdent { name: self.name.clone(), version: self.version.duplicate() }
    }

    /// The build `build` of this version.
    pub fn to_build(&self, build: Build) -> (r: BuildIdent)
        ensures
            r.name@ == self.name@,
            r.version@ == self.version@,
            r.build == build,
    {
        BuildIdent { name: self.name.clone(), version: self.version.duplicate(), build }
    }

    pub fn to_any(&self) -> (r: AnyIdent)
        ensures
            r.name@ == self.name@,
            r.version matches Some(v) && v@ == self.version@,
            r.build is None,
            crate::error::any_view(r) == version_any(self@),
    {
        AnyIdent { name: self.name.clone(), version: Some(self.version.duplicate()), build: None }
    }
}

/// The text of a build identifier: `<name>/<version>/<build>`.
pub open spec fn build_ident_text(id: (Seq<char>, Seq<u32>, Seq<char>)) -> Seq<char> {
    id.0 + "/"@ + parts_text(id.1) + "/"@ + id.2
}

impl BuildIdent {
    /// The text of this identifier: `<name>/<version>/<build>`.
    pub fn to_text(&self) -> (r: String)
        ensures
            r@ == build_ident_text(self@),
    {
        proof {
            reveal_strlit("/");
        }
        let mut s = self.name.clone();
        s.append("/");
        crate::version::push_parts_text(&mut s, &self.version.parts);
        s.append("/");
        let b = self.build.to_text();
        s.append(b.as_str());
        s
    }

    pub fn new(name: String, version: Version, build: Build) -> (r: BuildIdent)
        ensures
            r.name == name,
            r.version == version,
            r.build == build,
    {
        BuildIdent { name, version, build }
    }

    pub fn duplicate(&self) -> (r: BuildIdent)
        ensures
            r@ == self@,
            r.build == self.build,
    {
        BuildIdent {
            name: self.name.clone(),
            version: self.version.duplicate(),
            build: self.build.duplicate(),
        }
    }

    pub fn to_version(&self) -> (r: VersionIdent)
        ensures
            r@ == (self@.0, self@.1),
    {
        VersionIdent { name: self.name.clone(), version: self.version.duplicate() }
    }

    pub fn to_any(&self) -> (r: AnyIdent)
        ensures
            r.name@ == self.name@,
            r.version matches Some(v) && v@ == self.version@,
            r.build == Some(self.build),
            crate::error::any_view(r) == build_any(self@),
    {
        AnyIdent {
            name: self.name.clone(),
            version: Some(self.version.duplicate()),
            build: Some(self.build.duplicate()),
        }
    }
}

} // verus!
