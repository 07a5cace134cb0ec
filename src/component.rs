use vstd::prelude::*;
use vstd::string::*;

use crate::error::Error;
use crate::name::{is_valid_name, validate_name};

verus! {

/// Identifies a component by name.
#[derive(Debug)]
pub enum Component {
    All,
    Build,
    Run,
    Source,
    Named(String),
}

/// The name that `Component::parse` gives to a reserved word, if it is one.
pub open spec fn reserved_component(s: Seq<char>) -> Option<Component> {
    if s == "all"@ {
        Some(Component::All)
    } else if s == "run"@ {
        Some(Component::Run)
    } else if s == "build"@ {
        Some(Component::Build)
    } else if s == "src"@ {
        Some(Component::Source)
    } else {
        None
    }
}

/// Whether `c` is what `Component::parse` gives for the valid name `n`.
pub open spec fn parsed_as(c: Component, n: Seq<char>) -> bool {
    &&& c.text() == n
    &&& match reserved_component(n) {
        Some(k) => c == k,
        None => c is Named,
    }
}

impl Component {
    /// The text form of this component.
    pub open spec fn text(self) -> Seq<char> {
        match self {
            Component::All => "all"@,
            Component::Run => "run"@,
            Component::Build => "build"@,
            Component::Source => "src"@,
            Component::Named(s) => s@,
        }
    }

    /// Return the default build component.
    pub fn default_for_build() -> (r: Self)
        ensures
            r == Component::Build,
    {
        Component::Build
    }

    /// Return the default run component.
    pub fn default_for_run() -> (r: Self)
        ensures
            r == Component::Run,
    {
        Component::Run
    }

    /// Parse a component name, ensuring that it obeys the package-name syntax.
    pub fn parse(source: &str) -> (r: Result<Self, Error>)
        ensures
            is_valid_name(source@) <==> r is Ok,
            r matches Ok(c) ==> parsed_as(c, source@),
    {
        if !validate_name(source) {
            return Err(Error::InvalidName(String::from_str(source)));
        }
        proof {
            reveal_strlit("all");
            reveal_strlit("run");
            reveal_strlit("build");
            reveal_strlit("src");
        }
        if str_eq(source, "all") {
            Ok(Component::All)
        } else if str_eq(source, "run") {
            Ok(Component::Run)
        } else if str_eq(source, "build") {
            Ok(Component::Build)
        } else if str_eq(source, "src") {
            Ok(Component::Source)
        } else {
            Ok(Component::Named(String::from_str(source)))
        }
    }

    pub fn as_str(&self) -> (r: &str)
        ensures
            r@ == self.text(),
    {
        match self {
            Component::All => "all",
            Component::Run => "run",
            Component::Build => "build",
            Component::Source => "src",
            Component::Named(value) => value.as_str(),
        }
    }

    pub fn is_all(&self) -> (r: bool)
        ensures
            r == (*self is All),
    {
        matches!(self, Component::All)
    }

    pub fn is_run(&self) -> (r: bool)
        ensures
            r == (*self is Run),
    {
        matches!(self, Component::Run)
    }

    pub fn is_build(&self) -> (r: bool)
        ensures
            r == (*self is Build),
    {
        matches!(self, Component::Build)
    }

    pub fn is_source(&self) -> (r: bool)
        ensures
            r == (*self is Source),
    {
        matches!(self, Component::Source)
    }

    pub fn is_named(&self) -> (r: bool)
        ensures
            r == (*self is Named),
    {
        matches!(self, Component::Named(_))
    }
}

/// The names of `cs` joined by commas.
pub open spec fn joined_texts(cs: Seq<Component>) -> Seq<char>
    decreases cs.len(),
{
    if cs.len() == 0 {
        Seq::empty()
    } else if cs.len() == 1 {
        cs[0].text()
    } else {
        joined_texts(cs.drop_last()) + ","@ + cs.last().text()
    }
}

/// The text of a set of components: empty for none, `:name` for one,
/// `:{a,b}` for several.
pub open spec fn component_set_text(cs: Seq<Component>) -> Seq<char> {
    if cs.len() == 0 {
        Seq::empty()
    } else if cs.len() == 1 {
        ":"@ + cs[0].text()
    } else {
        ":{"@ + joined_texts(cs) + "}"@
    }
}

/// The position of a component's kind in the order of components.
pub open spec fn rank(c: Component) -> nat {
    match c {
        Component::All => 0,
        Component::Build => 1,
        Component::Run => 2,
        Component::Source => 3,
        Component::Named(_) => 4,
    }
}

/// Lexicographic order on texts, a proper prefix coming first.
pub open spec fn text_lt(a: Seq<char>, b: Seq<char>) -> bool
    decreases a.len(),
{
    if b.len() == 0 {
        false
    } else if a.len() == 0 {
        true
    } else if a[0] != b[0] {
        a[0] < b[0]
    } else {
        text_lt(a.drop_first(), b.drop_first())
    }
}

/// The order of components: `all`, `build`, `run`, `src`, then named ones by name.
pub open spec fn comp_lt(a: Component, b: Component) -> bool {
    rank(a) < rank(b) || (rank(a) == rank(b) && text_lt(a.text(), b.text()))
}

/// Two values denote the same component.
pub open spec fn same_comp(a: Component, b: Component) -> bool {
    rank(a) == rank(b) && a.text() == b.text()
}

/// Whether `w` lists components in strictly increasing order.
pub open spec fn strictly_ordered(w: Seq<Component>) -> bool {
    forall|i: int, j: int| 0 <= i < j < w.len() ==> comp_lt(#[trigger] w[i], #[trigger] w[j])
}

/// Whether some member of `w` is the same component as `c`.
pub open spec fn has_comp(w: Seq<Component>, c: Component) -> bool {
    exists|i: int| 0 <= i < w.len() && same_comp(#[trigger] w[i], c)
}

proof fn lemma_text_total(a: Seq<char>, b: Seq<char>)
    ensures
        text_lt(a, b) || a == b || text_lt(b, a),
        !(text_lt(a, b) && text_lt(b, a)),
        !text_lt(a, a),
    decreases a.len(),
{
    if a.len() > 0 && b.len() > 0 && a[0] == b[0] {
        lemma_text_total(a.drop_first(), b.drop_first());
        if a.drop_first() == b.drop_first() {
            assert(a =~= seq![a[0]] + a.drop_first());
            assert(b =~= seq![b[0]] + b.drop_first());
        }
    } else if a.len() == 0 && b.len() == 0 {
        assert(a =~= b);
    }
    if a.len() > 0 {
        lemma_text_total(a.drop_first(), a.drop_first());
    }
}

proof fn lemma_text_transitive(a: Seq<char>, b: Seq<char>, c: Seq<char>)
    requires
        text_lt(a, b),
        text_lt(b, c),
    ensures
        text_lt(a, c),
    decreases a.len(),
{
    if a.len() > 0 && a[0] == b[0] && b[0] == c[0] {
        lemma_text_transitive(a.drop_first(), b.drop_first(), c.drop_first());
    }
}

/// The order of components is a strict total order up to `same_comp`.
pub proof fn lemma_comp_order(a: Component, b: Component, c: Component)
    ensures
        !comp_lt(a, a),
        comp_lt(a, b) || same_comp(a, b) || comp_lt(b, a),
        !(comp_lt(a, b) && comp_lt(b, a)),
        comp_lt(a, b) ==> !same_comp(a, b),
        comp_lt(a, b) && comp_lt(b, c) ==> comp_lt(a, c),
{
    lemma_text_total(a.text(), b.text());
    lemma_text_total(a.text(), a.text());
    if comp_lt(a, b) && comp_lt(b, c) && rank(a) == rank(b) && rank(b) == rank(c) {
        lemma_text_transitive(a.text(), b.text(), c.text());
    }
}

/// Whether `t` renders the set of the components of `s`: its members once each,
/// in the order of components.
pub open spec fn renders_set(s: Seq<Component>, t: Seq<char>) -> bool {
    exists|w: Seq<Component>|
        #[trigger] strictly_ordered(w) && (forall|c: Component| has_comp(w, c) == has_comp(s, c))
            && t == component_set_text(w)
}

fn text_less(a: &str, b: &str) -> (r: bool)
    ensures
        r == text_lt(a@, b@),
{
    let n = a.unicode_len();
    let m = b.unicode_len();
    let mut i: usize = 0;
    proof {
        assert(a@.skip(0) =~= a@);
        assert(b@.skip(0) =~= b@);
    }
    while i < n && i < m
        invariant
            n == a@.len(),
            m == b@.len(),
            i <= n,
            i <= m,
            text_lt(a@, b@) == text_lt(a@.skip(i as int), b@.skip(i as int)),
        decreases n - i,
    {
        let x = a.get_char(i);
        let y = b.get_char(i);
        if x != y {
            proof {
                assert(a@.skip(i as int)[0] == x);
                assert(b@.skip(i as int)[0] == y);
            }
            return x < y;
        }
        proof {
            assert(a@.skip(i as int).drop_first() =~= a@.skip(i as int + 1));
            assert(b@.skip(i as int).drop_first() =~= b@.skip(i as int + 1));
        }
        i = i + 1;
    }
    proof {
        if i == n {
            assert(a@.skip(i as int).len() == 0);
        } else {
            assert(b@.skip(i as int).len() == 0);
        }
    }
    i < m
}

impl Component {
    fn rank_of(&self) -> (r: u8)
        ensures
            r as nat == rank(*self),
    {
        match self {
            Component::All => 0,
            Component::Build => 1,
            Component::Run => 2,
            Component::Source => 3,
            Component::Named(_) => 4,
        }
    }

    fn less(&self, o: &Component) -> (r: bool)
        ensures
            r == comp_lt(*self, *o),
    {
        let a = self.rank_of();
        let b = o.rank_of();
        if a != b {
            return a < b;
        }
        text_less(self.as_str(), o.as_str())
    }

    fn same_as(&self, o: &Component) -> (r: bool)
        ensures
            r == same_comp(*self, *o),
    {
        self.rank_of() == o.rank_of() && str_eq(self.as_str(), o.as_str())
    }
}

/// Inserts `c` at its place in a strictly ordered list, unless the list has it already.
fn insert_component(w: &mut Vec<Component>, c: Component)
    requires
        strictly_ordered(old(w)@),
    ensures
        strictly_ordered(final(w)@),
        forall|x: Component| #[trigger] has_comp(final(w)@, x) == (same_comp(c, x) || has_comp(old(w)@, x)),
{
    let ghost w0 = w@;
    let mut k: usize = 0;
    while k < w.len() && w[k].less(&c)
        invariant
            k <= w.len(),
            w@ == w0,
            forall|j: int| 0 <= j < k ==> comp_lt(w@[j], c),
        decreases w.len() - k,
    {
        k = k + 1;
    }
    if k < w.len() && w[k].same_as(&c) {
        proof {
            assert forall|x: Component| #[trigger] has_comp(w@, x) == (same_comp(c, x) || has_comp(w0, x)) by {
                if same_comp(c, x) {
                    assert(same_comp(w@[k as int], x));
                }
            }
        }
        return;
    }
    let ghost cv = c;
    w.insert(k, c);
    proof {
        assert forall|i: int, j: int| 0 <= i < j < w@.len() implies comp_lt(#[trigger] w@[i], #[trigger] w@[j]) by {
            if j < k {
                assert(w@[i] == w0[i] && w@[j] == w0[j]);
            } else if j == k {
                assert(w@[i] == w0[i]);
            } else if i == k {
                assert(w@[j] == w0[j - 1]);
                lemma_comp_order(cv, w0[k as int], w0[j - 1]);
                if j - 1 > k {
                    lemma_comp_order(w0[k as int], w0[j - 1], cv);
                }
            } else if i < k {
                assert(w@[i] == w0[i] && w@[j] == w0[j - 1]);
            } else {
                assert(w@[i] == w0[i - 1] && w@[j] == w0[j - 1]);
            }
        }
        assert forall|x: Component| #[trigger] has_comp(w@, x) == (same_comp(cv, x) || has_comp(w0, x)) by {
            if has_comp(w0, x) {
                let i = choose|i: int| 0 <= i < w0.len() && same_comp(#[trigger] w0[i], x);
                if i < k {
                    assert(w@[i] == w0[i]);
                } else {
                    assert(w@[i + 1] == w0[i]);
                }
            }
            if has_comp(w@, x) {
                let i = choose|i: int| 0 <= i < w@.len() && same_comp(#[trigger] w@[i], x);
                if i < k {
                    assert(w@[i] == w0[i]);
                } else if i > k {
                    assert(w@[i] == w0[i - 1]);
                }
            }
            assert(w@[k as int] == cv);
        }
    }
}

/// Formatting of a set of components.
pub trait Components {
    spec fn renders(&self, t: Seq<char>) -> bool;

    /// Render the set: an empty set is an empty string, a set with a single
    /// entry is `:name`, a set with several is `:{name1,name2}`, in the order
    /// of components and each once.
    fn fmt_component_set(&self) -> (r: String)
        ensures
            self.renders(r@),
    ;
}

/// The set is given by its members; repeats count once.
impl Components for Vec<Component> {
    open spec fn renders(&self, t: Seq<char>) -> bool {
        renders_set(self@, t)
    }

    fn fmt_component_set(&self) -> (r: String) {
        let mut w: Vec<Component> = Vec::new();
        let mut i: usize = 0;
        while i < self.len()
            invariant
                i <= self.len(),
                strictly_ordered(w@),
                forall|x: Component| #[trigger] has_comp(w@, x) == has_comp(self@.take(i as int), x),
            decreases self.len() - i,
        {
            let ghost before = w@;
            insert_component(&mut w, self[i].duplicate());
            proof {
                assert forall|x: Component| #[trigger] has_comp(w@, x) == has_comp(self@.take(i as int + 1), x) by {
                    let t0 = self@.take(i as int);
                    let t1 = self@.take(i as int + 1);
                    assert(t1 =~= t0.push(self@[i as int]));
                    if has_comp(t0, x) {
                        let j = choose|j: int| 0 <= j < t0.len() && same_comp(#[trigger] t0[j], x);
                        assert(t1[j] == t0[j]);
                    }
                    if has_comp(t1, x) {
                        let j = choose|j: int| 0 <= j < t1.len() && same_comp(#[trigger] t1[j], x);
                        if j < i {
                            assert(t0[j] == t1[j]);
                        }
                    }
                    if same_comp(self@[i as int], x) {
                        assert(t1[i as int] == self@[i as int]);
                    }
                }
            }
            i = i + 1;
        }
        proof {
            assert(self@.take(i as int) =~= self@);
        }
        let r = render_components(&w);
        proof {
            assert(strictly_ordered(w@) && (forall|c: Component| has_comp(w@, c) == has_comp(self@, c))
                && r@ == component_set_text(w@));
        }
        r
    }
}

/// The text of the components of `w`, in the order given.
fn render_components(w: &Vec<Component>) -> (r: String)
    ensures
        r@ == component_set_text(w@),
{
    proof {
        reveal_strlit(":");
        reveal_strlit(":{");
        reveal_strlit("}");
        reveal_strlit(",");
    }
    let mut s = String::new();
    if w.len() == 0 {
        return s;
    }
    if w.len() == 1 {
        s.append(":");
        s.append(w[0].as_str());
        return s;
    }
    s.append(":{");
    let mut i: usize = 0;
    while i < w.len()
        invariant
            w.len() >= 2,
            i <= w.len(),
            s@ == ":{"@ + joined_texts(w@.take(i as int)),
        decreases w.len() - i,
    {
        proof {
            assert(w@.take(i as int + 1).drop_last() =~= w@.take(i as int));
        }
        if i > 0 {
            s.append(",");
        }
        s.append(w[i].as_str());
        proof {
            if i == 0 {
                assert(joined_texts(w@.take(0)) =~= Seq::<char>::empty());
                assert(s@ =~= ":{"@ + joined_texts(w@.take(1)));
            } else {
                assert(s@ =~= ":{"@ + joined_texts(w@.take(i as int + 1)));
            }
        }
        i = i + 1;
    }
    s.append("}");
    proof {
        assert(w@.take(i as int) =~= w@);
    }
    s
}

/// Character-wise equality of two strings.
pub fn str_eq(a: &str, b: &str) -> (r: bool)
    ensures
        r == (a@ == b@),
{
    let n = a.unicode_len();
    if n != b.unicode_len() {
        return false;
    }
    let mut i: usize = 0;
    while i < n
        invariant
            n == a@.len(),
            n == b@.len(),
            i <= n,
            forall|j: int| 0 <= j < i ==> a@[j] == b@[j],
        decreases n - i,
    {
        if a.get_char(i) != b.get_char(i) {
            return false;
        }
        i = i + 1;
    }
    proof {
        assert(a@ =~= b@);
    }
    true
}

} // verus!
