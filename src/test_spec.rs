use vstd::prelude::*;
use vstd::string::*;

verus! {

/// The stage of a package's life that a test runs in.
#[derive(Clone, Copy, PartialEq, Eq, Structural, Debug)]
pub enum TestStage {
    Sources,
    Build,
    Install,
}

/// A test of a package: the stage it runs in, its script (one string per
/// line), the option selectors it applies to and the extra requests it needs.
#[derive(Debug)]
pub struct TestSpec {
    pub stage: TestStage,
    pub script: Vec<String>,
    pub selectors: Vec<String>,
    pub requirements: Vec<String>,
}

/// The lines joined by newlines.
pub open spec fn joined_lines(lines: Seq<Seq<char>>) -> Seq<char>
    decreases lines.len(),
{
    if lines.len() == 0 {
        Seq::empty()
    } else if lines.len() == 1 {
        lines[0]
    } else {
        joined_lines(lines.drop_last()) + "\n"@ + lines.last()
    }
}

pub open spec fn lines_view(lines: Seq<String>) -> Seq<Seq<char>> {
    lines.map_values(|s: String| s@)
}

impl TestSpec {
    /// The script as one text, its lines joined by newlines.
    pub fn script(&self) -> (r: String)
        ensures
            r@ == joined_lines(lines_view(self.script@)),
    {
        proof {
            reveal_strlit("\n");
        }
        let mut s = String::new();
        let mut i: usize = 0;
        while i < self.script.len()
            invariant
                i <= self.script.len(),
                s@ == joined_lines(lines_view(self.script@.take(i as int))),
            decreases self.script.len() - i,
        {
            proof {
                assert(lines_view(self.script@.take(i as int + 1)).drop_last() =~= lines_view(
                    self.script@.take(i as int),
                ));
            }
            if i > 0 {
                s.append("\n");
            }
            s.append(self.script[i].as_str());
            proof {
                if i == 0 {
                    assert(lines_view(self.script@.take(0)) =~= Seq::<Seq<char>>::empty());
                }
                assert(s@ =~= joined_lines(lines_view(self.script@.take(i as int + 1))));
            }
            i = i + 1;
        }
        proof {
            assert(self.script@.take(i as int) =~= self.script@);
        }
        s
    }

    /// The extra requests this test needs.
    pub fn additional_requirements(&self) -> (r: Vec<String>)
        ensures
            lines_view(r@) == lines_view(self.requirements@),
    {
        let mut r: Vec<String> = Vec::new();
        let mut i: usize = 0;
        while i < self.requirements.len()
            invariant
                i <= self.requirements.len(),
                r@.len() == i,
                forall|j: int| 0 <= j < i ==> (#[trigger] r@[j])@ == self.requirements@[j]@,
            decreases self.requirements.len() - i,
        {
            r.push(self.requirements[i].clone());
            i = i + 1;
        }
        proof {
            assert(lines_view(r@) =~= lines_view(self.requirements@));
        }
        r
    }
}

} // verus!
