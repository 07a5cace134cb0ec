use vstd::prelude::*;

verus! {

/// Shortest name a package or component may have.
pub const NAME_MIN_LEN: usize = 2;

/// Longest name a package or component may have.
pub const NAME_MAX_LEN: usize = 64;

/// A character allowed in a package name: a lowercase ASCII letter, a digit or a dash.
pub open spec fn is_name_char(c: char) -> bool {
    ('a' <= c && c <= 'z') || ('0' <= c && c <= '9') || c == '-'
}

/// The package-name syntax, shared by component names.
pub open spec fn is_valid_name(s: Seq<char>) -> bool {
    &&& NAME_MIN_LEN <= s.len() <= NAME_MAX_LEN
    &&& forall|i: int| 0 <= i < s.len() ==> is_name_char(#[trigger] s[i])
}

pub fn name_char(c: char) -> (r: bool)
    ensures
        r == is_name_char(c),
{
    ('a' <= c && c <= 'z') || ('0' <= c && c <= '9') || c == '-'
}

/// Whether `s` obeys the package-name syntax.
pub fn validate_name(s: &str) -> (r: bool)
    ensures
        r == is_valid_name(s@),
{
    let n = s.unicode_len();
    if n < NAME_MIN_LEN || n > NAME_MAX_LEN {
        return false;
    }
    let mut i: usize = 0;
    while i < n
        invariant
            n == s@.len(),
            i <= n,
            forall|j: int| 0 <= j < i ==> is_name_char(#[trigger] s@[j]),
        decreases n - i,
    {
        if !name_char(s.get_char(i)) {
            return false;
        }
        i = i + 1;
    }
    true
}

} // verus!
