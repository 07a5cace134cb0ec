use vstd::prelude::*;
use vstd::string::*;

use crate::error::Error;

verus! {

/// Largest value of one numeric part of a version.
pub const PART_MAX: u32 = 0xffff_ffff;

/// A package version: an ordered tuple of numeric parts.
///
/// Trailing zeros carry no meaning: `1.0` and `1.0.0` denote the same version.
#[derive(Debug)]
pub struct Version {
    pub parts: Vec<u32>,
}

impl View for Version {
    type V = Seq<u32>;

    open spec fn view(&self) -> Seq<u32> {
        self.parts@
    }
}

// ---------------------------------------------------------------------------
// Normalisation and order

/// The parts without their trailing zeros.
pub open spec fn normalized(p: Seq<u32>) -> Seq<u32>
    decreases p.len(),
{
    if p.len() == 0 {
        p
    } else if p.last() == 0 {
        normalized(p.drop_last())
    } else {
        p
    }
}

/// Two part lists denote the same version.
pub open spec fn same_version(a: Seq<u32>, b: Seq<u32>) -> bool {
    normalized(a) == normalized(b)
}

/// Lexicographic order on part lists, a proper prefix coming first.
pub open spec fn lex_lt(a: Seq<u32>, b: Seq<u32>) -> bool
    decreases a.len(),
{
    if b.len() == 0 {
        false
    } else if a.len() == 0 {
        true
    } else if a[0] != b[0] {
        a[0] < b[0]
    } else {
        lex_lt(a.drop_first(), b.drop_first())
    }
}

/// `a` denotes a smaller version than `b`.
pub open spec fn version_lt(a: Seq<u32>, b: Seq<u32>) -> bool {
    lex_lt(normalized(a), normalized(b))
}

/// `n` parts: those of `p`, padded with zeros or cut.
pub open spec fn padded(p: Seq<u32>, n: nat) -> Seq<u32> {
    Seq::new(n, |i: int| if i < p.len() { p[i] } else { 0u32 })
}

pub proof fn lemma_normalized_prefix(p: Seq<u32>)
    ensures
        normalized(p).len() <= p.len(),
        normalized(p) == p.take(normalized(p).len() as int),
        normalized(p).len() > 0 ==> normalized(p).last() != 0,
        forall|i: int| normalized(p).len() <= i < p.len() ==> p[i] == 0,
    decreases p.len(),
{
    if p.len() > 0 && p.last() == 0 {
        lemma_normalized_prefix(p.drop_last());
        assert(p.drop_last().take(normalized(p).len() as int) =~= p.take(
            normalized(p).len() as int,
        ));
        assert forall|i: int| normalized(p).len() <= i < p.len() implies p[i] == 0 by {
            if i < p.len() - 1 {
                assert(p.drop_last()[i] == p[i]);
            }
        }
    } else {
        assert(p.take(p.len() as int) =~= p);
    }
}

pub proof fn lemma_normalized_idempotent(p: Seq<u32>)
    ensures
        normalized(normalized(p)) == normalized(p),
    decreases p.len(),
{
    if p.len() > 0 && p.last() == 0 {
        lemma_normalized_idempotent(p.drop_last());
    }
}

/// Padding with zeros keeps the version.
pub proof fn lemma_padded_same(p: Seq<u32>, n: nat)
    requires
        normalized(p).len() <= n,
    ensures
        same_version(padded(p, n), p),
        padded(normalized(p), n) == padded(p, n),
    decreases n,
{
    lemma_normalized_prefix(p);
    let k = normalized(p).len();
    assert(padded(normalized(p), n) =~= padded(p, n));
    assert(padded(p, n).take(k as int) =~= normalized(p));
    lemma_normalized_of_zero_tail(padded(p, n), normalized(p));
}

/// A list that is `q` (whose last part is not zero) followed by zeros normalizes to `q`.
pub proof fn lemma_normalized_of_zero_tail(p: Seq<u32>, q: Seq<u32>)
    requires
        q.len() <= p.len(),
        q == p.take(q.len() as int),
        q.len() > 0 ==> q.last() != 0,
        forall|i: int| q.len() <= i < p.len() ==> p[i] == 0,
    ensures
        normalized(p) == q,
    decreases p.len(),
{
    if p.len() == q.len() {
        assert(p =~= q);
    } else {
        assert(p.drop_last().take(q.len() as int) =~= q);
        lemma_normalized_of_zero_tail(p.drop_last(), q);
    }
}

pub proof fn lemma_lex_irreflexive(a: Seq<u32>)
    ensures
        !lex_lt(a, a),
    decreases a.len(),
{
    if a.len() > 0 {
        lemma_lex_irreflexive(a.drop_first());
    }
}

pub proof fn lemma_lex_total(a: Seq<u32>, b: Seq<u32>)
    ensures
        lex_lt(a, b) || a == b || lex_lt(b, a),
    decreases a.len(),
{
    if a.len() > 0 && b.len() > 0 && a[0] == b[0] {
        lemma_lex_total(a.drop_first(), b.drop_first());
        if a.drop_first() == b.drop_first() {
            assert(a =~= seq![a[0]] + a.drop_first());
            assert(b =~= seq![b[0]] + b.drop_first());
        }
    } else if a.len() == 0 && b.len() == 0 {
        assert(a =~= b);
    }
}

pub proof fn lemma_lex_asymmetric(a: Seq<u32>, b: Seq<u32>)
    ensures
        !(lex_lt(a, b) && lex_lt(b, a)),
    decreases a.len(),
{
    if a.len() > 0 && b.len() > 0 && a[0] == b[0] {
        lemma_lex_asymmetric(a.drop_first(), b.drop_first());
    }
}

pub proof fn lemma_lex_transitive(a: Seq<u32>, b: Seq<u32>, c: Seq<u32>)
    requires
        lex_lt(a, b),
        lex_lt(b, c),
    ensures
        lex_lt(a, c),
    decreases a.len(),
{
    if a.len() > 0 && a[0] == b[0] && b[0] == c[0] {
        lemma_lex_transitive(a.drop_first(), b.drop_first(), c.drop_first());
    }
}

/// Version order is a strict total order up to trailing zeros.
pub proof fn lemma_version_order(a: Seq<u32>, b: Seq<u32>, c: Seq<u32>)
    ensures
        !version_lt(a, a),
        version_lt(a, b) || same_version(a, b) || version_lt(b, a),
        !(version_lt(a, b) && version_lt(b, a)),
        version_lt(a, b) ==> !same_version(a, b),
        version_lt(a, b) && version_lt(b, c) ==> version_lt(a, c),
        version_lt(a, b) && same_version(b, c) ==> version_lt(a, c),
{
    lemma_lex_irreflexive(normalized(a));
    lemma_lex_total(normalized(a), normalized(b));
    lemma_lex_asymmetric(normalized(a), normalized(b));
    if version_lt(a, b) && version_lt(b, c) {
        lemma_lex_transitive(normalized(a), normalized(b), normalized(c));
    }
}

// ---------------------------------------------------------------------------
// Text

pub open spec fn is_digit(c: char) -> bool {
    '0' <= c && c <= '9'
}

pub open spec fn digit_value(c: char) -> nat {
    (c as nat - '0' as nat) as nat
}

/// What a parser holds after reading `s`: the finished parts, the value of the
/// current part and how many digits it has; `None` once the text is invalid.
pub open spec fn scan(s: Seq<char>) -> Option<(Seq<u32>, nat, nat)>
    decreases s.len(),
{
    if s.len() == 0 {
        Some((Seq::empty(), 0, 0))
    } else {
        match scan(s.drop_last()) {
            None => None,
            Some((ps, cur, len)) => {
                let c = s.last();
                if c == '.' {
                    if len == 0 {
                        None
                    } else {
                        Some((ps.push(cur as u32), 0, 0))
                    }
                } else if is_digit(c) {
                    let v = cur * 10 + digit_value(c);
                    if v > PART_MAX {
                        None
                    } else {
                        Some((ps, v, len + 1))
                    }
                } else {
                    None
                }
            },
        }
    }
}

/// The parts that a version text denotes: dot-separated decimal numbers,
/// each with at least one digit and at most `PART_MAX`.
pub open spec fn parse_parts(s: Seq<char>) -> Option<Seq<u32>> {
    match scan(s) {
        Some((ps, cur, len)) => if len > 0 {
            Some(ps.push(cur as u32))
        } else {
            None
        },
        None => None,
    }
}

/// Decimal digits of `n`, without leading zeros.
pub open spec fn decimal(n: nat) -> Seq<char>
    decreases n,
{
    if n < 10 {
        seq![digit_char(n)]
    } else {
        decimal(n / 10).push(digit_char(n % 10))
    }
}

pub open spec fn digit_char(d: nat) -> char {
    if d == 0 {
        '0'
    } else if d == 1 {
        '1'
    } else if d == 2 {
        '2'
    } else if d == 3 {
        '3'
    } else if d == 4 {
        '4'
    } else if d == 5 {
        '5'
    } else if d == 6 {
        '6'
    } else if d == 7 {
        '7'
    } else if d == 8 {
        '8'
    } else {
        '9'
    }
}

/// The text of a part list: decimals joined by dots.
pub open spec fn parts_text(p: Seq<u32>) -> Seq<char>
    decreases p.len(),
{
    if p.len() == 0 {
        Seq::empty()
    } else if p.len() == 1 {
        decimal(p[0] as nat)
    } else {
        parts_text(p.drop_last()) + seq!['.'] + decimal(p.last() as nat)
    }
}

fn digit_str(d: u64) -> (r: &'static str)
    requires
        d < 10,
    ensures
        r@ == seq![digit_char(d as nat)],
{
    proof {
        reveal_strlit("0");
        reveal_strlit("1");
        reveal_strlit("2");
        reveal_strlit("3");
        reveal_strlit("4");
        reveal_strlit("5");
        reveal_strlit("6");
        reveal_strlit("7");
        reveal_strlit("8");
        reveal_strlit("9");
    }
    if d == 0 {
        "0"
    } else if d == 1 {
        "1"
    } else if d == 2 {
        "2"
    } else if d == 3 {
        "3"
    } else if d == 4 {
        "4"
    } else if d == 5 {
        "5"
    } else if d == 6 {
        "6"
    } else if d == 7 {
        "7"
    } else if d == 8 {
        "8"
    } else {
        "9"
    }
}

/// Appends the decimal digits of `n`.
pub fn push_decimal(s: &mut String, n: u64)
    ensures
        final(s)@ == old(s)@ + decimal(n as nat),
    decreases n,
{
    if n >= 10 {
        push_decimal(s, n / 10);
    }
    s.append(digit_str(n % 10));
    proof {
        assert(old(s)@ + decimal(n as nat) =~= old(s)@ + decimal((n / 10) as nat) + seq![
            digit_char((n % 10) as nat),
        ] || n < 10);
    }
}

/// Appends the text of the parts `p`.
pub fn push_parts_text(s: &mut String, p: &Vec<u32>)
    ensures
        final(s)@ == old(s)@ + parts_text(p@),
{
    let mut i: usize = 0;
    while i < p.len()
        invariant
            i <= p.len(),
            s@ == old(s)@ + parts_text(p@.take(i as int)),
        decreases p.len() - i,
    {
        proof {
            assert(p@.take(i as int + 1).drop_last() =~= p@.take(i as int));
        }
        if i > 0 {
            s.append(".");
            proof {
                reveal_strlit(".");
            }
        }
        push_decimal(s, p[i] as u64);
        proof {
            let t = p@.take(i as int + 1);
            if i == 0 {
                assert(parts_text(p@.take(0)) =~= Seq::<char>::empty());
            }
            assert(s@ =~= old(s)@ + parts_text(t));
        }
        i = i + 1;
    }
    proof {
        assert(p@.take(p.len() as int) =~= p@);
    }
}

impl Version {
    /// A version with the given parts.
    pub fn new(parts: Vec<u32>) -> (r: Version)
        ensures
            r@ == parts@,
    {
        Version { parts }
    }

    /// A copy of this version.
    pub fn duplicate(&self) -> (r: Version)
        ensures
            r@ == self@,
    {
        let mut parts: Vec<u32> = Vec::new();
        let mut i: usize = 0;
        while i < self.parts.len()
            invariant
                i <= self.parts.len(),
                parts@ == self.parts@.take(i as int),
            decreases self.parts.len() - i,
        {
            parts.push(self.parts[i]);
            i = i + 1;
            proof {
                assert(parts@ =~= self.parts@.take(i as int));
            }
        }
        proof {
            assert(self.parts@.take(i as int) =~= self.parts@);
        }
        Version { parts }
    }

    /// The text form, such as `1.2.0`.
    pub fn to_text(&self) -> (r: String)
        ensures
            r@ == parts_text(self@),
    {
        let mut s = String::new();
        push_parts_text(&mut s, &self.parts);
        proof {
            assert(s@ =~= parts_text(self@));
        }
        s
    }

    /// The number of parts left after removing trailing zeros.
    pub fn normalized_len(&self) -> (r: usize)
        ensures
            r == normalized(self@).len(),
    {
        let mut n = self.parts.len();
        proof {
            assert(self@.take(n as int) =~= self@);
        }
        while n > 0 && self.parts[n - 1] == 0
            invariant
                n <= self.parts.len(),
                normalized(self@) == normalized(self@.take(n as int)),
            decreases n,
        {
            proof {
                assert(self@.take(n as int).drop_last() =~= self@.take(n as int - 1));
            }
            n = n - 1;
        }
        proof {
            assert(self@.take(self.parts.len() as int) =~= self@);
            if n > 0 {
                assert(normalized(self@.take(n as int)) == self@.take(n as int));
            } else {
                assert(normalized(self@.take(0)) =~= self@.take(0));
            }
        }
        n
    }

    /// This version's parts without trailing zeros, padded with zeros to `n`.
    pub fn with_len(&self, n: usize) -> (r: Version)
        ensures
            r@ == padded(self@, n as nat),
    {
        let mut parts: Vec<u32> = Vec::new();
        let mut i: usize = 0;
        while i < n
            invariant
                i <= n,
                parts@ == padded(self@, i as nat),
            decreases n - i,
        {
            if i < self.parts.len() {
                parts.push(self.parts[i]);
            } else {
                parts.push(0);
            }
            i = i + 1;
            proof {
                assert(parts@ =~= padded(self@, i as nat));
            }
        }
        Version { parts }
    }

    /// Whether two versions are the same up to trailing zeros.
    pub fn same_as(&self, other: &Version) -> (r: bool)
        ensures
            r == same_version(self@, other@),
    {
        let n = self.normalized_len();
        let m = other.normalized_len();
        proof {
            lemma_normalized_prefix(self@);
            lemma_normalized_prefix(other@);
        }
        if n != m {
            return false;
        }
        let mut i: usize = 0;
        while i < n
            invariant
                i <= n,
                n == normalized(self@).len(),
                n == normalized(other@).len(),
                n <= self.parts.len(),
                n <= other.parts.len(),
                normalized(self@) == self@.take(n as int),
                normalized(other@) == other@.take(n as int),
                forall|j: int| 0 <= j < i ==> self@[j] == other@[j],
            decreases n - i,
        {
            if self.parts[i] != other.parts[i] {
                assert(normalized(self@)[i as int] != normalized(other@)[i as int]);
                return false;
            }
            i = i + 1;
        }
        proof {
            assert(normalized(self@) =~= normalized(other@));
        }
        true
    }

    /// Whether this version is smaller than `other`.
    pub fn less_than(&self, other: &Version) -> (r: bool)
        ensures
            r == version_lt(self@, other@),
    {
        let n = self.normalized_len();
        let m = other.normalized_len();
        proof {
            lemma_normalized_prefix(self@);
            lemma_normalized_prefix(other@);
        }
        let ghost a = normalized(self@);
        let ghost b = normalized(other@);
        let mut i: usize = 0;
        proof {
            assert(a.skip(0) =~= a);
            assert(b.skip(0) =~= b);
        }
        while i < n && i < m
            invariant
                i <= n,
                i <= m,
                a == normalized(self@),
                b == normalized(other@),
                n == a.len(),
                m == b.len(),
                n <= self.parts.len(),
                m <= other.parts.len(),
                a == self@.take(n as int),
                b == other@.take(m as int),
                lex_lt(a, b) == lex_lt(a.skip(i as int), b.skip(i as int)),
            decreases n - i,
        {
            if self.parts[i] != other.parts[i] {
                proof {
                    assert(a.skip(i as int)[0] == self@[i as int]);
                    assert(b.skip(i as int)[0] == other@[i as int]);
                    assert(lex_lt(a.skip(i as int), b.skip(i as int)) == (self@[i as int]
                        < other@[i as int]));
                }
                return self.parts[i] < other.parts[i];
            }
            proof {
                assert(a.skip(i as int).drop_first() =~= a.skip(i as int + 1));
                assert(b.skip(i as int).drop_first() =~= b.skip(i as int + 1));
            }
            i = i + 1;
        }
        proof {
            if i == n {
                assert(a.skip(i as int).len() == 0);
            } else {
                assert(b.skip(i as int).len() == 0);
            }
        }
        i < m
    }
}

/// Parse a version text such as `1.2.0`.
pub fn parse_version(s: &str) -> (r: Result<Version, Error>)
    ensures
        r matches Ok(v) ==> parse_parts(s@) == Some(v@),
        r is Err <==> parse_parts(s@) is None,
{
    let n = s.unicode_len();
    let mut parts: Vec<u32> = Vec::new();
    let mut cur: u32 = 0;
    let mut len: usize = 0;
    let mut i: usize = 0;
    while i < n
        invariant
            n == s@.len(),
            i <= n,
            len <= i,
            scan(s@.take(i as int)) == Some((parts@, cur as nat, len as nat)),
        decreases n - i,
    {
        let c = s.get_char(i);
        proof {
            assert(s@.take(i as int + 1).drop_last() =~= s@.take(i as int));
        }
        if c == '.' {
            if len == 0 {
                proof {
                    lemma_scan_none_extends(s@, i as int + 1);
                }
                return Err(Error::InvalidVersion(String::from_str(s)));
            }
            parts.push(cur);
            cur = 0;
            len = 0;
        } else if '0' <= c && c <= '9' {
            let d = (c as u32) - ('0' as u32);
            if cur > 429496729 || (cur == 429496729 && d > 5) {
                proof {
                    lemma_scan_none_extends(s@, i as int + 1);
                }
                return Err(Error::InvalidVersion(String::from_str(s)));
            }
            cur = cur * 10 + d;
            len = len + 1;
        } else {
            proof {
                lemma_scan_none_extends(s@, i as int + 1);
            }
            return Err(Error::InvalidVersion(String::from_str(s)));
        }
        i = i + 1;
    }
    proof {
        assert(s@.take(n as int) =~= s@);
    }
    if len == 0 {
        return Err(Error::InvalidVersion(String::from_str(s)));
    }
    parts.push(cur);
    Ok(Version { parts })
}

proof fn lemma_digit_char(d: nat)
    requires
        d < 10,
    ensures
        is_digit(digit_char(d)),
        digit_value(digit_char(d)) == d,
{
}

/// Reading the decimal digits of `n` after a finished part gives `n`.
proof fn lemma_scan_decimal(pre: Seq<char>, ps: Seq<u32>, n: nat)
    requires
        scan(pre) == Some((ps, 0nat, 0nat)),
        n <= PART_MAX,
    ensures
        scan(pre + decimal(n)) == Some((ps, n, decimal(n).len())),
        decimal(n).len() > 0,
    decreases n,
{
    if n < 10 {
        lemma_digit_char(n);
        assert((pre + decimal(n)).drop_last() =~= pre);
    } else {
        lemma_scan_decimal(pre, ps, n / 10);
        lemma_digit_char(n % 10);
        assert((pre + decimal(n)).drop_last() =~= pre + decimal(n / 10));
        assert((n / 10) * 10 + n % 10 == n) by (nonlinear_arith);
    }
}

/// Reading the text of a non-empty part list stops inside its last part.
proof fn lemma_scan_parts(p: Seq<u32>)
    requires
        p.len() > 0,
    ensures
        scan(parts_text(p)) == Some((p.drop_last(), p.last() as nat, decimal(p.last() as nat).len())),
    decreases p.len(),
{
    if p.len() == 1 {
        assert(scan(Seq::<char>::empty()) == Some((Seq::<u32>::empty(), 0nat, 0nat)));
        lemma_scan_decimal(Seq::empty(), Seq::empty(), p[0] as nat);
        assert(Seq::<char>::empty() + decimal(p[0] as nat) =~= decimal(p[0] as nat));
        assert(p.drop_last() =~= Seq::<u32>::empty());
    } else {
        let q = p.drop_last();
        lemma_scan_parts(q);
        let pre = parts_text(q) + seq!['.'];
        assert(pre.drop_last() =~= parts_text(q));
        assert(q.drop_last().push(q.last()) =~= q);
        lemma_scan_decimal(pre, q, p.last() as nat);
        assert(pre + decimal(p.last() as nat) =~= parts_text(p));
    }
}

proof fn lemma_decimal_digits(n: nat)
    ensures
        decimal(n).len() > 0,
        forall|i: int| 0 <= i < decimal(n).len() ==> is_digit(#[trigger] decimal(n)[i]),
    decreases n,
{
    if n < 10 {
        lemma_digit_char(n);
    } else {
        lemma_decimal_digits(n / 10);
        lemma_digit_char(n % 10);
        assert forall|i: int| 0 <= i < decimal(n).len() implies is_digit(#[trigger] decimal(n)[i]) by {
            if i < decimal(n / 10).len() {
                assert(decimal(n)[i] == decimal(n / 10)[i]);
            }
        }
    }
}

/// The text of a non-empty part list starts and ends with a digit.
pub proof fn lemma_parts_text_ends(p: Seq<u32>)
    requires
        p.len() > 0,
    ensures
        parts_text(p).len() > 0,
        is_digit(parts_text(p)[0]),
        is_digit(parts_text(p).last()),
    decreases p.len(),
{
    lemma_decimal_digits(p.last() as nat);
    if p.len() > 1 {
        lemma_parts_text_ends(p.drop_last());
        let t = parts_text(p.drop_last()) + seq!['.'] + decimal(p.last() as nat);
        assert(t[0] == parts_text(p.drop_last())[0]);
        assert(t.last() == decimal(p.last() as nat).last());
    } else {
        lemma_decimal_digits(p[0] as nat);
    }
}

/// The text of a non-empty part list reads back as that list.
pub proof fn lemma_parts_round_trip(p: Seq<u32>)
    requires
        p.len() > 0,
    ensures
        parse_parts(parts_text(p)) == Some(p),
{
    lemma_scan_parts(p);
    assert(p.drop_last().push(p.last()) =~= p);
}

/// Once a prefix of `s` is invalid, the whole of `s` is.
pub proof fn lemma_scan_none_extends(s: Seq<char>, k: int)
    requires
        0 <= k <= s.len(),
        scan(s.take(k)) is None,
    ensures
        scan(s) is None,
        parse_parts(s) is None,
    decreases s.len() - k,
{
    if k < s.len() {
        assert(s.take(k + 1).drop_last() =~= s.take(k));
        lemma_scan_none_extends(s, k + 1);
    } else {
        assert(s.take(k) =~= s);
    }
}

// ---------------------------------------------------------------------------
// Tag segments

/// A tag segment cannot hold `+`: it is stored as `..`.
pub open spec fn encode_segment(s: Seq<char>) -> Seq<char>
    decreases s.len(),
{
    if s.len() == 0 {
        s
    } else if s[0] == '+' {
        seq!['.', '.'] + encode_segment(s.drop_first())
    } else {
        seq![s[0]] + encode_segment(s.drop_first())
    }
}

/// Reading a stored segment turns each `..` back into `+`.
pub open spec fn decode_segment(s: Seq<char>) -> Seq<char>
    decreases s.len(),
{
    if s.len() == 0 {
        s
    } else if s.len() >= 2 && s[0] == '.' && s[1] == '.' {
        seq!['+'] + decode_segment(s.skip(2))
    } else {
        seq![s[0]] + decode_segment(s.drop_first())
    }
}

/// No dot in `s` is followed by a dot or a plus.
pub open spec fn no_dot_run(s: Seq<char>) -> bool {
    forall|i: int| 0 <= i < s.len() - 1 && #[trigger] s[i] == '.' ==> s[i + 1] != '.' && s[i + 1] != '+'
}

/// Encoding a segment and decoding it gives it back, where no dot is followed
/// by a dot or a plus (as in every version text).
pub proof fn lemma_segment_round_trip(s: Seq<char>)
    requires
        no_dot_run(s),
    ensures
        decode_segment(encode_segment(s)) == s,
    decreases s.len(),
{
    if s.len() > 0 {
        let t = s.drop_first();
        assert forall|i: int| 0 <= i < t.len() - 1 && #[trigger] t[i] == '.' implies t[i + 1] != '.' && t[i
            + 1] != '+' by {
            assert(s[i + 1] == t[i]);
        }
        lemma_segment_round_trip(t);
        let e = encode_segment(s);
        if s[0] == '+' {
            assert(e.skip(2) =~= encode_segment(t));
        } else {
            assert(e.drop_first() =~= encode_segment(t));
            if s[0] == '.' && t.len() > 0 {
                lemma_encode_first(t);
            }
        }
    }
}

proof fn lemma_encode_first(t: Seq<char>)
    requires
        t.len() > 0,
        t[0] != '.',
        t[0] != '+',
    ensures
        encode_segment(t)[0] == t[0],
{
}

/// `encode_segment`, computed.
pub fn encode_tag_segment(s: &str) -> (r: String)
    ensures
        r@ == encode_segment(s@),
{
    let n = s.unicode_len();
    let mut out = String::new();
    let mut i: usize = n;
    let mut suffix = String::new();
    // Build from the end so that the recursive definition unfolds at each step.
    while i > 0
        invariant
            n == s@.len(),
            i <= n,
            suffix@ == encode_segment(s@.skip(i as int)),
        decreases i,
    {
        let c = s.get_char(i - 1);
        let piece: String;
        if c == '+' {
            piece = String::from_str("..");
            proof {
                reveal_strlit("..");
            }
        } else {
            piece = String::from_str(s.substring_char(i - 1, i));
        }
        proof {
            assert(s@.skip(i as int - 1).drop_first() =~= s@.skip(i as int));
            assert(s@.skip(i as int - 1)[0] == c);
            if c != '+' {
                assert(piece@ =~= seq![c]);
            }
        }
        let rest = suffix;
        suffix = piece.concat(rest.as_str());
        i = i - 1;
    }
    proof {
        assert(s@.skip(0) =~= s@);
    }
    out.append(suffix.as_str());
    proof {
        assert(out@ =~= suffix@);
    }
    out
}

/// `decode_segment`, computed.
pub fn decode_tag_segment(s: &str) -> (r: String)
    ensures
        r@ == decode_segment(s@),
{
    let n = s.unicode_len();
    let mut out = String::new();
    let mut i: usize = 0;
    proof {
        assert(s@.skip(0) =~= s@);
        assert(out@ + decode_segment(s@) =~= decode_segment(s@));
    }
    while i < n
        invariant
            n == s@.len(),
            i <= n,
            out@ + decode_segment(s@.skip(i as int)) == decode_segment(s@),
        decreases n - i,
    {
        let t = Ghost(s@.skip(i as int));
        if i + 1 < n && s.get_char(i) == '.' && s.get_char(i + 1) == '.' {
            out.append("+");
            proof {
                reveal_strlit("+");
                assert(t@.skip(2) =~= s@.skip(i as int + 2));
                assert(out@ + decode_segment(s@.skip(i as int + 2)) =~= decode_segment(s@));
            }
            i = i + 2;
        } else {
            out.append(s.substring_char(i, i + 1));
            proof {
                assert(t@.drop_first() =~= s@.skip(i as int + 1));
                assert(out@ + decode_segment(s@.skip(i as int + 1)) =~= decode_segment(s@));
            }
            i = i + 1;
        }
    }
    proof {
        assert(s@.skip(n as int) =~= Seq::<char>::empty());
        assert(out@ + Seq::<char>::empty() =~= out@);
    }
    out
}

} // verus!
