//! Semantic versions (`MAJOR.MINOR.PATCH`) and the constraints that registry
//! dependencies place on them.

use vstd::prelude::*;
use crate::text::{
    all_digits, chars_of, decimal, decimal_string, digit_char, digit_value, digits_value, find_char,
    index_of, is_digit, lemma_find_char_range, lemma_find_char_shift, same_chars, string_of_range,
};

verus! {

/// A semantic version. Versions are ordered by major, then minor, then patch number.
#[derive(Debug, Clone, Copy, PartialEq, Eq, Structural, PartialOrd, Ord, Hash)]
pub struct Version {
    pub major: u64,
    pub minor: u64,
    pub patch: u64,
}

/// `a` comes before `b`.
pub open spec fn version_lt(a: Version, b: Version) -> bool {
    a.major < b.major || (a.major == b.major && (a.minor < b.minor || (a.minor == b.minor && a.patch < b.patch)))
}

pub open spec fn version_le(a: Version, b: Version) -> bool {
    version_lt(a, b) || a == b
}

/// The value of a non-empty run of decimal digits that fits in a `u64`.
pub open spec fn number_of(s: Seq<char>) -> Option<u64> {
    if s.len() > 0 && all_digits(s) && digits_value(s) <= u64::MAX {
        Some(digits_value(s) as u64)
    } else {
        None
    }
}

/// The version a text denotes: three numbers separated by dots.
pub open spec fn version_of(t: Seq<char>) -> Option<Version> {
    let a = find_char(t, '.', 0);
    let b = find_char(t, '.', a + 1);
    if a < t.len() && b < t.len() {
        match (number_of(t.take(a)), number_of(t.subrange(a + 1, b)), number_of(t.skip(b + 1))) {
            (Some(x), Some(y), Some(z)) => Some(Version { major: x, minor: y, patch: z }),
            _ => None,
        }
    } else {
        None
    }
}

/// `MAJOR.MINOR.PATCH` in decimal.
pub open spec fn version_text(v: Version) -> Seq<char> {
    decimal(v.major as nat) + "."@ + decimal(v.minor as nat) + "."@ + decimal(v.patch as nat)
}

pub open spec fn version_error(t: Seq<char>) -> Seq<char> {
    "invalid semantic version `"@ + t + "`"@
}

/// A constraint on the versions of a dependency.
#[derive(Debug, Clone, Copy, PartialEq, Eq, Structural)]
pub enum Constraint {
    /// `*`: every version.
    Any,
    /// `=1.2.3` or a bare `1.2.3`: that version alone.
    Exact(Version),
    /// `^1.2.3`: compatible versions, those that keep the leftmost non-zero number.
    Caret(Version),
    /// `~1.2.3`: the same major and minor version.
    Tilde(Version),
}

/// Whether a version satisfies a constraint.
pub open spec fn constraint_matches(c: Constraint, x: Version) -> bool {
    match c {
        Constraint::Any => true,
        Constraint::Exact(v) => x == v,
        Constraint::Caret(v) => version_le(v, x) && if v.major > 0 {
            x.major == v.major
        } else if v.minor > 0 {
            x.major == 0 && x.minor == v.minor
        } else {
            x == v
        },
        Constraint::Tilde(v) => version_le(v, x) && x.major == v.major && x.minor == v.minor,
    }
}

/// The constraint a text denotes.
pub open spec fn constraint_of(t: Seq<char>) -> Option<Constraint> {
    if t == "*"@ {
        Some(Constraint::Any)
    } else if t.len() > 0 && (t[0] == '^' || t[0] == '~' || t[0] == '=') {
        match version_of(t.skip(1)) {
            Some(v) => Some(if t[0] == '^' {
                Constraint::Caret(v)
            } else if t[0] == '~' {
                Constraint::Tilde(v)
            } else {
                Constraint::Exact(v)
            }),
            None => None,
        }
    } else {
        match version_of(t) {
            Some(v) => Some(Constraint::Exact(v)),
            None => None,
        }
    }
}

/// How a constraint is written.
pub open spec fn constraint_text(c: Constraint) -> Seq<char> {
    match c {
        Constraint::Any => "*"@,
        Constraint::Exact(v) => "="@ + version_text(v),
        Constraint::Caret(v) => "^"@ + version_text(v),
        Constraint::Tilde(v) => "~"@ + version_text(v),
    }
}

pub open spec fn constraint_error(t: Seq<char>) -> Seq<char> {
    "invalid version constraint `"@ + t + "`"@
}

/// The value of a prefix of a run of digits is at most the value of the run.
proof fn lemma_digits_value_prefix(s: Seq<char>, j: int)
    requires
        0 <= j <= s.len(),
    ensures
        digits_value(s.take(j)) <= digits_value(s),
    decreases s.len(),
{
    if j < s.len() {
        assert(s.drop_last().take(j) =~= s.take(j));
        lemma_digits_value_prefix(s.drop_last(), j);
    } else {
        assert(s.take(j) =~= s);
    }
}

/// The number written by the digits `t[lo..hi]`.
fn number_in(t: &Vec<char>, lo: usize, hi: usize) -> (r: Option<u64>)
    requires
        lo <= hi <= t.len(),
    ensures
        r == number_of(t@.subrange(lo as int, hi as int)),
{
    let ghost s = t@.subrange(lo as int, hi as int);
    if lo == hi {
        return None;
    }
    let mut k = lo;
    while k < hi && '0' <= t[k] && t[k] <= '9'
        invariant
            lo <= k <= hi <= t.len(),
            forall|i: int| lo <= i < k ==> is_digit(#[trigger] t@[i]),
        decreases hi - k,
    {
        k += 1;
    }
    if k < hi {
        assert(!is_digit(s[k - lo]));
        return None;
    }
    assert(all_digits(s));
    let mut v: u64 = 0;
    let mut k = lo;
    while k < hi
        invariant
            lo <= k <= hi <= t.len(),
            s == t@.subrange(lo as int, hi as int),
            all_digits(s),
            v == digits_value(s.take(k - lo)),
        decreases hi - k,
    {
        let ghost p = s.take(k - lo + 1);
        proof {
            assert(p.drop_last() =~= s.take(k - lo));
            assert(p.last() == t@[k as int]);
            assert(is_digit(s[k - lo]));
            lemma_digits_value_prefix(s, k - lo + 1);
        }
        let d: u64 = (t[k] as u32 - '0' as u32) as u64;
        assert(d == digit_value(t@[k as int]));
        match v.checked_mul(10) {
            None => {
                return None;
            },
            Some(w) => match w.checked_add(d) {
                None => {
                    return None;
                },
                Some(x) => {
                    v = x;
                },
            },
        }
        k += 1;
    }
    assert(s.take(hi - lo) =~= s);
    Some(v)
}

/// The characters of `decimal(n)` are digits, and they denote `n`.
pub proof fn lemma_decimal(n: nat)
    ensures
        decimal(n).len() > 0,
        all_digits(decimal(n)),
        digits_value(decimal(n)) == n,
    decreases n,
{
    let d = (n % 10) as nat;
    assert(is_digit(digit_char(d)) && digit_value(digit_char(d)) == d);
    if n >= 10 {
        lemma_decimal(n / 10);
        assert(decimal(n).drop_last() =~= decimal(n / 10));
        assert(decimal(n).last() == digit_char(d));
        assert((n / 10) * 10 + n % 10 == n) by (nonlinear_arith);
        assert(digits_value(decimal(n)) == digits_value(decimal(n / 10)) * 10 + digit_value(digit_char(d)));
    } else {
        assert(decimal(n).drop_last() =~= Seq::<char>::empty());
        assert(digits_value(Seq::<char>::empty()) == 0);
        assert(digits_value(decimal(n)) == digits_value(Seq::<char>::empty()) * 10 + digit_value(digit_char(d)));
    }
}

impl Version {
    /// Reads `MAJOR.MINOR.PATCH`.
    pub fn parse(text: &str) -> (res: Result<Version, String>)
        ensures
            match version_of(text@) {
                Some(v) => res == Ok::<Version, String>(v),
                None => res is Err && res->Err_0@ == version_error(text@),
            },
    {
        let t = chars_of(text);
        let a = index_of(&t, '.', 0);
        if a < t.len() {
            let b = index_of(&t, '.', a + 1);
            if b < t.len() {
                assert(t@.take(a as int) =~= t@.subrange(0, a as int));
                assert(t@.skip(b + 1) =~= t@.subrange(b + 1, t@.len() as int));
                let x = number_in(&t, 0, a);
                let y = number_in(&t, a + 1, b);
                let z = number_in(&t, b + 1, t.len());
                match (x, y, z) {
                    (Some(major), Some(minor), Some(patch)) => {
                        return Ok(Version { major, minor, patch });
                    },
                    _ => {},
                }
            }
        }
        let mut m = String::from_str("invalid semantic version `");
        m.append(text);
        m.append("`");
        Err(m)
    }

    /// Writes `MAJOR.MINOR.PATCH`.
    pub fn to_text(&self) -> (s: String)
        ensures
            s@ == version_text(*self),
    {
        let mut s = decimal_string(self.major);
        s.append(".");
        s.append(decimal_string(self.minor).as_str());
        s.append(".");
        s.append(decimal_string(self.patch).as_str());
        s
    }

    /// Whether `self` comes before `other`.
    pub fn before(&self, other: &Version) -> (r: bool)
        ensures
            r == version_lt(*self, *other),
    {
        self.major < other.major || (self.major == other.major && (self.minor < other.minor || (
        self.minor == other.minor && self.patch < other.patch)))
    }
}

impl Constraint {
    /// Reads a constraint: `*`, `^V`, `~V`, `=V` or a bare version `V`.
    pub fn parse(text: &str) -> (res: Result<Constraint, String>)
        ensures
            match constraint_of(text@) {
                Some(c) => res == Ok::<Constraint, String>(c),
                None => res is Err && res->Err_0@ == constraint_error(text@),
            },
    {
        let t = chars_of(text);
        let star = chars_of("*");
        let mut result: Option<Constraint> = None;
        if same_chars(t.as_slice(), star.as_slice()) {
            result = Some(Constraint::Any);
        } else if t.len() > 0 && (t[0] == '^' || t[0] == '~' || t[0] == '=') {
            let rest = string_of_range(&t, 1, t.len());
            assert(rest@ == text@.skip(1));
            match Version::parse(rest.as_str()) {
                Ok(v) => {
                    result = Some(if t[0] == '^' {
                        Constraint::Caret(v)
                    } else if t[0] == '~' {
                        Constraint::Tilde(v)
                    } else {
                        Constraint::Exact(v)
                    });
                },
                Err(_) => {},
            }
        } else {
            match Version::parse(text) {
                Ok(v) => {
                    result = Some(Constraint::Exact(v));
                },
                Err(_) => {},
            }
        }
        match result {
            Some(c) => Ok(c),
            None => {
                let mut m = String::from_str("invalid version constraint `");
                m.append(text);
                m.append("`");
                Err(m)
            },
        }
    }

    /// Whether a version satisfies the constraint.
    pub fn matches(&self, x: &Version) -> (r: bool)
        ensures
            r == constraint_matches(*self, *x),
    {
        match self {
            Constraint::Any => true,
            Constraint::Exact(v) => *x == *v,
            Constraint::Caret(v) => {
                let at_least = !x.before(v);
                at_least && if v.major > 0 {
                    x.major == v.major
                } else if v.minor > 0 {
                    x.major == 0 && x.minor == v.minor
                } else {
                    *x == *v
                }
            },
            Constraint::Tilde(v) => !x.before(v) && x.major == v.major && x.minor == v.minor,
        }
    }

    /// Writes the constraint as `parse` reads it.
    pub fn to_text(&self) -> (s: String)
        ensures
            s@ == constraint_text(*self),
    {
        match self {
            Constraint::Any => String::from_str("*"),
            Constraint::Exact(v) => {
                let mut s = String::from_str("=");
                s.append(v.to_text().as_str());
                s
            },
            Constraint::Caret(v) => {
                let mut s = String::from_str("^");
                s.append(v.to_text().as_str());
                s
            },
            Constraint::Tilde(v) => {
                let mut s = String::from_str("~");
                s.append(v.to_text().as_str());
                s
            },
        }
    }
}

/// In `a + [c] + b`, where `a` holds no `c`, the first `c` is at `a.len()`.
proof fn lemma_first_separator(a: Seq<char>, c: char, b: Seq<char>)
    requires
        forall|k: int| 0 <= k < a.len() ==> a[k] != c,
    ensures
        find_char(a + seq![c] + b, c, 0) == a.len(),
{
    let t = a + seq![c] + b;
    lemma_find_char_range(t, c, 0);
    assert(t[a.len() as int] == c);
    assert(forall|k: int| 0 <= k < a.len() ==> t[k] == a[k]);
}

/// Writing a version and reading it back gives the same version.
pub proof fn law_version_roundtrip(v: Version)
    ensures
        version_of(version_text(v)) == Some(v),
{
    reveal_strlit(".");
    let a = decimal(v.major as nat);
    let b = decimal(v.minor as nat);
    let c = decimal(v.patch as nat);
    lemma_decimal(v.major as nat);
    lemma_decimal(v.minor as nat);
    lemma_decimal(v.patch as nat);
    let t = version_text(v);
    let rest = b + seq!['.'] + c;
    assert(t =~= a + seq!['.'] + rest);
    assert forall|k: int| 0 <= k < a.len() implies a[k] != '.' by {
        assert(is_digit(a[k]));
    }
    assert forall|k: int| 0 <= k < b.len() implies b[k] != '.' by {
        assert(is_digit(b[k]));
    }
    lemma_first_separator(a, '.', rest);
    let p = a + seq!['.'];
    assert(t =~= p + rest);
    lemma_first_separator(b, '.', c);
    lemma_find_char_shift(p, rest, '.', 0);
    let i = a.len() as int;
    let j = i + 1 + b.len();
    assert(find_char(t, '.', 0) == i);
    assert(find_char(t, '.', i + 1) == j);
    assert(t.take(i) =~= a);
    assert(t.subrange(i + 1, j) =~= b);
    assert(t.skip(j + 1) =~= c);
}

/// Writing a constraint and reading it back gives the same constraint.
pub proof fn law_constraint_roundtrip(c: Constraint)
    ensures
        constraint_of(constraint_text(c)) == Some(c),
{
    reveal_strlit("*");
    reveal_strlit("=");
    reveal_strlit("^");
    reveal_strlit("~");
    match c {
        Constraint::Any => {},
        Constraint::Exact(v) => {
            law_version_roundtrip(v);
            let t = constraint_text(c);
            assert(t.skip(1) =~= version_text(v));
            assert(t.len() > 1);
        },
        Constraint::Caret(v) => {
            law_version_roundtrip(v);
            let t = constraint_text(c);
            assert(t.skip(1) =~= version_text(v));
            assert(t.len() > 1);
        },
        Constraint::Tilde(v) => {
            law_version_roundtrip(v);
            let t = constraint_text(c);
            assert(t.skip(1) =~= version_text(v));
            assert(t.len() > 1);
        },
    }
}

/// Every version satisfies `*`, and each other constraint is satisfied by the
/// version it names and by no earlier version.
pub proof fn law_constraint_floor(c: Constraint, x: Version)
    ensures
        c is Any ==> constraint_matches(c, x),
        match c {
            Constraint::Any => true,
            Constraint::Exact(v) | Constraint::Caret(v) | Constraint::Tilde(v) => {
                &&& constraint_matches(c, v)
                &&& version_lt(x, v) ==> !constraint_matches(c, x)
            },
        },
{
}

} // verus!
