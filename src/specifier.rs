//! Parsing of a dependency specifier into a package name and a version constraint.
use vstd::prelude::*;
use vstd::string::*;
use crate::text::{find, find_in, trim, trim_owned};

verus! {

/// How many version operators are recognised.
pub const OPERATOR_COUNT: usize = 9;

/// The recognised operators, by priority: `@`, `==`, `===`, `<=`, `>=`, `!=`, `~=`, `>`, `<`.
pub open spec fn operator(k: int) -> Seq<char> {
    if k == 0 {
        seq!['@']
    } else if k == 1 {
        seq!['=', '=']
    } else if k == 2 {
        seq!['=', '=', '=']
    } else if k == 3 {
        seq!['<', '=']
    } else if k == 4 {
        seq!['>', '=']
    } else if k == 5 {
        seq!['!', '=']
    } else if k == 6 {
        seq!['~', '=']
    } else if k == 7 {
        seq!['>']
    } else {
        seq!['<']
    }
}

/// The operator of highest priority, from the `k`-th on, that occurs in `s`,
/// with the position of its first occurrence.
pub open spec fn pick_from(s: Seq<char>, k: int) -> Option<(int, int)>
    decreases OPERATOR_COUNT - k,
{
    if k < 0 || k >= OPERATOR_COUNT {
        None
    } else {
        match find(s, operator(k)) {
            Some(i) => Some((k, i)),
            None => pick_from(s, k + 1),
        }
    }
}

/// The operator that a specifier is split on, with the position where it first occurs.
pub open spec fn pick(s: Seq<char>) -> Option<(int, int)> {
    pick_from(s, 0)
}

/// The text appended to a specifier that names no operator, before it is split on `==`.
pub open spec fn fallback_suffix() -> Seq<char> {
    seq!['=', '=', ' ']
}

/// `s` split around an operator of length `len` at position `i`, both sides trimmed.
pub open spec fn split_around(s: Seq<char>, i: int, len: int) -> (Seq<char>, Seq<char>) {
    (trim(s.subrange(0, i)), trim(s.subrange(i + len, s.len() as int)))
}

/// The (name, constraint) pair of a specifier.
///
/// The specifier is split at the first occurrence of the recognised operator of
/// highest priority that it holds. One that holds none is split as the text
/// `s + "== "` is split on `==`.
pub open spec fn parse(s: Seq<char>) -> (Seq<char>, Seq<char>) {
    match pick(s) {
        Some((k, i)) => split_around(s, i, operator(k).len() as int),
        None => {
            let t = s + fallback_suffix();
            split_around(t, find(t, operator(1))->0, 2)
        },
    }
}

/// The characters of the `k`-th operator.
fn operator_chars(k: usize) -> (r: Vec<char>)
    requires
        k < OPERATOR_COUNT,
    ensures
        r@ == operator(k as int),
{
    let mut v: Vec<char> = Vec::new();
    if k == 0 {
        v.push('@');
    } else if k == 1 {
        v.push('=');
        v.push('=');
    } else if k == 2 {
        v.push('=');
        v.push('=');
        v.push('=');
    } else if k == 3 {
        v.push('<');
        v.push('=');
    } else if k == 4 {
        v.push('>');
        v.push('=');
    } else if k == 5 {
        v.push('!');
        v.push('=');
    } else if k == 6 {
        v.push('~');
        v.push('=');
    } else if k == 7 {
        v.push('>');
    } else {
        v.push('<');
    }
    assert(v@ =~= operator(k as int));
    v
}

/// Splits `s` around `len` characters at position `i` and trims both sides.
fn split_trimmed(s: &str, i: usize, len: usize) -> (r: (String, String))
    requires
        i + len <= s@.len(),
    ensures
        (r.0@, r.1@) == split_around(s@, i as int, len as int),
{
    let n = s.unicode_len();
    let name = trim_owned(s.substring_char(0, i));
    let rest = trim_owned(s.substring_char(i + len, n));
    (name, rest)
}

/// Parses a specifier such as `requests>=2.0` into its name and its constraint.
///
/// Never fails: an empty specifier gives two empty strings. A specifier with no
/// operator is split as `line + "== "` is split on `==`: that gives the trimmed
/// line and an empty constraint, unless the line itself ends in `=`.
pub fn split_module_and_version(line: &str) -> (r: (String, String))
    ensures
        (r.0@, r.1@) == parse(line@),
{
    let mut k: usize = 0;
    while k < OPERATOR_COUNT
        invariant
            k <= OPERATOR_COUNT,
            pick(line@) == pick_from(line@, k as int),
        decreases OPERATOR_COUNT - k,
    {
        let op = operator_chars(k);
        match find_in(line, &op) {
            Some(i) => {
                assert(i + op@.len() <= line@.len()) by {
                    crate::text::lemma_find_bounds(line@, op@);
                }
                return split_trimmed(line, i, op.len());
            },
            None => {},
        }
        k = k + 1;
    }
    let mut padded = String::from_str(line);
    padded.append("== ");
    proof {
        reveal_strlit("== ");
        assert(padded@ =~= line@ + fallback_suffix());
    }
    let eq = operator_chars(1);
    let t = padded.as_str();
    let pos = find_in(t, &eq);
    proof {
        crate::text::lemma_find_suffix(line@, fallback_suffix());
    }
    let i = match pos {
        Some(i) => i,
        None => 0,
    };
    proof {
        crate::text::lemma_find_bounds(t@, eq@);
    }
    split_trimmed(t, i, 2)
}

} // verus!
